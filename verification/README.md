# dpi-core

The verified core of a DPI-bypass tool for Discord and similar services.

`src/` is a Verus library. It holds what the tool decides and computes:

- `strategy`: the strategy model and its rendering to `nfqws` and GoodbyeDPI
  flags, and the ordered candidates the solver tries;
- `network`: reachability verdicts from what the probes observed, the TLS
  ClientHello and QUIC probe packets, subnet arithmetic, and network
  fingerprints read from the output of the `ip` tool;
- `engine`, `prober`: the engine abstraction and the auto-solver;
- `profiles`: profiles and the profile store (ids, default profile, lookup,
  removal, re-test targets);
- `engine_linux`, `engine_windows`: paths, rulesets, host lists, command
  lines and service commands of the two engines;
- `helper_cli`, `gui`: the privileged helper's command line and the front
  end's decisions (settings, monitor, tray, helper invocation);
- `text`, `paths`: the string and path handling the rest builds on.

Each public function carries a contract, and laws that span functions
(a profile added under a fresh id is found again, the host list is unique,
what the front end sends is what the helper reads, ...) are proof functions
beside the code they speak of.

`app/` is the unverified rest: sockets, processes, files, JSON, and the
helper's `main`.
