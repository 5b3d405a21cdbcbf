//! The Linux engine: nftables NFQUEUE + `nfqws`.
//!
//! Locally originated TCP/443 and UDP/443 packets are diverted into an
//! NFQUEUE; `nfqws` reads that queue, matches the SNI against a host list and
//! desyncs only matching flows. The `bypass` flag on the queue rules is the
//! kill-switch: when `nfqws` is not attached, packets pass untouched.
//!
//! Here is everything the engine decides: where its files live, which
//! binary runs, the ruleset, the host list, the command line and what the
//! always-on service is asked. Running the commands and writing the files is
//! left to the privileged helper.
use vstd::prelude::*;
use crate::network::opt_str_view;
use crate::paths::{join_unix, unix_join};
use crate::strategy::{Strategy, nfqws_args};
use crate::text::{
    dec,
    ascii_lower,
    crlf,
    is_ascii_seq,
    join,
    join_spec,
    lemma_crlf_concat,
    lemma_crlf_no_lf,
    lex_lt,
    lowercase,
    parse_i32,
    parse_i32_spec,
    push_decimal,
    sorted_distinct,
    strictly_sorted,
    strip_star_dot,
    to_lowercase,
    trim,
    trim_spec,
    trim_star_dot,
};

verus! {

/// The NFQUEUE the ruleset diverts into and `nfqws` listens on.
pub const QUEUE_NUM: u32 = 200;

/// The directory that holds the run-time files.
pub open spec fn run_dir_spec() -> Seq<char> {
    "/run/dpi-bypass"@
}

/// Where the running `nfqws` records its process id.
pub open spec fn pidfile_spec() -> Seq<char> {
    unix_join(run_dir_spec(), "nfqws.pid"@)
}

/// Where the host list for `nfqws` is written.
pub open spec fn hostlist_path_spec() -> Seq<char> {
    unix_join(run_dir_spec(), "hostlist.txt"@)
}

/// The directory that holds the run-time files.
pub fn run_dir() -> (r: String)
    ensures
        r@ == run_dir_spec(),
{
    "/run/dpi-bypass".to_owned()
}

/// Where the running `nfqws` records its process id.
pub fn pidfile() -> (r: String)
    ensures
        r@ == pidfile_spec(),
{
    join_unix(run_dir().as_str(), "nfqws.pid")
}

/// Where the host list for `nfqws` is written.
pub fn hostlist_path() -> (r: String)
    ensures
        r@ == hostlist_path_spec(),
{
    join_unix(run_dir().as_str(), "hostlist.txt")
}

/// The installed `nfqws`.
pub open spec fn default_nfqws() -> Seq<char> {
    "/usr/lib/dpi-bypass/nfqws"@
}

/// The `nfqws` binary: the one named explicitly, else the one `DPI_NFQWS`
/// names, else the installed one.
pub open spec fn nfqws_path_spec(explicit: Option<Seq<char>>, env: Option<Seq<char>>) -> Seq<
    char,
> {
    match explicit {
        Some(p) => p,
        None => match env {
            Some(e) => e,
            None => default_nfqws(),
        },
    }
}

/// Resolve the `nfqws` binary: `explicit` first, then `env` (the value of
/// `DPI_NFQWS`, when it is set), then the installed path.
pub fn nfqws_path(explicit: Option<&str>, env: Option<&str>) -> (r: String)
    ensures
        r@ == nfqws_path_spec(opt_str_view(explicit), opt_str_view(env)),
{
    match explicit {
        Some(p) => p.to_owned(),
        None => match env {
            Some(e) => e.to_owned(),
            None => "/usr/lib/dpi-bypass/nfqws".to_owned(),
        },
    }
}

/// The nftables ruleset: an `inet dpi_bypass` table whose output chain
/// queues TCP/443 and UDP/443 to [`QUEUE_NUM`], with `bypass` so that the
/// packets pass when nothing listens on the queue.
pub open spec fn nft_ruleset_spec() -> Seq<char> {
    "table inet dpi_bypass {\n\tchain output {\n\t\ttype filter hook output priority mangle; policy accept;\n\t\tmeta l4proto tcp tcp dport 443 queue num "@
        + dec(QUEUE_NUM as nat) + " bypass\n\t\tmeta l4proto udp udp dport 443 queue num "@ + dec(
        QUEUE_NUM as nat,
    ) + " bypass\n\t}\n}\n"@
}

/// The nftables ruleset that diverts port-443 traffic into the queue.
pub fn nft_ruleset() -> (r: String)
    ensures
        r@ == nft_ruleset_spec(),
{
    let mut s = "table inet dpi_bypass {\n\tchain output {\n\t\ttype filter hook output priority mangle; policy accept;\n\t\tmeta l4proto tcp tcp dport 443 queue num ".to_owned();
    push_decimal(&mut s, QUEUE_NUM as u64);
    s.append(" bypass\n\t\tmeta l4proto udp udp dport 443 queue num ");
    push_decimal(&mut s, QUEUE_NUM as u64);
    s.append(" bypass\n\t}\n}\n");
    s
}

/// The `nfqws` command line: the binary, the queue it binds, the host list,
/// then the strategy's own flags.
pub open spec fn nfqws_argv_spec(
    nfqws: Seq<char>,
    strategy: crate::strategy::StrategyView,
    hostlist: Seq<char>,
) -> Seq<Seq<char>> {
    seq![nfqws, "--qnum="@ + dec(QUEUE_NUM as nat), "--hostlist="@ + hostlist] + nfqws_args(
        strategy,
    )
}

/// Build the full `nfqws` argument vector: queue binding, host list and the
/// strategy's flags.
pub fn nfqws_argv(nfqws: &str, strategy: &Strategy, hostlist: &str) -> (r: Vec<String>)
    ensures
        r.deep_view() == nfqws_argv_spec(nfqws@, strategy@, hostlist@),
{
    let mut argv: Vec<String> = Vec::new();
    argv.push(nfqws.to_owned());
    let mut q = "--qnum=".to_owned();
    push_decimal(&mut q, QUEUE_NUM as u64);
    argv.push(q);
    let mut h = "--hostlist=".to_owned();
    h.append(hostlist);
    argv.push(h);
    let ghost head = argv.deep_view();
    let flags = strategy.to_nfqws_args();
    let n = flags.len();
    let mut i: usize = 0;
    while i < n
        invariant
            n == flags@.len(),
            0 <= i <= n,
            argv.deep_view() == head + flags.deep_view().take(i as int),
        decreases n - i,
    {
        let f = flags[i].clone();
        assert(f@ == flags.deep_view()[i as int]);
        let ghost before = argv.deep_view();
        argv.push(f);
        assert(argv.deep_view() =~= before.push(f@));
        assert(flags.deep_view().take(i + 1) =~= flags.deep_view().take(i as int).push(f@));
        assert(argv.deep_view() =~= head + flags.deep_view().take(i + 1));
        i = i + 1;
    }
    assert(flags.deep_view().take(n as int) =~= flags.deep_view());
    assert(argv.deep_view() =~= nfqws_argv_spec(nfqws@, strategy@, hostlist@));
    argv
}

/// A domain as a host-list entry: leading `*.` removed, surrounding
/// whitespace removed, lower-cased.
pub open spec fn normalize_host(d: Seq<char>) -> Seq<char> {
    lowercase(trim_spec(strip_star_dot(d)))
}

/// The non-empty normalised entries of `ds`, in order.
pub open spec fn normalized_hosts(ds: Seq<Seq<char>>) -> Seq<Seq<char>>
    decreases ds.len(),
{
    if ds.len() == 0 {
        Seq::empty()
    } else {
        let rest = normalized_hosts(ds.drop_last());
        let h = normalize_host(ds.last());
        if h.len() > 0 {
            rest.push(h)
        } else {
            rest
        }
    }
}

/// The host-list entries for `domains`: the non-empty normalised domains,
/// each once, in increasing order (there is exactly one such list; see
/// [`sorted_list_is_unique`]).
pub open spec fn host_list(ds: Seq<Seq<char>>) -> Seq<Seq<char>> {
    choose|e: Seq<Seq<char>>|
        strictly_sorted(e) && e.to_set() == normalized_hosts(ds).to_set()
}

/// A domain whose entry, once the `*.` prefixes and the surrounding
/// whitespace are gone, is ASCII text without a line feed.
pub open spec fn plain_ascii_domain(d: Seq<char>) -> bool {
    is_ascii_seq(trim_spec(strip_star_dot(d))) && !trim_spec(strip_star_dot(d)).contains('\n')
}

/// A domain's entry computed on ASCII text: the characters `A`-`Z` of the
/// trimmed, unprefixed domain lower-cased, the rest kept.
pub open spec fn ascii_host(d: Seq<char>) -> Seq<char> {
    trim_spec(strip_star_dot(d)).map_values(|c: char| ascii_lower(c))
}

/// For every domain of `ds` whose trimmed, unprefixed form is ASCII, its
/// normalised entry is [`ascii_host`].
pub open spec fn ascii_hosts_known(ds: Seq<Seq<char>>) -> bool {
    forall|i: int|
        0 <= i < ds.len() && is_ascii_seq(trim_spec(strip_star_dot(ds[i]))) ==> normalize_host(
            #[trigger] ds[i],
        ) == ascii_host(ds[i])
}

/// Whether every domain of `ds` is a [`plain_ascii_domain`].
pub open spec fn all_plain_ascii(ds: Seq<Seq<char>>) -> bool {
    forall|i: int| 0 <= i < ds.len() ==> plain_ascii_domain(#[trigger] ds[i])
}

/// Whether no entry of `es` holds a line feed.
pub open spec fn no_line_feeds(es: Seq<Seq<char>>) -> bool {
    forall|k: int| 0 <= k < es.len() ==> !(#[trigger] es[k]).contains('\n')
}

/// The host-list entries for `domains`: every non-empty normalised domain,
/// once each, in increasing order (`nfqws` matches a host and all its
/// subdomains, so a wildcard adds nothing). Lower-casing plain ASCII
/// domains adds no line feed.
pub fn host_entries(domains: &Vec<String>) -> (r: Vec<String>)
    ensures
        strictly_sorted(r.deep_view()),
        r.deep_view().to_set() == normalized_hosts(domains.deep_view()).to_set(),
        r.deep_view() == host_list(domains.deep_view()),
        all_plain_ascii(domains.deep_view()) ==> no_line_feeds(r.deep_view()),
        ascii_hosts_known(domains.deep_view()),
{
    let ghost dv = domains.deep_view();
    let mut items: Vec<String> = Vec::new();
    let n = domains.len();
    let mut i: usize = 0;
    while i < n
        invariant
            n == domains@.len(),
            dv == domains.deep_view(),
            0 <= i <= n,
            items.deep_view() == normalized_hosts(dv.take(i as int)),
            all_plain_ascii(dv) ==> no_line_feeds(items.deep_view()),
            forall|j: int|
                0 <= j < i && is_ascii_seq(trim_spec(strip_star_dot(dv[j]))) ==> normalize_host(
                    #[trigger] dv[j],
                ) == ascii_host(dv[j]),
        decreases n - i,
    {
        assert(dv.take(i + 1).drop_last() =~= dv.take(i as int));
        assert(dv.take(i + 1).last() == domains@[i as int]@);
        let t = trim(trim_star_dot(domains[i].as_str()));
        let h = to_lowercase(t);
        proof {
            assert(t@ == trim_spec(strip_star_dot(dv[i as int])));
            assert(h@ == normalize_host(dv[i as int]));
            if all_plain_ascii(dv) {
                assert(plain_ascii_domain(dv[i as int]));
                assert(h@ == t@.map_values(|c: char| ascii_lower(c)));
                assert forall|k: int| 0 <= k < h@.len() implies h@[k] != '\n' by {
                    assert(t@[k] != '\n');
                    assert(h@[k] == ascii_lower(t@[k]));
                }
            }
        }
        if !h.as_str().is_empty() {
            items.push(h);
            assert(items.deep_view() =~= normalized_hosts(dv.take(i + 1)));
        }
        i = i + 1;
    }
    assert(dv.take(n as int) =~= dv);
    assert(ascii_hosts_known(dv));
    let r = sorted_distinct(items);
    proof {
        if all_plain_ascii(dv) {
            assert forall|k: int| 0 <= k < r.deep_view().len() implies !(#[trigger] r.deep_view()[
                k
            ]).contains('\n') by {
                let x = r.deep_view()[k];
                assert(r.deep_view().to_set().contains(x));
                assert(items.deep_view().to_set().contains(x));
                let j = choose|j: int|
                    0 <= j < items.deep_view().len() && items.deep_view()[j] == x;
            }
        }
        let hl = host_list(dv);
        assert(strictly_sorted(hl) && hl.to_set() == normalized_hosts(dv).to_set());
        sorted_list_is_unique(r.deep_view(), hl);
    }
    r
}

/// The contents of a host list: one entry per line, each line ended by
/// `sep`.
pub open spec fn list_file(entries: Seq<Seq<char>>, sep: Seq<char>) -> Seq<char> {
    join_spec(entries, sep) + sep
}

/// Writing every line end of a list file as a carriage return and a line
/// feed gives the list file with `\r\n` line ends, when no entry holds a
/// line feed itself.
pub proof fn list_file_crlf(es: Seq<Seq<char>>)
    requires
        no_line_feeds(es),
    ensures
        list_file(es, "\r\n"@) == crlf(list_file(es, "\n"@)),
{
    reveal_strlit("\n");
    reveal_strlit("\r\n");
    lemma_join_crlf(es);
    lemma_crlf_concat(join_spec(es, "\n"@), "\n"@);
    lemma_crlf_line_end();
}

proof fn lemma_crlf_line_end()
    ensures
        crlf("\n"@) == "\r\n"@,
{
    reveal_strlit("\n");
    reveal_strlit("\r\n");
    let lf = "\n"@;
    assert(lf.len() == 1 && lf.last() == '\n');
    assert(lf.drop_last() =~= Seq::<char>::empty());
    assert(crlf(lf.drop_last()) == Seq::<char>::empty());
    assert("\r\n"@ =~= seq!['\r', '\n']);
    assert(crlf(lf) =~= "\r\n"@);
}

proof fn lemma_join_crlf(es: Seq<Seq<char>>)
    requires
        no_line_feeds(es),
    ensures
        join_spec(es, "\r\n"@) == crlf(join_spec(es, "\n"@)),
    decreases es.len(),
{
    reveal_strlit("\n");
    reveal_strlit("\r\n");
    if es.len() == 0 {
        assert(crlf(Seq::<char>::empty()) == Seq::<char>::empty());
    } else if es.len() == 1 {
        assert(!es[0].contains('\n'));
        lemma_crlf_no_lf(es[0]);
    } else {
        let init = es.drop_last();
        assert(no_line_feeds(init)) by {
            assert forall|k: int| 0 <= k < init.len() implies !(#[trigger] init[k]).contains(
                '\n',
            ) by {
                assert(init[k] == es[k]);
            }
        }
        lemma_join_crlf(init);
        assert(!es[es.len() - 1].contains('\n'));
        lemma_crlf_no_lf(es.last());
        lemma_crlf_concat(join_spec(init, "\n"@) + "\n"@, es.last());
        lemma_crlf_concat(join_spec(init, "\n"@), "\n"@);
        lemma_crlf_line_end();
    }
}

/// The `nfqws` host list for `domains`: the entries of [`host_entries`],
/// one per line.
pub fn hostlist_contents(domains: &Vec<String>) -> (r: String)
    ensures
        r@ == list_file(host_list(domains.deep_view()), "\n"@),
        ascii_hosts_known(domains.deep_view()),
{
    let entries = host_entries(domains);
    let mut out = join(&entries, "\n");
    out.append("\n");
    assert(out@ == list_file(entries.deep_view(), "\n"@));
    out
}

/// Everything one start of the engine needs: the binary, the host list and
/// where it goes, the ruleset and the command line.
pub struct Launch {
    pub nfqws: String,
    pub hostlist_path: String,
    pub hostlist: String,
    pub ruleset: String,
    pub argv: Vec<String>,
}

/// What starting the engine with `strategy` for `domains` takes: the binary
/// resolved from `explicit` and `env` (see [`nfqws_path`]), the host list
/// for `domains` and its path, the ruleset and the command line built from
/// them.
pub fn launch(strategy: &Strategy, domains: &Vec<String>, explicit: Option<&str>, env: Option<&str>) -> (r: Launch)
    ensures
        r.nfqws@ == nfqws_path_spec(opt_str_view(explicit), opt_str_view(env)),
        r.hostlist_path@ == hostlist_path_spec(),
        r.hostlist@ == list_file(host_list(domains.deep_view()), "\n"@),
        r.ruleset@ == nft_ruleset_spec(),
        r.argv.deep_view() == nfqws_argv_spec(r.nfqws@, strategy@, r.hostlist_path@),
{
    let nfqws = nfqws_path(explicit, env);
    let hl = hostlist_path();
    let argv = nfqws_argv(nfqws.as_str(), strategy, hl.as_str());
    Launch {
        nfqws,
        hostlist_path: hl,
        hostlist: hostlist_contents(domains),
        ruleset: nft_ruleset(),
        argv,
    }
}

/// The report of a dry run with the binary `nfqws`, the host list `hl` and
/// `strategy`: the ruleset, the host list with its path, and the command
/// line with its words separated by spaces.
pub open spec fn plan_text_of(
    nfqws: Seq<char>,
    hl: Seq<char>,
    strategy: crate::strategy::StrategyView,
) -> Seq<char> {
    "# nftables ruleset:\n"@ + nft_ruleset_spec() + "\n# hostlist ("@ + hostlist_path_spec()
        + "):\n"@ + hl + "\n# nfqws command:\n"@ + join_spec(
        nfqws_argv_spec(nfqws, strategy, hostlist_path_spec()),
        " "@,
    ) + "\n"@
}

/// What `apply` would do, without doing it: the report of [`plan_text_of`] for
/// the [`launch`] of `strategy` on `domains`.
pub fn plan(strategy: &Strategy, domains: &Vec<String>, explicit: Option<&str>, env: Option<&str>) -> (r: String)
    ensures
        r@ == plan_text_of(
            nfqws_path_spec(opt_str_view(explicit), opt_str_view(env)),
            list_file(host_list(domains.deep_view()), "\n"@),
            strategy@,
        ),
{
    let l = launch(strategy, domains, explicit, env);
    let mut out = "# nftables ruleset:\n".to_owned();
    out.append(l.ruleset.as_str());
    out.append("\n# hostlist (");
    out.append(l.hostlist_path.as_str());
    out.append("):\n");
    out.append(l.hostlist.as_str());
    out.append("\n# nfqws command:\n");
    let cmd = join(&l.argv, " ");
    out.append(cmd.as_str());
    out.append("\n");
    assert(out@ =~= plan_text_of(l.nfqws@, l.hostlist@, strategy@));
    out
}

/// The process id recorded in a pid file's contents (surrounding
/// whitespace ignored), if it is a number.
pub fn parse_pid(contents: &str) -> (r: Option<i32>)
    ensures
        r == parse_i32_spec(trim_spec(contents@)),
{
    parse_i32(trim(contents))
}

/// The `kill` arguments that stop the process `pid`.
pub fn kill_args(pid: i32) -> (r: Vec<String>)
    ensures
        r.deep_view() == seq![crate::text::dec_int(pid as int)],
{
    let mut s = String::new();
    crate::text::push_decimal_i64(&mut s, pid as i64);
    let mut v: Vec<String> = Vec::new();
    v.push(s);
    assert(v.deep_view() =~= seq![crate::text::dec_int(pid as int)]);
    v
}

/// The systemd unit of the always-on service.
pub open spec fn service_unit() -> Seq<char> {
    "dpi-bypass.service"@
}

/// The `systemctl` arguments that enable and start the always-on service.
pub fn enable_service() -> (r: Vec<String>)
    ensures
        r.deep_view() == seq!["enable"@, "--now"@, service_unit()],
{
    let mut v: Vec<String> = Vec::new();
    v.push("enable".to_owned());
    v.push("--now".to_owned());
    v.push("dpi-bypass.service".to_owned());
    assert(v.deep_view() =~= seq!["enable"@, "--now"@, service_unit()]);
    v
}

/// The `systemctl` arguments that stop and disable the always-on service.
pub fn disable_service() -> (r: Vec<String>)
    ensures
        r.deep_view() == seq!["disable"@, "--now"@, service_unit()],
{
    let mut v: Vec<String> = Vec::new();
    v.push("disable".to_owned());
    v.push("--now".to_owned());
    v.push("dpi-bypass.service".to_owned());
    assert(v.deep_view() =~= seq!["disable"@, "--now"@, service_unit()]);
    v
}

/// The two `systemctl` queries whose success says whether the always-on
/// service is enabled and whether it is active.
pub fn service_status() -> (r: (Vec<String>, Vec<String>))
    ensures
        r.0.deep_view() == seq!["is-enabled"@, "--quiet"@, service_unit()],
        r.1.deep_view() == seq!["is-active"@, "--quiet"@, service_unit()],
{
    let mut e: Vec<String> = Vec::new();
    e.push("is-enabled".to_owned());
    e.push("--quiet".to_owned());
    e.push("dpi-bypass.service".to_owned());
    let mut a: Vec<String> = Vec::new();
    a.push("is-active".to_owned());
    a.push("--quiet".to_owned());
    a.push("dpi-bypass.service".to_owned());
    assert(e.deep_view() =~= seq!["is-enabled"@, "--quiet"@, service_unit()]);
    assert(a.deep_view() =~= seq!["is-active"@, "--quiet"@, service_unit()]);
    (e, a)
}

/// The engine the solver drives on Linux, with the `nfqws` binary it was
/// told to use, if any.
pub struct LinuxEngine {
    pub nfqws: Option<String>,
}

impl LinuxEngine {
    /// An engine that runs `nfqws` (or the default binary when `None`).
    pub fn new(nfqws: Option<String>) -> (r: Self)
        ensures
            r.nfqws == nfqws,
    {
        LinuxEngine { nfqws }
    }
}

/// What the always-on service applies at boot.
pub struct ActiveProfile {
    pub strategy: Strategy,
    pub domains: Vec<String>,
    pub nfqws: Option<String>,
}

/// A wildcard entry and the plain domain give the same host-list entry
/// (`nfqws` matches a host and all its subdomains).
pub proof fn wildcard_collapses(d: Seq<char>)
    ensures
        normalize_host("*."@ + d) == normalize_host(d),
{
    reveal_strlit("*.");
    let w = "*."@ + d;
    assert(w.skip(2) =~= d);
}

/// A strictly sorted list names each entry once.
pub proof fn sorted_entries_are_distinct(entries: Seq<Seq<char>>)
    requires
        strictly_sorted(entries),
    ensures
        forall|i: int, j: int|
            0 <= i < j < entries.len() ==> #[trigger] entries[i] != #[trigger] entries[j],
{
    assert forall|i: int, j: int| 0 <= i < j < entries.len() implies #[trigger] entries[i]
        != #[trigger] entries[j] by {
        crate::text::lemma_lex_irreflexive(entries[i]);
    }
}

/// Two strictly sorted lists with the same entries are the same list: the
/// host list is determined by the set of its entries, whatever order and
/// repeats the domains came in.
pub proof fn sorted_list_is_unique(a: Seq<Seq<char>>, b: Seq<Seq<char>>)
    requires
        strictly_sorted(a),
        strictly_sorted(b),
        a.to_set() == b.to_set(),
    ensures
        a == b,
    decreases a.len(),
{
    if a.len() == 0 {
        if b.len() > 0 {
            assert(b.to_set().contains(b[0]));
        }
        assert(a =~= b);
    } else {
        assert(a.to_set().contains(a[0]));
        assert(b.len() > 0);
        assert(b.to_set().contains(b[0]));
        // both heads are the least entry
        let x = a[0];
        let y = b[0];
        if x != y {
            let i = choose|i: int| 0 <= i < b.len() && b[i] == x;
            let j = choose|j: int| 0 <= j < a.len() && a[j] == y;
            assert(i > 0);
            assert(j > 0);
            assert(lex_lt(y, x));
            assert(lex_lt(x, y));
            crate::text::lemma_lex_total(x, y);
        }
        assert(x == y);
        let at = a.drop_first();
        let bt = b.drop_first();
        assert(at.to_set() =~= bt.to_set()) by {
            assert forall|z: Seq<char>| at.to_set().contains(z) implies bt.to_set().contains(
                z,
            ) by {
                let k = choose|k: int| 0 <= k < at.len() && at[k] == z;
                assert(a[k + 1] == z);
                assert(lex_lt(a[0], a[k + 1]));
                crate::text::lemma_lex_irreflexive(z);
                assert(a.to_set().contains(z));
                assert(b.to_set().contains(z));
                let m = choose|m: int| 0 <= m < b.len() && b[m] == z;
                assert(m != 0);
                assert(bt[m - 1] == z);
            }
            assert forall|z: Seq<char>| bt.to_set().contains(z) implies at.to_set().contains(
                z,
            ) by {
                let k = choose|k: int| 0 <= k < bt.len() && bt[k] == z;
                assert(b[k + 1] == z);
                assert(lex_lt(b[0], b[k + 1]));
                crate::text::lemma_lex_irreflexive(z);
                assert(b.to_set().contains(z));
                assert(a.to_set().contains(z));
                let m = choose|m: int| 0 <= m < a.len() && a[m] == z;
                assert(m != 0);
                assert(at[m - 1] == z);
            }
        }
        assert(strictly_sorted(at)) by {
            assert forall|i: int, j: int| 0 <= i < j < at.len() implies lex_lt(
                #[trigger] at[i],
                #[trigger] at[j],
            ) by {
                assert(at[i] == a[i + 1] && at[j] == a[j + 1]);
            }
        }
        assert(strictly_sorted(bt)) by {
            assert forall|i: int, j: int| 0 <= i < j < bt.len() implies lex_lt(
                #[trigger] bt[i],
                #[trigger] bt[j],
            ) by {
                assert(bt[i] == b[i + 1] && bt[j] == b[j + 1]);
            }
        }
        sorted_list_is_unique(at, bt);
        assert(a =~= b) by {
            assert forall|k: int| 0 <= k < a.len() implies a[k] == b[k] by {
                if k > 0 {
                    assert(a[k] == at[k - 1]);
                    assert(b[k] == bt[k - 1]);
                }
            }
        }
    }
}

} // verus!
