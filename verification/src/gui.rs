//! The decisions of the desktop front end: its settings, what the silent
//! background monitor does on each tick, the tray menu, and how the
//! privileged helper is called and its failures reported.
use vstd::prelude::*;
use crate::network::{NetworkFingerprint, fingerprint_view, opt_str_eq, opt_str_view};
use crate::paths::{join_unix, join_windows, unix_join, win_join};
use crate::text::{dec_int, join, join_spec, push_decimal_i64, str_eq, trim, trim_spec};
use crate::helper_cli::{
    CliErrorView,
    RequestView,
    StrategyArgsView,
    domain_list,
    lookup,
    option_pairs,
    request_spec,
    verb_of,
};

verus! {

/// User-facing settings, kept beside the profile store.
#[derive(Debug, Clone)]
pub struct Settings {
    /// `"tr"` or `"en"`.
    pub language: String,
    /// `"dark"` or `"light"`.
    pub theme: String,
    /// Windows scope mode (`discord` / `browsers` / `all_browsers` /
    /// `system`); Linux is always system-wide.
    pub scope: String,
    /// Minutes between silent background re-tests.
    pub auto_test_interval_min: u32,
    /// Launch the front end at login.
    pub autostart: bool,
}

impl Default for Settings {
    /// Turkish, dark, Discord only, a re-test every half hour, no autostart.
    fn default() -> (r: Self)
        ensures
            r.language@ == "tr"@,
            r.theme@ == "dark"@,
            r.scope@ == "discord"@,
            r.auto_test_interval_min == 30,
            !r.autostart,
    {
        Settings {
            language: "tr".to_owned(),
            theme: "dark".to_owned(),
            scope: "discord".to_owned(),
            auto_test_interval_min: 30,
            autostart: false,
        }
    }
}

/// Where the settings live under the configuration directory.
pub fn settings_path(config_dir: &str) -> (r: String)
    ensures
        r@ == unix_join(unix_join(config_dir@, "dpi-bypass"@), "settings.json"@),
{
    join_unix(join_unix(config_dir, "dpi-bypass").as_str(), "settings.json")
}

/// Seconds between two re-tests: the configured minutes, at least one.
pub open spec fn retest_period_secs(interval_min: u32) -> int {
    if interval_min < 1 {
        60
    } else {
        interval_min * 60
    }
}

/// Whether the background re-test is due, `elapsed_secs` after the last one.
pub fn retest_due(elapsed_secs: u64, interval_min: u32) -> (r: bool)
    ensures
        r == (elapsed_secs >= retest_period_secs(interval_min)),
{
    let m: u64 = if interval_min < 1 {
        1
    } else {
        interval_min as u64
    };
    elapsed_secs >= m * 60
}

/// Whether the network changed between two ticks of the monitor: the two
/// fingerprints differ in some field.
pub fn network_changed(last: &NetworkFingerprint, current: &NetworkFingerprint) -> (r: bool)
    ensures
        r == (fingerprint_view(*last) != fingerprint_view(*current)),
{
    !(opt_str_eq(&last.gateway_mac, &current.gateway_mac) && opt_str_eq(
        &last.link_type,
        &current.link_type,
    ) && opt_str_eq(&last.subnet, &current.subnet) && opt_str_eq(&last.iface, &current.iface))
}

/// What a click on a tray menu entry does.
#[derive(Debug, Clone, Copy, PartialEq, Eq, Structural)]
pub enum TrayAction {
    /// Leave the application.
    Quit,
    /// Show and focus the main window.
    Show,
    /// Turn the bypass off (a full revert).
    TurnOff,
    /// Nothing.
    Ignore,
}

/// The tray entry ids and what they do.
pub open spec fn tray_action_spec(id: Seq<char>) -> TrayAction {
    if id == "quit"@ {
        TrayAction::Quit
    } else if id == "show"@ {
        TrayAction::Show
    } else if id == "toggle"@ {
        TrayAction::TurnOff
    } else {
        TrayAction::Ignore
    }
}

/// What the tray entry `id` does.
pub fn tray_action(id: &str) -> (r: TrayAction)
    ensures
        r == tray_action_spec(id@),
{
    if str_eq(id, "quit") {
        TrayAction::Quit
    } else if str_eq(id, "show") {
        TrayAction::Show
    } else if str_eq(id, "toggle") {
        TrayAction::TurnOff
    } else {
        TrayAction::Ignore
    }
}

/// The options of a `solve` request: the domains joined by commas, then
/// `--voice 1` when voice is probed too, then the engine binary if one is
/// named.
pub open spec fn solve_args_spec(
    domains: Seq<Seq<char>>,
    with_voice: bool,
    engine: Option<Seq<char>>,
) -> Seq<Seq<char>> {
    seq!["--domains"@, join_spec(domains, ","@)] + (if with_voice {
        seq!["--voice"@, "1"@]
    } else {
        Seq::empty()
    }) + match engine {
        Some(p) => seq!["--nfqws"@, p],
        None => Seq::empty(),
    }
}

/// The options the front end gives the helper's `solve` verb.
pub fn solve_args(domains: &Vec<String>, with_voice: bool, engine: Option<&str>) -> (r: Vec<String>)
    ensures
        r.deep_view() == solve_args_spec(domains.deep_view(), with_voice, opt_str_view(engine)),
{
    let mut v: Vec<String> = Vec::new();
    v.push("--domains".to_owned());
    v.push(join(domains, ","));
    let ghost a = v.deep_view();
    if with_voice {
        v.push("--voice".to_owned());
        v.push("1".to_owned());
    }
    let ghost b = v.deep_view();
    assert(b =~= a + (if with_voice {
        seq!["--voice"@, "1"@]
    } else {
        Seq::<Seq<char>>::empty()
    }));
    match engine {
        Some(p) => {
            v.push("--nfqws".to_owned());
            v.push(p.to_owned());
            assert(v.deep_view() =~= b + seq!["--nfqws"@, p@]);
        },
        None => {
            assert(v.deep_view() =~= b + Seq::<Seq<char>>::empty());
        },
    }
    v
}

/// The options of a request that carries a strategy: its JSON text and the
/// domains joined by commas.
pub open spec fn strategy_args_spec(strategy_json: Seq<char>, domains: Seq<Seq<char>>) -> Seq<
    Seq<char>,
> {
    seq!["--strategy"@, strategy_json, "--domains"@, join_spec(domains, ","@)]
}

/// The options the front end gives the helper's `apply` and
/// `enable-service` verbs.
pub fn strategy_args(strategy_json: &str, domains: &Vec<String>) -> (r: Vec<String>)
    ensures
        r.deep_view() == strategy_args_spec(strategy_json@, domains.deep_view()),
{
    let mut v: Vec<String> = Vec::new();
    v.push("--strategy".to_owned());
    v.push(strategy_json.to_owned());
    v.push("--domains".to_owned());
    v.push(join(domains, ","));
    assert(v.deep_view() =~= strategy_args_spec(strategy_json@, domains.deep_view()));
    v
}

/// The command that runs the helper verb `verb` with `extra`: on Unix,
/// through `pkexec` (so the system asks for authentication) unless the front
/// end already runs as root; on Windows, where the front end always runs
/// elevated, directly.
pub open spec fn helper_command_spec(
    unix: bool,
    elevated: bool,
    helper: Seq<char>,
    verb: Seq<char>,
    extra: Seq<Seq<char>>,
) -> Seq<Seq<char>> {
    if unix && !elevated {
        seq!["pkexec"@, helper, verb] + extra
    } else {
        seq![helper, verb] + extra
    }
}

/// The program and arguments that run the helper verb `verb` with `extra`.
pub fn helper_command(unix: bool, elevated: bool, helper: &str, verb: &str, extra: &Vec<String>) -> (r: Vec<String>)
    ensures
        r.deep_view() == helper_command_spec(unix, elevated, helper@, verb@, extra.deep_view()),
{
    let mut v: Vec<String> = Vec::new();
    if unix && !elevated {
        v.push("pkexec".to_owned());
    }
    v.push(helper.to_owned());
    v.push(verb.to_owned());
    let ghost head = v.deep_view();
    let n = extra.len();
    let mut i: usize = 0;
    while i < n
        invariant
            n == extra@.len(),
            0 <= i <= n,
            v.deep_view() == head + extra.deep_view().take(i as int),
        decreases n - i,
    {
        let e = extra[i].clone();
        assert(e@ == extra.deep_view()[i as int]);
        let ghost before = v.deep_view();
        v.push(e);
        assert(v.deep_view() =~= before.push(e@));
        assert(extra.deep_view().take(i + 1) =~= extra.deep_view().take(i as int).push(e@));
        i = i + 1;
    }
    assert(extra.deep_view().take(n as int) =~= extra.deep_view());
    assert(v.deep_view() =~= helper_command_spec(unix, elevated, helper@, verb@, extra.deep_view()));
    v
}

/// An exit code as `{:?}` writes an `Option<i32>`.
pub open spec fn debug_exit_code(code: Option<i32>) -> Seq<char> {
    match code {
        Some(c) => "Some("@ + dec_int(c as int) + ")"@,
        None => "None"@,
    }
}

/// The message for a failed helper run: what it wrote to its error stream,
/// or, when that is blank, which verb failed with which exit code.
pub open spec fn helper_failure_spec(verb: Seq<char>, stderr: Seq<char>, code: Option<i32>) -> Seq<
    char,
> {
    if trim_spec(stderr).len() == 0 {
        "helper '"@ + verb + "' failed (exit "@ + debug_exit_code(code) + ")"@
    } else {
        stderr
    }
}

/// The message for a failed run of the helper verb `verb`.
pub fn helper_failure(verb: &str, stderr: &str, code: Option<i32>) -> (r: String)
    ensures
        r@ == helper_failure_spec(verb@, stderr@, code),
{
    if !trim(stderr).is_empty() {
        return stderr.to_owned();
    }
    let mut s = "helper '".to_owned();
    s.append(verb);
    s.append("' failed (exit ");
    match code {
        Some(c) => {
            s.append("Some(");
            push_decimal_i64(&mut s, c as i64);
            s.append(")");
        },
        None => {
            s.append("None");
        },
    }
    s.append(")");
    s
}

/// Where the helper is installed on Unix.
pub fn installed_helper_unix() -> (r: String)
    ensures
        r@ == "/usr/lib/dpi-bypass/dpi-bypass-helper"@,
{
    "/usr/lib/dpi-bypass/dpi-bypass-helper".to_owned()
}

/// Where the helper is installed on Windows, under `%ProgramFiles%` (or its
/// usual place).
pub fn installed_helper_windows(program_files: Option<&str>) -> (r: String)
    ensures
        r@ == win_join(
            win_join(
                match opt_str_view(program_files) {
                    Some(p) => p,
                    None => "C:\\Program Files"@,
                },
                "DPI-Bypass"@,
            ),
            "dpi-bypass-helper.exe"@,
        ),
{
    proof {
        reveal_strlit("DPI-Bypass");
        reveal_strlit("dpi-bypass-helper.exe");
    }
    let dir = match program_files {
        Some(p) => join_windows(p, "DPI-Bypass"),
        None => join_windows("C:\\Program Files", "DPI-Bypass"),
    };
    join_windows(dir.as_str(), "dpi-bypass-helper.exe")
}

/// The helper binary: the one `DPI_HELPER` names, else the installed one
/// when it exists, else the one beside the front end when it exists, else
/// the installed one.
pub open spec fn helper_path_spec(
    env: Option<Seq<char>>,
    installed: Seq<char>,
    installed_exists: bool,
    beside: Option<Seq<char>>,
) -> Seq<char> {
    match env {
        Some(p) => p,
        None => if installed_exists {
            installed
        } else {
            match beside {
                Some(b) => b,
                None => installed,
            }
        },
    }
}

/// Locate the helper: `env` (the value of `DPI_HELPER`), the installed path
/// when `installed_exists`, the one beside the front end (`beside`, given
/// only when it exists), and the installed path as the last resort.
pub fn helper_path(env: Option<&str>, installed: &str, installed_exists: bool, beside: Option<&str>) -> (r: String)
    ensures
        r@ == helper_path_spec(
            opt_str_view(env),
            installed@,
            installed_exists,
            opt_str_view(beside),
        ),
{
    match env {
        Some(p) => p.to_owned(),
        None => if installed_exists {
            installed.to_owned()
        } else {
            match beside {
                Some(b) => b.to_owned(),
                None => installed.to_owned(),
            }
        },
    }
}

/// The default Discord domain set, offered to the user as a starting point.
pub fn discord_domains() -> (r: Vec<String>)
    ensures
        r.deep_view() == crate::engine::discord_domains_spec(),
{
    crate::engine::DomainSet::discord().domains
}

/// What the front end sends the helper's `solve` verb is what the helper
/// reads: the voice flag and the engine binary come back as they were, and
/// the domains come back as the comma-separated list cut and trimmed again.
pub proof fn solve_request_round_trip(
    domains: Seq<Seq<char>>,
    with_voice: bool,
    engine: Option<Seq<char>>,
)
    ensures
        request_spec(seq!["solve"@] + solve_args_spec(domains, with_voice, engine)) == Ok::<
            RequestView,
            CliErrorView,
        >(
            RequestView::Solve {
                domains: domain_list(join_spec(domains, ","@)),
                with_voice,
                engine,
            },
        ),
{
    reveal_strlit("solve");
    reveal_strlit("plan");
    reveal_strlit("apply");
    reveal_strlit("revert");
    reveal_strlit("--domains");
    reveal_strlit("--voice");
    reveal_strlit("--nfqws");
    reveal_strlit("domains");
    reveal_strlit("voice");
    reveal_strlit("nfqws");
    reveal_strlit("1");
    reveal_with_fuel(option_pairs, 4);
    reveal_with_fuel(lookup, 4);
    let j = join_spec(domains, ","@);
    let a = seq!["solve"@] + solve_args_spec(domains, with_voice, engine);
    assert("--domains"@.skip(2) =~= "domains"@);
    assert("--voice"@.skip(2) =~= "voice"@);
    assert("--nfqws"@.skip(2) =~= "nfqws"@);
    let ps = option_pairs(a, 1);
    match engine {
        Some(p) => {
            if with_voice {
                assert(a =~= seq!["solve"@, "--domains"@, j, "--voice"@, "1"@, "--nfqws"@, p]);
                assert(ps =~= seq![("domains"@, j), ("voice"@, "1"@), ("nfqws"@, p)]);
            } else {
                assert(a =~= seq!["solve"@, "--domains"@, j, "--nfqws"@, p]);
                assert(ps =~= seq![("domains"@, j), ("nfqws"@, p)]);
            }
        },
        None => {
            if with_voice {
                assert(a =~= seq!["solve"@, "--domains"@, j, "--voice"@, "1"@]);
                assert(ps =~= seq![("domains"@, j), ("voice"@, "1"@)]);
            } else {
                assert(a =~= seq!["solve"@, "--domains"@, j]);
                assert(ps =~= seq![("domains"@, j)]);
            }
        },
    }
    assert(verb_of(a) == "solve"@);
    assert("solve"@[0] != "apply"@[0]);
    assert(lookup(ps, "domains"@) == Some(j));
    assert("nfqws"@[0] != "voice"@[0]);
    assert((lookup(ps, "voice"@) is Some) == with_voice);
    assert(lookup(ps, "nfqws"@) == engine);
}

/// What the front end sends the helper's `apply` and `enable-service` verbs
/// is what the helper reads: the strategy's JSON text comes back as it was,
/// and the domains come back as the comma-separated list cut and trimmed
/// again.
pub proof fn strategy_request_round_trip(strategy_json: Seq<char>, domains: Seq<Seq<char>>)
    ensures
        request_spec(seq!["apply"@] + strategy_args_spec(strategy_json, domains)) == Ok::<
            RequestView,
            CliErrorView,
        >(
            RequestView::Apply {
                args: StrategyArgsView {
                    strategy_json,
                    domains: domain_list(join_spec(domains, ","@)),
                },
                engine: None,
            },
        ),
        request_spec(seq!["enable-service"@] + strategy_args_spec(strategy_json, domains)) == Ok::<
            RequestView,
            CliErrorView,
        >(
            RequestView::EnableService {
                profile: Some(
                    StrategyArgsView {
                        strategy_json,
                        domains: domain_list(join_spec(domains, ","@)),
                    },
                ),
                engine: None,
            },
        ),
{
    reveal_strlit("plan");
    reveal_strlit("apply");
    reveal_strlit("revert");
    reveal_strlit("solve");
    reveal_strlit("status");
    reveal_strlit("daemon");
    reveal_strlit("enable-service");
    reveal_strlit("--strategy");
    reveal_strlit("--domains");
    reveal_strlit("strategy");
    reveal_strlit("domains");
    reveal_strlit("nfqws");
    reveal_with_fuel(option_pairs, 3);
    reveal_with_fuel(lookup, 3);
    let j = join_spec(domains, ","@);
    assert("--strategy"@.skip(2) =~= "strategy"@);
    assert("--domains"@.skip(2) =~= "domains"@);
    let tail = strategy_args_spec(strategy_json, domains);
    let a = seq!["apply"@] + tail;
    let b = seq!["enable-service"@] + tail;
    assert(a =~= seq!["apply"@, "--strategy"@, strategy_json, "--domains"@, j]);
    assert(b =~= seq!["enable-service"@, "--strategy"@, strategy_json, "--domains"@, j]);
    let pairs = seq![("strategy"@, strategy_json), ("domains"@, j)];
    assert(option_pairs(a, 1) =~= pairs);
    assert(option_pairs(b, 1) =~= pairs);
    assert(verb_of(a) == "apply"@);
    assert(verb_of(b) == "enable-service"@);
}

/// Comma-free domains without surrounding whitespace, at least one, survive
/// being joined with commas and cut and trimmed again.
pub proof fn domain_list_round_trip(domains: Seq<Seq<char>>)
    requires
        domains.len() > 0,
        forall|i: int|
            0 <= i < domains.len() ==> !(#[trigger] domains[i]).contains(',') && trim_spec(
                domains[i],
            ) == domains[i],
    ensures
        domain_list(join_spec(domains, ","@)) == domains,
{
    reveal_strlit(",");
    assert(","@ =~= seq![',']);
    crate::text::lemma_split_join(domains, ',');
    assert(domain_list(join_spec(domains, ","@)) =~= domains);
}

} // verus!
