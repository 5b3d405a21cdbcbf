//! The Windows engine: WinDivert + GoodbyeDPI.
//!
//! GoodbyeDPI drives the WinDivert driver itself, so the engine's work is a
//! domain blacklist, the GoodbyeDPI command line, its process id and the
//! scheduled task that keeps it on. Because GoodbyeDPI makes no persistent
//! firewall change, a crash lets traffic flow normally: that is the
//! kill-switch. Here is everything the engine decides; running the commands
//! and writing the files is left to the privileged helper.
use vstd::prelude::*;
use crate::engine_linux::{all_plain_ascii, host_entries, host_list, list_file, list_file_crlf};
use crate::network::opt_str_view;
use crate::paths::{join_windows, win_join};
use crate::strategy::{Strategy, goodbyedpi_args};
use crate::text::{
    contains_str,
    crlf,
    dec,
    has_substring,
    join,
    join_spec,
    parse_u32,
    parse_u32_spec,
    push_decimal,
    trim,
    trim_spec,
};

pub use crate::engine_linux::ActiveProfile;

verus! {

/// `%ProgramData%`, or its usual place when the variable is not set.
pub open spec fn program_data_spec(env: Option<Seq<char>>) -> Seq<char> {
    match env {
        Some(p) => p,
        None => "C:\\ProgramData"@,
    }
}

/// `%ProgramData%\DPI-Bypass`: writable only by administrators, kept across
/// reboots.
pub open spec fn data_dir_spec(env: Option<Seq<char>>) -> Seq<char> {
    win_join(program_data_spec(env), "DPI-Bypass"@)
}

/// The directory that holds the run-time files.
pub open spec fn run_dir_spec(env: Option<Seq<char>>) -> Seq<char> {
    win_join(data_dir_spec(env), "run"@)
}

/// `%ProgramData%\DPI-Bypass`, given the value of `ProgramData` if it is
/// set.
pub fn data_dir(program_data: Option<&str>) -> (r: String)
    ensures
        r@ == data_dir_spec(opt_str_view(program_data)),
{
    proof {
        reveal_strlit("DPI-Bypass");
    }
    match program_data {
        Some(p) => join_windows(p, "DPI-Bypass"),
        None => join_windows("C:\\ProgramData", "DPI-Bypass"),
    }
}

/// The directory that holds the run-time files.
pub fn run_dir(program_data: Option<&str>) -> (r: String)
    ensures
        r@ == run_dir_spec(opt_str_view(program_data)),
{
    proof {
        reveal_strlit("run");
    }
    join_windows(data_dir(program_data).as_str(), "run")
}

/// Where the running GoodbyeDPI records its process id.
pub fn pidfile(program_data: Option<&str>) -> (r: String)
    ensures
        r@ == win_join(run_dir_spec(opt_str_view(program_data)), "goodbyedpi.pid"@),
{
    proof {
        reveal_strlit("goodbyedpi.pid");
    }
    join_windows(run_dir(program_data).as_str(), "goodbyedpi.pid")
}

/// Where the domain blacklist is written.
pub open spec fn blacklist_path_spec(env: Option<Seq<char>>) -> Seq<char> {
    win_join(run_dir_spec(env), "blacklist.txt"@)
}

/// Where the domain blacklist is written.
pub fn blacklist_path(program_data: Option<&str>) -> (r: String)
    ensures
        r@ == blacklist_path_spec(opt_str_view(program_data)),
{
    proof {
        reveal_strlit("blacklist.txt");
    }
    join_windows(run_dir(program_data).as_str(), "blacklist.txt")
}

/// Where the profile of the always-on task is kept.
pub fn active_profile_path(program_data: Option<&str>) -> (r: String)
    ensures
        r@ == win_join(data_dir_spec(opt_str_view(program_data)), "active-profile.json"@),
{
    proof {
        reveal_strlit("active-profile.json");
    }
    join_windows(data_dir(program_data).as_str(), "active-profile.json")
}

/// The GoodbyeDPI executable's file name.
pub open spec fn default_exe() -> Seq<char> {
    "goodbyedpi.exe"@
}

/// The GoodbyeDPI that sits in the directory `dir`.
pub fn exe_in(dir: &str) -> (r: String)
    ensures
        r@ == win_join(dir@, default_exe()),
{
    proof {
        reveal_strlit("goodbyedpi.exe");
    }
    join_windows(dir, "goodbyedpi.exe")
}

/// The installed GoodbyeDPI under `%ProgramFiles%` (or its usual place).
pub open spec fn installed_exe(program_files: Option<Seq<char>>) -> Seq<char> {
    let base = match program_files {
        Some(p) => p,
        None => "C:\\Program Files"@,
    };
    win_join(win_join(base, "DPI-Bypass"@), default_exe())
}

/// The GoodbyeDPI binary: the one named explicitly, else the one
/// `DPI_GOODBYEDPI` names, else the one beside the helper when it exists,
/// else the installed one.
pub open spec fn engine_path_spec(
    explicit: Option<Seq<char>>,
    env: Option<Seq<char>>,
    beside: Option<Seq<char>>,
    program_files: Option<Seq<char>>,
) -> Seq<char> {
    match explicit {
        Some(p) => p,
        None => match env {
            Some(e) => e,
            None => match beside {
                Some(b) => b,
                None => installed_exe(program_files),
            },
        },
    }
}

/// Resolve the GoodbyeDPI binary: `explicit`, then `env` (the value of
/// `DPI_GOODBYEDPI`), then `beside` (the binary next to the helper, given
/// only when it exists), then the installed one under `program_files` (the
/// value of `ProgramFiles`). GoodbyeDPI needs its WinDivert files in its own
/// directory, which the installer guarantees.
pub fn engine_path(
    explicit: Option<&str>,
    env: Option<&str>,
    beside: Option<&str>,
    program_files: Option<&str>,
) -> (r: String)
    ensures
        r@ == engine_path_spec(
            opt_str_view(explicit),
            opt_str_view(env),
            opt_str_view(beside),
            opt_str_view(program_files),
        ),
{
    if let Some(p) = explicit {
        return p.to_owned();
    }
    if let Some(e) = env {
        return e.to_owned();
    }
    if let Some(b) = beside {
        return b.to_owned();
    }
    proof {
        reveal_strlit("DPI-Bypass");
    }
    let dir = match program_files {
        Some(p) => join_windows(p, "DPI-Bypass"),
        None => join_windows("C:\\Program Files", "DPI-Bypass"),
    };
    exe_in(dir.as_str())
}

/// The GoodbyeDPI blacklist for `domains`: the same entries as the `nfqws`
/// host list, one per line, with Windows line ends. For plain ASCII domains
/// it is the host list with every `\n` written as `\r\n`.
pub fn blacklist_contents(domains: &Vec<String>) -> (r: String)
    ensures
        r@ == list_file(host_list(domains.deep_view()), "\r\n"@),
        all_plain_ascii(domains.deep_view()) ==> r@ == crlf(
            list_file(host_list(domains.deep_view()), "\n"@),
        ),
        crate::engine_linux::ascii_hosts_known(domains.deep_view()),
{
    let entries = host_entries(domains);
    let mut out = join(&entries, "\r\n");
    out.append("\r\n");
    assert(out@ == list_file(entries.deep_view(), "\r\n"@));
    proof {
        if all_plain_ascii(domains.deep_view()) {
            list_file_crlf(entries.deep_view());
        }
    }
    out
}

/// The GoodbyeDPI command line: the binary, the strategy's flags and, when
/// there are domains, the blacklist; no domains means system-wide.
pub open spec fn goodbyedpi_argv_spec(
    exe: Seq<char>,
    strategy: crate::strategy::StrategyView,
    blacklist: Seq<char>,
    n_domains: nat,
) -> Seq<Seq<char>> {
    seq![exe] + goodbyedpi_args(strategy) + if n_domains > 0 {
        seq!["--blacklist"@, blacklist]
    } else {
        Seq::empty()
    }
}

/// Build the GoodbyeDPI argument vector: strategy flags and the domain
/// blacklist; an empty domain set means system-wide (no `--blacklist`).
pub fn goodbyedpi_argv(exe: &str, strategy: &Strategy, blacklist: &str, domains: &Vec<String>) -> (r: Vec<String>)
    ensures
        r.deep_view() == goodbyedpi_argv_spec(exe@, strategy@, blacklist@, domains@.len()),
{
    let mut argv: Vec<String> = Vec::new();
    argv.push(exe.to_owned());
    let flags = strategy.to_goodbyedpi_args();
    let ghost head = argv.deep_view();
    let n = flags.len();
    let mut i: usize = 0;
    while i < n
        invariant
            n == flags@.len(),
            0 <= i <= n,
            argv.deep_view() == head + flags.deep_view().take(i as int),
        decreases n - i,
    {
        let f = flags[i].clone();
        assert(f@ == flags.deep_view()[i as int]);
        let ghost before = argv.deep_view();
        argv.push(f);
        assert(argv.deep_view() =~= before.push(f@));
        assert(flags.deep_view().take(i + 1) =~= flags.deep_view().take(i as int).push(f@));
        i = i + 1;
    }
    assert(flags.deep_view().take(n as int) =~= flags.deep_view());
    let ghost mid = argv.deep_view();
    if domains.len() > 0 {
        argv.push("--blacklist".to_owned());
        argv.push(blacklist.to_owned());
        assert(argv.deep_view() =~= mid + seq!["--blacklist"@, blacklist@]);
    } else {
        assert(mid + Seq::<Seq<char>>::empty() =~= mid);
    }
    assert(argv.deep_view() =~= goodbyedpi_argv_spec(exe@, strategy@, blacklist@, domains@.len()));
    argv
}

/// The report of a dry run: the blacklist with its path, and the command
/// line with its words separated by spaces.
pub open spec fn plan_text(bl_path: Seq<char>, bl: Seq<char>, argv: Seq<Seq<char>>) -> Seq<char> {
    "# blacklist ("@ + bl_path + "):\n"@ + bl + "\n# goodbyedpi command:\n"@ + join_spec(argv, " "@)
        + "\n"@
}

/// What `apply` would do, without doing it, for the resolved binary `exe`
/// (see [`engine_path`]) and the value of `ProgramData`: the blacklist for
/// `domains` at its path, and the command line.
pub fn plan(strategy: &Strategy, domains: &Vec<String>, exe: &str, program_data: Option<&str>) -> (r: String)
    ensures
        r@ == plan_text(
                blacklist_path_spec(opt_str_view(program_data)),
                list_file(host_list(domains.deep_view()), "\r\n"@),
                goodbyedpi_argv_spec(
                    exe@,
                    strategy@,
                    blacklist_path_spec(opt_str_view(program_data)),
                    domains@.len(),
                ),
            ),
{
    let bl = blacklist_path(program_data);
    let argv = goodbyedpi_argv(exe, strategy, bl.as_str(), domains);
    let contents = blacklist_contents(domains);
    let mut out = "# blacklist (".to_owned();
    out.append(bl.as_str());
    out.append("):\n");
    out.append(contents.as_str());
    out.append("\n# goodbyedpi command:\n");
    let cmd = join(&argv, " ");
    out.append(cmd.as_str());
    out.append("\n");
    assert(out@ =~= plan_text(bl@, contents@, argv.deep_view()));
    out
}

/// The process id recorded in a pid file's contents (surrounding
/// whitespace ignored), if it is a number.
pub fn parse_pid(contents: &str) -> (r: Option<u32>)
    ensures
        r == parse_u32_spec(trim_spec(contents@)),
{
    parse_u32(trim(contents))
}

/// The `taskkill` arguments that end the process `pid` and its children.
pub fn taskkill_args(pid: u32) -> (r: Vec<String>)
    ensures
        r.deep_view() == seq!["/PID"@, dec(pid as nat), "/T"@, "/F"@],
{
    let mut v: Vec<String> = Vec::new();
    v.push("/PID".to_owned());
    let mut p = String::new();
    push_decimal(&mut p, pid as u64);
    v.push(p);
    v.push("/T".to_owned());
    v.push("/F".to_owned());
    assert(v.deep_view() =~= seq!["/PID"@, dec(pid as nat), "/T"@, "/F"@]);
    v
}

/// The `tasklist` arguments that list the process `pid` without a header.
pub fn tasklist_args(pid: u32) -> (r: Vec<String>)
    ensures
        r.deep_view() == seq!["/FI"@, "PID eq "@ + dec(pid as nat), "/NH"@],
{
    let mut v: Vec<String> = Vec::new();
    v.push("/FI".to_owned());
    let mut f = "PID eq ".to_owned();
    push_decimal(&mut f, pid as u64);
    v.push(f);
    v.push("/NH".to_owned());
    assert(v.deep_view() =~= seq!["/FI"@, "PID eq "@ + dec(pid as nat), "/NH"@]);
    v
}

/// Whether the output of `tasklist` for `pid` shows that process: its
/// number appears in it.
pub fn pid_listed(pid: u32, tasklist_out: &str) -> (r: bool)
    ensures
        r == has_substring(tasklist_out@, dec(pid as nat)),
{
    let mut p = String::new();
    push_decimal(&mut p, pid as u64);
    contains_str(tasklist_out, p.as_str())
}

/// The name of the always-on scheduled task.
pub open spec fn task_name() -> Seq<char> {
    "DPI-Bypass"@
}

/// The `schtasks` arguments that create the always-on task: run the helper
/// `exe` with the `daemon` verb at every logon, with the highest privileges,
/// replacing any task of the same name.
pub fn create_task_args(exe: &str) -> (r: Vec<String>)
    ensures
        r.deep_view() == seq![
            "/Create"@,
            "/TN"@,
            task_name(),
            "/TR"@,
            "\""@ + exe@ + "\" daemon"@,
            "/SC"@,
            "ONLOGON"@,
            "/RL"@,
            "HIGHEST"@,
            "/F"@,
        ],
{
    let mut v: Vec<String> = Vec::new();
    v.push("/Create".to_owned());
    v.push("/TN".to_owned());
    v.push("DPI-Bypass".to_owned());
    v.push("/TR".to_owned());
    let mut cmd = "\"".to_owned();
    cmd.append(exe);
    cmd.append("\" daemon");
    v.push(cmd);
    v.push("/SC".to_owned());
    v.push("ONLOGON".to_owned());
    v.push("/RL".to_owned());
    v.push("HIGHEST".to_owned());
    v.push("/F".to_owned());
    assert(v.deep_view() =~= seq![
        "/Create"@,
        "/TN"@,
        task_name(),
        "/TR"@,
        "\""@ + exe@ + "\" daemon"@,
        "/SC"@,
        "ONLOGON"@,
        "/RL"@,
        "HIGHEST"@,
        "/F"@,
    ]);
    v
}

/// Whether the always-on task exists and whether it runs, from whether
/// `schtasks /Query` succeeded and what it printed (`Running` while the
/// daemon is up).
pub fn task_state(query_ok: bool, query_out: &str) -> (r: (bool, bool))
    ensures
        r == (if query_ok {
            (true, has_substring(query_out@, "Running"@))
        } else {
            (false, false)
        }),
{
    if query_ok {
        (true, contains_str(query_out, "Running"))
    } else {
        (false, false)
    }
}

/// The engine the solver drives on Windows, with the GoodbyeDPI binary it
/// was told to use, if any.
pub struct WindowsEngine {
    pub engine: Option<String>,
}

impl WindowsEngine {
    /// An engine that runs GoodbyeDPI (or the default binary when `None`).
    pub fn new(engine: Option<String>) -> (r: Self)
        ensures
            r.engine == engine,
    {
        WindowsEngine { engine }
    }
}

/// The command line names a blacklist exactly when there are domains; with
/// none, GoodbyeDPI works system-wide.
pub proof fn blacklist_iff_domains(
    exe: Seq<char>,
    strategy: crate::strategy::StrategyView,
    blacklist: Seq<char>,
    n_domains: nat,
)
    ensures
        goodbyedpi_argv_spec(exe, strategy, blacklist, n_domains).skip(1).contains(
            "--blacklist"@,
        ) <==> n_domains > 0,
{
    reveal_strlit("--blacklist");
    reveal_strlit("-5");
    reveal_strlit("--frag-by-sni");
    let a = goodbyedpi_argv_spec(exe, strategy, blacklist, n_domains);
    let g = goodbyedpi_args(strategy);
    let flag = "--blacklist"@;
    assert(!g.contains(flag)) by {
        assert forall|k: int| 0 <= k < g.len() implies g[k] != flag by {
            assert(g[k].len() != flag.len());
        }
    }
    let args = a.skip(1);
    if n_domains > 0 {
        assert(args[g.len() as int] == flag);
    } else {
        assert(args =~= g);
    }
}

} // verus!
