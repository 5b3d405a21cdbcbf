use dpi_core::engine_windows::{
    active_profile_path, blacklist_contents, blacklist_path, create_task_args, data_dir,
    engine_path, exe_in, goodbyedpi_argv, parse_pid, pid_listed, pidfile, plan,
    task_state, taskkill_args, tasklist_args, WindowsEngine,
};
use dpi_core::strategy::{Strategy, TcpStrategy, UdpStrategy};

#[test]
fn argv_has_blacklist_when_domains_present() {
    let s = Strategy {
        tcp: TcpStrategy::default(),
        udp_quic: Some(UdpStrategy::default()),
    };
    let argv = goodbyedpi_argv("goodbyedpi.exe", &s, r"C:\tmp\bl.txt", &vec!["discord.com".into()]);
    assert_eq!(argv[0], "goodbyedpi.exe");
    assert!(argv.iter().any(|a| a == "--blacklist"));
}

#[test]
fn argv_systemwide_has_no_blacklist() {
    let s = Strategy {
        tcp: TcpStrategy::default(),
        udp_quic: None,
    };
    let argv = goodbyedpi_argv("goodbyedpi.exe", &s, r"C:\tmp\bl.txt", &vec![]);
    assert!(!argv.iter().any(|a| a == "--blacklist"));
}

#[test]
fn blacklist_strips_wildcards_and_dedups() {
    let bl = blacklist_contents(&vec![
        "*.discord.com".into(),
        "discord.com".into(),
        "Discord.GG".into(),
    ]);
    let lines: Vec<&str> = bl.lines().collect();
    assert!(lines.contains(&"discord.com"));
    assert!(lines.contains(&"discord.gg"));
    assert_eq!(lines.iter().filter(|l| **l == "discord.com").count(), 1);
}

#[test]
fn blacklist_uses_windows_line_ends() {
    let bl = blacklist_contents(&vec!["b.example".into(), "A.example".into()]);
    assert_eq!(bl, "a.example\r\nb.example\r\n");
}

#[test]
fn argv_is_exact() {
    let mut s = Strategy {
        tcp: TcpStrategy::default(),
        udp_quic: None,
    };
    s.tcp.split_pos = "sni".into();
    let argv = goodbyedpi_argv("gd.exe", &s, r"C:\bl.txt", &vec!["x.example".into()]);
    assert_eq!(argv, vec!["gd.exe", "-5", "--frag-by-sni", "--blacklist", r"C:\bl.txt"]);
}

#[test]
fn data_paths_follow_program_data() {
    assert_eq!(data_dir(None), r"C:\ProgramData\DPI-Bypass");
    assert_eq!(data_dir(Some(r"D:\Data\")), r"D:\Data\DPI-Bypass");
    assert_eq!(data_dir(Some("D:")), r"D:DPI-Bypass");
    assert_eq!(pidfile(None), r"C:\ProgramData\DPI-Bypass\run\goodbyedpi.pid");
    assert_eq!(blacklist_path(None), r"C:\ProgramData\DPI-Bypass\run\blacklist.txt");
    assert_eq!(
        active_profile_path(Some(r"E:\PD")),
        r"E:\PD\DPI-Bypass\active-profile.json"
    );
}

#[test]
fn engine_path_resolution_order() {
    assert_eq!(engine_path(Some("a.exe"), Some("b.exe"), Some("c.exe"), None), "a.exe");
    assert_eq!(engine_path(None, Some("b.exe"), Some("c.exe"), None), "b.exe");
    assert_eq!(engine_path(None, None, Some("c.exe"), None), "c.exe");
    assert_eq!(
        engine_path(None, None, None, None),
        r"C:\Program Files\DPI-Bypass\goodbyedpi.exe"
    );
    assert_eq!(
        engine_path(None, None, None, Some(r"D:\Apps")),
        r"D:\Apps\DPI-Bypass\goodbyedpi.exe"
    );
    assert_eq!(exe_in(r"C:\h"), r"C:\h\goodbyedpi.exe");
}

#[test]
fn plan_reports_blacklist_and_command() {
    let s = Strategy {
        tcp: TcpStrategy::default(),
        udp_quic: None,
    };
    let p = plan(&s, &vec!["discord.com".into()], "gd.exe", None);
    assert_eq!(
        p,
        "# blacklist (C:\\ProgramData\\DPI-Bypass\\run\\blacklist.txt):\ndiscord.com\r\n\n# goodbyedpi command:\ngd.exe -5 --blacklist C:\\ProgramData\\DPI-Bypass\\run\\blacklist.txt\n"
    );
}

#[test]
fn task_and_process_helpers() {
    assert_eq!(parse_pid(" 88 \r\n"), Some(88));
    assert_eq!(parse_pid("-1"), None);
    assert_eq!(taskkill_args(88), vec!["/PID", "88", "/T", "/F"]);
    assert_eq!(tasklist_args(88), vec!["/FI", "PID eq 88", "/NH"]);
    assert!(pid_listed(88, "goodbyedpi.exe   88 Console  1  9,000 K"));
    assert!(!pid_listed(88, "INFO: No tasks are running"));
    assert_eq!(
        create_task_args(r"C:\h\helper.exe"),
        vec![
            "/Create",
            "/TN",
            "DPI-Bypass",
            "/TR",
            "\"C:\\h\\helper.exe\" daemon",
            "/SC",
            "ONLOGON",
            "/RL",
            "HIGHEST",
            "/F"
        ]
    );
    assert_eq!(task_state(true, "DPI-Bypass  N/A  Running"), (true, true));
    assert_eq!(task_state(true, "DPI-Bypass  N/A  Ready"), (true, false));
    assert_eq!(task_state(false, "Running"), (false, false));
    let eng = WindowsEngine::new(None);
    assert!(eng.engine.is_none());
}

#[test]
fn blacklist_is_hostlist_with_crlf_line_ends() {
    let domains: Vec<String> = vec!["*.Discord.com".into(), " discord.gg ".into(), "b.example".into()];
    let hl = dpi_core::engine_linux::hostlist_contents(&domains);
    assert_eq!(blacklist_contents(&domains), hl.replace("\n", "\r\n"));
}
