use dpi_core::engine_linux::{
    disable_service, enable_service, hostlist_contents, hostlist_path, launch, nfqws_argv,
    nfqws_path, nft_ruleset, parse_pid, pidfile, plan, service_status, LinuxEngine,
};
use dpi_core::strategy::{Strategy, TcpStrategy, UdpStrategy};

#[test]
fn ruleset_has_queue_and_bypass() {
    let r = nft_ruleset();
    assert!(r.contains("queue num 200 bypass"));
    assert!(r.contains("tcp dport 443"));
    assert!(r.contains("udp dport 443"));
}

#[test]
fn argv_contains_qnum_and_hostlist() {
    let s = Strategy {
        tcp: TcpStrategy::default(),
        udp_quic: Some(UdpStrategy::default()),
    };
    let argv = nfqws_argv("/usr/lib/dpi-bypass/nfqws", &s, "/tmp/hl.txt");
    assert_eq!(argv[0], "/usr/lib/dpi-bypass/nfqws");
    assert!(argv.iter().any(|a| a == "--qnum=200"));
    assert!(argv.iter().any(|a| a == "--hostlist=/tmp/hl.txt"));
    assert!(argv.iter().any(|a| a == "--filter-tcp=443"));
}

#[test]
fn hostlist_strips_wildcards_and_dedups() {
    let hl = hostlist_contents(&vec![
        "*.discord.com".into(),
        "discord.com".into(),
        "Discord.GG".into(),
    ]);
    let lines: Vec<&str> = hl.lines().collect();
    assert!(lines.contains(&"discord.com"));
    assert!(lines.contains(&"discord.gg"));
    assert_eq!(lines.iter().filter(|l| **l == "discord.com").count(), 1);
}

#[test]
fn ruleset_text_is_exact() {
    assert_eq!(
        nft_ruleset(),
        "table inet dpi_bypass {\n\tchain output {\n\t\ttype filter hook output priority mangle; policy accept;\n\t\tmeta l4proto tcp tcp dport 443 queue num 200 bypass\n\t\tmeta l4proto udp udp dport 443 queue num 200 bypass\n\t}\n}\n"
    );
}

#[test]
fn hostlist_is_sorted_lowercase_and_skips_blanks() {
    let hl = hostlist_contents(&vec![
        "  Zeta.example ".into(),
        "*.*.alpha.example".into(),
        "   ".into(),
        "*.".into(),
        "alpha.example".into(),
    ]);
    assert_eq!(hl, "alpha.example\nzeta.example\n");
    assert_eq!(hostlist_contents(&vec![]), "\n");
}

#[test]
fn argv_is_binary_queue_hostlist_then_strategy() {
    let s = Strategy {
        tcp: TcpStrategy::default(),
        udp_quic: None,
    };
    let argv = nfqws_argv("nfqws", &s, "/run/h.txt");
    let mut expected = vec![
        "nfqws".to_string(),
        "--qnum=200".to_string(),
        "--hostlist=/run/h.txt".to_string(),
    ];
    expected.extend(s.to_nfqws_args());
    assert_eq!(argv, expected);
}

#[test]
fn nfqws_path_prefers_explicit_then_env() {
    assert_eq!(nfqws_path(Some("/opt/nfqws"), Some("/env/nfqws")), "/opt/nfqws");
    assert_eq!(nfqws_path(None, Some("/env/nfqws")), "/env/nfqws");
    assert_eq!(nfqws_path(None, None), "/usr/lib/dpi-bypass/nfqws");
}

#[test]
fn run_files_live_in_run_dir() {
    assert_eq!(pidfile(), "/run/dpi-bypass/nfqws.pid");
    assert_eq!(hostlist_path(), "/run/dpi-bypass/hostlist.txt");
}

#[test]
fn launch_and_plan_agree() {
    let s = Strategy {
        tcp: TcpStrategy::default(),
        udp_quic: None,
    };
    let domains = vec!["discord.com".to_string()];
    let l = launch(&s, &domains, None, None);
    assert_eq!(l.nfqws, "/usr/lib/dpi-bypass/nfqws");
    assert_eq!(l.hostlist, "discord.com\n");
    assert_eq!(l.argv[0], "/usr/lib/dpi-bypass/nfqws");
    let p = plan(&s, &domains, None, None);
    assert!(p.starts_with("# nftables ruleset:\ntable inet dpi_bypass {"));
    assert!(p.contains("# hostlist (/run/dpi-bypass/hostlist.txt):\ndiscord.com\n"));
    assert!(p.ends_with(&format!("# nfqws command:\n{}\n", l.argv.join(" "))));
}

#[test]
fn pid_file_contents_are_read() {
    assert_eq!(parse_pid(" 4242\n"), Some(4242));
    assert_eq!(parse_pid("-7"), Some(-7));
    assert_eq!(parse_pid("x1"), None);
    assert_eq!(parse_pid(""), None);
}

#[test]
fn service_commands() {
    assert_eq!(enable_service(), vec!["enable", "--now", "dpi-bypass.service"]);
    assert_eq!(disable_service(), vec!["disable", "--now", "dpi-bypass.service"]);
    let (e, a) = service_status();
    assert_eq!(e, vec!["is-enabled", "--quiet", "dpi-bypass.service"]);
    assert_eq!(a, vec!["is-active", "--quiet", "dpi-bypass.service"]);
    let eng = LinuxEngine::new(Some("/x/nfqws".into()));
    assert_eq!(eng.nfqws.as_deref(), Some("/x/nfqws"));
}
