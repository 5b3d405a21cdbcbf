use dpi_core::strategy::{candidate_strategies, Strategy, TcpStrategy, UdpStrategy};

#[test]
fn default_strategy_renders_tcp_args() {
    let s = Strategy {
        tcp: TcpStrategy::default(),
        udp_quic: None,
    };
    let args = s.to_nfqws_args();
    assert!(args.iter().any(|a| a == "--filter-tcp=443"));
    assert!(args.iter().any(|a| a == "--dpi-desync=fake,split2"));
    assert!(args.iter().any(|a| a == "--dpi-desync-split-pos=midsld"));
    assert!(!args.iter().any(|a| a == "--new"));
}

#[test]
fn voice_strategy_adds_udp_profile() {
    let s = Strategy {
        tcp: TcpStrategy::default(),
        udp_quic: Some(UdpStrategy::default()),
    };
    let args = s.to_nfqws_args();
    assert!(args.iter().any(|a| a == "--new"));
    assert!(args.iter().any(|a| a == "--filter-udp=443"));
}

#[test]
fn candidates_nonempty_and_all_have_voice() {
    let c = candidate_strategies();
    assert!(!c.is_empty());
    assert!(c.iter().all(|s| s.udp_quic.is_some()));
}

#[test]
fn default_strategy_renders_exact_nfqws_args() {
    let s = Strategy {
        tcp: TcpStrategy::default(),
        udp_quic: Some(UdpStrategy::default()),
    };
    assert_eq!(
        s.to_nfqws_args(),
        vec![
            "--filter-tcp=443",
            "--dpi-desync=fake,split2",
            "--dpi-desync-autottl=2",
            "--dpi-desync-fooling=md5sig",
            "--dpi-desync-split-pos=midsld",
            "--new",
            "--filter-udp=443",
            "--dpi-desync=fake",
            "--dpi-desync-autottl=2",
            "--dpi-desync-repeats=2",
        ]
    );
}

#[test]
fn fixed_ttl_and_repeats_are_rendered() {
    let s = Strategy {
        tcp: TcpStrategy {
            desync: "fakeddisorder".into(),
            split_pos: String::new(),
            ttl: 4,
            fooling: "none".into(),
            repeats: 3,
        },
        udp_quic: None,
    };
    assert_eq!(
        s.to_nfqws_args(),
        vec![
            "--filter-tcp=443",
            "--dpi-desync=fakeddisorder",
            "--dpi-desync-ttl=4",
            "--dpi-desync-repeats=3",
        ]
    );
}

#[test]
fn goodbyedpi_flags_follow_split_position() {
    let mut s = Strategy {
        tcp: TcpStrategy::default(),
        udp_quic: None,
    };
    assert_eq!(s.to_goodbyedpi_args(), vec!["-5"]);
    s.tcp.split_pos = "sni".into();
    assert_eq!(s.to_goodbyedpi_args(), vec!["-5", "--frag-by-sni"]);
    s.tcp.split_pos = "host".into();
    assert_eq!(s.to_goodbyedpi_args(), vec!["-5", "--frag-by-sni"]);
}

#[test]
fn candidates_run_from_gentle_to_aggressive() {
    let c = candidate_strategies();
    assert_eq!(c.len(), 4);
    assert_eq!(c[0].tcp.desync, "split2");
    assert_eq!(c[1].tcp, TcpStrategy::default());
    assert_eq!(c[2].tcp.desync, "fakeddisorder");
    assert_eq!(c[3].tcp.desync, "fake,multisplit");
}
