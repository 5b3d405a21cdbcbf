use dpi_core::network::{
    build_client_hello, build_quic_probe, check_domain, current_fingerprint, inet_cidr,
    link_type, neigh_lladdr, route_gateway_and_iface, subnet_prefix_in_range, text_verdict,
    to_subnet, voice_verdict, DomainCheck, NetworkFingerprint, ProbeErrorKind, Reachability,
    ReadOutcome, TextProbe, VoiceProbe,
};

#[test]
fn client_hello_is_well_formed() {
    let h = build_client_hello("discord.com");
    assert_eq!(h[0], 0x16);
    assert_eq!(h[5], 0x01);
    let needle = b"discord.com";
    assert!(h.windows(needle.len()).any(|w| w == needle));
}

#[test]
fn subnet_math() {
    assert_eq!(to_subnet("192.168.1.34/24"), "192.168.1.0/24");
    assert_eq!(to_subnet("10.5.6.7/8"), "10.0.0.0/8");
    assert_eq!(to_subnet("172.16.5.9/16"), "172.16.0.0/16");
}

#[test]
fn fingerprint_matches_on_mac() {
    let a = NetworkFingerprint {
        gateway_mac: Some("AA:BB:CC:DD:EE:FF".into()),
        ..Default::default()
    };
    let b = NetworkFingerprint {
        gateway_mac: Some("aa:bb:cc:dd:ee:ff".into()),
        subnet: Some("10.0.0.0/24".into()),
        ..Default::default()
    };
    assert!(a.matches(&b));
}

#[test]
fn client_hello_lengths_are_consistent() {
    let h = build_client_hello("discord.com");
    let record_len = ((h[3] as usize) << 8) | h[4] as usize;
    assert_eq!(record_len, h.len() - 5);
    let hs_len = ((h[6] as usize) << 16) | ((h[7] as usize) << 8) | h[8] as usize;
    assert_eq!(hs_len, h.len() - 9);
    // the host name starts right after the fixed part of the hello
    assert_eq!(&h[61..61 + 11], b"discord.com");
    assert_eq!(h.len(), 61 + 11);
}

#[test]
fn quic_probe_is_padded_long_header() {
    let p = build_quic_probe();
    assert_eq!(p.len(), 64);
    assert_eq!(p[0], 0xC0);
    assert_eq!(&p[1..5], &[0, 0, 0, 1]);
    assert_eq!(p[5], 8);
    assert!(p[6..14].iter().all(|b| *b == 0xAB));
    assert_eq!(p[14], 0);
    assert!(p[15..].iter().all(|b| *b == 0));
}

#[test]
fn subnet_edge_cases() {
    assert_eq!(to_subnet("192.168.1.34/32"), "192.168.1.34/32");
    assert_eq!(to_subnet("192.168.1.34/0"), "0.0.0.0/0");
    // a prefix that does not parse counts as 24
    assert_eq!(to_subnet("192.168.1.34/xx"), "192.168.1.0/24");
    // no slash, or not four numbers: unchanged
    assert_eq!(to_subnet("192.168.1.34"), "192.168.1.34");
    assert_eq!(to_subnet("1.2.3/8"), "1.2.3/8");
    assert!(subnet_prefix_in_range("10.0.0.1/32"));
    assert!(!subnet_prefix_in_range("10.0.0.1/40"));
    assert!(subnet_prefix_in_range("1.2/40"));
}

#[test]
fn verdicts_classify_probe_outcomes() {
    assert_eq!(text_verdict(TextProbe::Unresolved), Reachability::DnsBlocked);
    assert_eq!(
        text_verdict(TextProbe::ConnectFailed(ProbeErrorKind::TimedOut)),
        Reachability::Timeout
    );
    assert_eq!(
        text_verdict(TextProbe::ConnectFailed(ProbeErrorKind::Other)),
        Reachability::TcpBlocked
    );
    assert_eq!(text_verdict(TextProbe::WriteFailed), Reachability::TlsReset);
    assert_eq!(
        text_verdict(TextProbe::Replied(ReadOutcome::Closed)),
        Reachability::TlsReset
    );
    assert_eq!(
        text_verdict(TextProbe::Replied(ReadOutcome::Data(0x16))),
        Reachability::Reachable
    );
    assert_eq!(
        text_verdict(TextProbe::Replied(ReadOutcome::Data(0x15))),
        Reachability::Reachable
    );
    assert_eq!(
        text_verdict(TextProbe::Replied(ReadOutcome::Data(0x48))),
        Reachability::TlsReset
    );
    assert_eq!(
        text_verdict(TextProbe::Replied(ReadOutcome::Failed(ProbeErrorKind::ConnectionReset))),
        Reachability::TlsReset
    );
    assert_eq!(
        text_verdict(TextProbe::Replied(ReadOutcome::Failed(ProbeErrorKind::WouldBlock))),
        Reachability::Timeout
    );
    assert_eq!(voice_verdict(VoiceProbe::Unresolved), Reachability::DnsBlocked);
    assert_eq!(voice_verdict(VoiceProbe::SendFailed), Reachability::TcpBlocked);
    assert_eq!(voice_verdict(VoiceProbe::Received(12)), Reachability::Reachable);
    assert_eq!(voice_verdict(VoiceProbe::Received(0)), Reachability::Timeout);
    assert_eq!(voice_verdict(VoiceProbe::NoReply), Reachability::Timeout);
}

#[test]
fn fully_open_needs_text_and_probed_voice() {
    let text_only = DomainCheck { text: Reachability::Reachable, voice: None };
    assert!(text_only.is_fully_open());
    let voice_blocked = DomainCheck {
        text: Reachability::Reachable,
        voice: Some(Reachability::Timeout),
    };
    assert!(!voice_blocked.is_fully_open());
    let text_blocked = DomainCheck {
        text: Reachability::TlsReset,
        voice: Some(Reachability::Reachable),
    };
    assert!(!text_blocked.is_fully_open());
    assert!(Reachability::Reachable.is_open());
    assert!(!Reachability::DnsBlocked.is_open());
}

#[test]
fn check_domain_combines_verdicts() {
    let c = check_domain(
        TextProbe::Replied(ReadOutcome::Data(0x16)),
        Some(VoiceProbe::NoReply),
    );
    assert_eq!(c.text, Reachability::Reachable);
    assert_eq!(c.voice, Some(Reachability::Timeout));
    let c = check_domain(TextProbe::Unresolved, None);
    assert_eq!(c.text, Reachability::DnsBlocked);
    assert_eq!(c.voice, None);
}

#[test]
fn fingerprint_fallback_uses_subnet_and_iface() {
    let a = NetworkFingerprint {
        subnet: Some("10.0.0.0/24".into()),
        iface: Some("eth0".into()),
        ..Default::default()
    };
    let b = NetworkFingerprint {
        gateway_mac: Some("aa:bb:cc:dd:ee:ff".into()),
        subnet: Some("10.0.0.0/24".into()),
        iface: Some("eth0".into()),
        ..Default::default()
    };
    assert!(a.matches(&b));
    assert!(b.matches(&a));
    let c = NetworkFingerprint {
        subnet: Some("10.0.0.0/24".into()),
        iface: Some("wlan0".into()),
        ..Default::default()
    };
    assert!(!a.matches(&c));
    assert!(a.matches(&a));
    let d = NetworkFingerprint {
        gateway_mac: Some("11:22:33:44:55:66".into()),
        subnet: Some("10.0.0.0/24".into()),
        iface: Some("eth0".into()),
        ..Default::default()
    };
    assert!(!b.matches(&d));
}

#[test]
fn route_and_neighbour_output_is_read() {
    let (gw, iface) =
        route_gateway_and_iface("default via 192.168.1.1 dev wlp3s0 proto dhcp metric 600\n");
    assert_eq!(gw.as_deref(), Some("192.168.1.1"));
    assert_eq!(iface.as_deref(), Some("wlp3s0"));
    let (gw, iface) = route_gateway_and_iface("");
    assert_eq!(gw, None);
    assert_eq!(iface, None);
    assert_eq!(
        neigh_lladdr("192.168.1.1 dev wlp3s0 lladdr aa:bb:cc:dd:ee:ff REACHABLE\n").as_deref(),
        Some("aa:bb:cc:dd:ee:ff")
    );
    assert_eq!(neigh_lladdr("192.168.1.1 dev wlp3s0 lladdr"), None);
    assert_eq!(
        inet_cidr("2: wlp3s0    inet 192.168.1.34/24 brd 192.168.1.255 scope global\n")
            .as_deref(),
        Some("192.168.1.34/24")
    );
    assert_eq!(link_type(true, true), "wifi");
    assert_eq!(link_type(false, true), "ethernet");
    assert_eq!(link_type(false, false), "other");
}

#[test]
fn current_fingerprint_from_tool_output() {
    let fp = current_fingerprint(
        Some("default via 192.168.1.1 dev wlp3s0 proto dhcp\n"),
        Some("192.168.1.1 dev wlp3s0 lladdr AA:BB:CC:DD:EE:FF STALE\n"),
        true,
        true,
        Some("2: wlp3s0    inet 192.168.1.34/24 brd 192.168.1.255 scope global\n"),
    );
    assert_eq!(fp.gateway_mac.as_deref(), Some("AA:BB:CC:DD:EE:FF"));
    assert_eq!(fp.link_type.as_deref(), Some("wifi"));
    assert_eq!(fp.subnet.as_deref(), Some("192.168.1.0/24"));
    assert_eq!(fp.iface.as_deref(), Some("wlp3s0"));

    let none = current_fingerprint(None, None, false, false, None);
    assert_eq!(none, NetworkFingerprint::default());
}

#[test]
fn subnet_of_a_subnet_is_itself() {
    for c in ["192.168.1.34/24", "10.5.6.7/8", "172.16.5.9/16", "1.2.3.4/0", "9.8.7.6/32", "1.2.3.4/xx", "1.2.3/8", "abc"] {
        let s = to_subnet(c);
        assert_eq!(to_subnet(&s), s);
    }
}
