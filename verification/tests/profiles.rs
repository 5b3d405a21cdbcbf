use dpi_core::error::CoreError;
use dpi_core::network::{DomainCheck, NetworkFingerprint, Reachability};
use dpi_core::profiles::{default_store_path, import_profile, Profile, ProfileStore};
use dpi_core::strategy::{Strategy, TcpStrategy};

fn sample() -> Profile {
    Profile::new(
        "profile-1",
        "Profil 1",
        vec!["discord.com".into()],
        Strategy {
            tcp: TcpStrategy::default(),
            udp_quic: None,
        },
        NetworkFingerprint {
            gateway_mac: Some("aa:bb:cc:dd:ee:ff".into()),
            ..Default::default()
        },
    )
}

fn with_id(id: &str) -> Profile {
    let mut p = sample();
    p.id = id.into();
    p
}

#[test]
fn next_id_is_unique() {
    let mut store = ProfileStore::default();
    store.add(sample());
    let (id, name) = store.next_id();
    assert_eq!(id, "profile-2");
    assert_eq!(name, "Profil 2");
}

#[test]
fn remove_reassigns_default() {
    let mut store = ProfileStore::default();
    store.add(sample());
    let mut p2 = sample();
    p2.id = "profile-2".into();
    store.add(p2);
    store.remove("profile-1").unwrap();
    assert_eq!(store.default_id.as_deref(), Some("profile-2"));
}

#[test]
fn export_import_assigns_new_id() {
    let mut store = ProfileStore::default();
    store.add(sample());
    let imported = import_profile(&store, store.profiles[0].clone());
    assert_eq!(imported.id, "profile-2");
}

#[test]
fn next_id_skips_taken_numbers() {
    let mut store = ProfileStore::default();
    store.add(with_id("profile-2"));
    store.add(with_id("profile-3"));
    let (id, name) = store.next_id();
    assert_eq!(id, "profile-4");
    assert_eq!(name, "Profil 4");
    let empty = ProfileStore::default();
    assert_eq!(empty.next_id().0, "profile-1");
}

#[test]
fn first_added_becomes_default_and_is_found() {
    let mut store = ProfileStore::default();
    assert!(store.default_profile().is_none());
    store.add(sample());
    store.add(with_id("profile-2"));
    assert_eq!(store.default_id.as_deref(), Some("profile-1"));
    assert_eq!(store.get("profile-2").unwrap().id, "profile-2");
    assert!(store.get("profile-9").is_none());
    assert_eq!(store.default_profile().unwrap().id, "profile-1");
}

#[test]
fn set_default_then_default_profile() {
    let mut store = ProfileStore::default();
    store.add(sample());
    store.add(with_id("profile-2"));
    store.set_default("profile-2").unwrap();
    assert_eq!(store.default_profile().unwrap().id, "profile-2");
    match store.set_default("nope") {
        Err(CoreError::ProfileNotFound(id)) => assert_eq!(id, "nope"),
        other => panic!("expected ProfileNotFound, got {other:?}"),
    }
    assert_eq!(store.default_id.as_deref(), Some("profile-2"));
}

#[test]
fn default_falls_back_to_first_profile() {
    let mut store = ProfileStore::default();
    store.add(sample());
    store.add(with_id("profile-2"));
    store.default_id = Some("gone".into());
    assert_eq!(store.default_profile().unwrap().id, "profile-1");
}

#[test]
fn remove_unknown_id_fails_and_keeps_everything() {
    let mut store = ProfileStore::default();
    store.add(sample());
    match store.remove("profile-7") {
        Err(CoreError::ProfileNotFound(id)) => assert_eq!(id, "profile-7"),
        other => panic!("expected ProfileNotFound, got {other:?}"),
    }
    assert_eq!(store.profiles.len(), 1);
    assert_eq!(store.default_id.as_deref(), Some("profile-1"));
}

#[test]
fn removing_the_last_profile_clears_default() {
    let mut store = ProfileStore::default();
    store.add(sample());
    store.remove("profile-1").unwrap();
    assert!(store.profiles.is_empty());
    assert_eq!(store.default_id, None);
    assert!(store.get("profile-1").is_none());
}

#[test]
fn removing_another_profile_keeps_default() {
    let mut store = ProfileStore::default();
    store.add(sample());
    store.add(with_id("profile-2"));
    store.remove("profile-2").unwrap();
    assert_eq!(store.default_id.as_deref(), Some("profile-1"));
    assert_eq!(store.profiles.len(), 1);
}

#[test]
fn rename_and_updates_touch_only_their_field() {
    let mut store = ProfileStore::default();
    store.add(sample());
    store.rename("profile-1", "Ev").unwrap();
    assert_eq!(store.profiles[0].name, "Ev");
    assert_eq!(store.profiles[0].id, "profile-1");
    store
        .update_domains("profile-1", vec!["a.example".into(), "b.example".into()])
        .unwrap();
    assert_eq!(store.profiles[0].domains, vec!["a.example", "b.example"]);
    let mut s = Strategy {
        tcp: TcpStrategy::default(),
        udp_quic: None,
    };
    s.tcp.ttl = 7;
    store.update_strategy("profile-1", s.clone()).unwrap();
    assert_eq!(store.profiles[0].strategy, s);
    assert!(matches!(
        store.rename("x", "y"),
        Err(CoreError::ProfileNotFound(_))
    ));
    assert!(matches!(
        store.update_domains("x", vec![]),
        Err(CoreError::ProfileNotFound(_))
    ));
    assert!(matches!(
        store.update_strategy("x", s),
        Err(CoreError::ProfileNotFound(_))
    ));
}

#[test]
fn matching_finds_profile_of_current_network() {
    let mut store = ProfileStore::default();
    store.add(sample());
    let mut other = with_id("profile-2");
    other.network_fingerprint.gateway_mac = Some("11:22:33:44:55:66".into());
    store.add(other);
    let here = NetworkFingerprint {
        gateway_mac: Some("11:22:33:44:55:66".into()),
        ..Default::default()
    };
    assert_eq!(store.matching(&here).unwrap().id, "profile-2");
    let elsewhere = NetworkFingerprint {
        gateway_mac: Some("00:00:00:00:00:01".into()),
        ..Default::default()
    };
    assert!(store.matching(&elsewhere).is_none());
}

#[test]
fn create_profile_records_check_and_becomes_default() {
    let mut store = ProfileStore::default();
    let check = DomainCheck {
        text: Reachability::Reachable,
        voice: Some(Reachability::Timeout),
    };
    let fp = NetworkFingerprint {
        iface: Some("eth0".into()),
        ..Default::default()
    };
    let p = store.create_profile(
        vec!["discord.com".into()],
        Strategy {
            tcp: TcpStrategy::default(),
            udp_quic: None,
        },
        &check,
        fp.clone(),
    );
    assert_eq!(p.id, "profile-1");
    assert_eq!(p.name, "Profil 1");
    assert!(p.test_results.text);
    assert!(!p.test_results.voice);
    assert!(p.test_results.last_checked.is_some());
    assert_eq!(p.network_fingerprint, fp);
    assert_eq!(store.profiles.len(), 1);
    assert_eq!(store.default_id.as_deref(), Some("profile-1"));
}

#[test]
fn record_check_and_retest_target() {
    let mut store = ProfileStore::default();
    store.add(sample());
    let here = NetworkFingerprint {
        gateway_mac: Some("AA:BB:CC:DD:EE:FF".into()),
        ..Default::default()
    };
    let t = store.retest_target(&here).unwrap();
    assert_eq!(t.id, "profile-1");
    assert_eq!(t.domain, "discord.com");
    assert!(t.with_voice);
    let elsewhere = NetworkFingerprint {
        gateway_mac: Some("00:00:00:00:00:01".into()),
        ..Default::default()
    };
    assert!(store.retest_target(&elsewhere).is_none());

    store.record_check(
        "profile-1",
        &DomainCheck {
            text: Reachability::Reachable,
            voice: Some(Reachability::Reachable),
        },
    );
    assert!(store.profiles[0].test_results.text);
    assert!(store.profiles[0].test_results.voice);
    assert!(store.profiles[0].test_results.last_checked.is_some());

    store
        .update_domains("profile-1", vec!["example.org".into()])
        .unwrap();
    assert!(!store.retest_target(&here).unwrap().with_voice);
    store.update_domains("profile-1", vec![]).unwrap();
    assert!(store.retest_target(&here).is_none());
}

#[test]
fn new_profile_has_no_results_yet() {
    let p = sample();
    assert!(!p.test_results.text);
    assert!(!p.test_results.voice);
    assert!(p.test_results.last_checked.is_none());
    assert_eq!(p.auto_test_interval_min, 30);
}

#[test]
fn store_path_is_under_config_dir() {
    assert_eq!(
        default_store_path("/home/u/.config"),
        "/home/u/.config/dpi-bypass/profiles.json"
    );
    assert_eq!(
        default_store_path("/home/u/.config/"),
        "/home/u/.config/dpi-bypass/profiles.json"
    );
}
