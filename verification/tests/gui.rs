use dpi_core::gui::{
    discord_domains, helper_command, helper_failure, helper_path, installed_helper_unix,
    installed_helper_windows, network_changed, retest_due, settings_path, solve_args,
    strategy_args, tray_action, Settings, TrayAction,
};
use dpi_core::helper_cli::{parse_request, Request};
use dpi_core::network::NetworkFingerprint;

#[test]
fn default_settings() {
    let s = Settings::default();
    assert_eq!(s.language, "tr");
    assert_eq!(s.theme, "dark");
    assert_eq!(s.scope, "discord");
    assert_eq!(s.auto_test_interval_min, 30);
    assert!(!s.autostart);
    assert_eq!(
        settings_path("/home/u/.config"),
        "/home/u/.config/dpi-bypass/settings.json"
    );
}

#[test]
fn retest_waits_at_least_a_minute() {
    assert!(!retest_due(29 * 60, 30));
    assert!(retest_due(30 * 60, 30));
    assert!(!retest_due(59, 0));
    assert!(retest_due(60, 0));
    assert!(retest_due(u64::MAX, u32::MAX));
}

#[test]
fn network_change_is_any_field() {
    let a = NetworkFingerprint::default();
    let mut b = NetworkFingerprint::default();
    assert!(!network_changed(&a, &b));
    b.iface = Some("eth0".into());
    assert!(network_changed(&a, &b));
}

#[test]
fn tray_entries() {
    assert_eq!(tray_action("quit"), TrayAction::Quit);
    assert_eq!(tray_action("show"), TrayAction::Show);
    assert_eq!(tray_action("toggle"), TrayAction::TurnOff);
    assert_eq!(tray_action("other"), TrayAction::Ignore);
}

#[test]
fn solve_request_survives_the_trip_to_the_helper() {
    let domains = vec!["discord.com".to_string(), "discord.gg".to_string()];
    let mut argv = vec!["solve".to_string()];
    argv.extend(solve_args(&domains, true, Some("/opt/nfqws")));
    assert_eq!(
        argv,
        vec!["solve", "--domains", "discord.com,discord.gg", "--voice", "1", "--nfqws", "/opt/nfqws"]
    );
    match parse_request(&argv) {
        Ok(Request::Solve { domains: d, with_voice, engine }) => {
            assert_eq!(d, domains);
            assert!(with_voice);
            assert_eq!(engine.as_deref(), Some("/opt/nfqws"));
        }
        other => panic!("unexpected {other:?}"),
    }
}

#[test]
fn apply_request_survives_the_trip_to_the_helper() {
    let domains = vec!["a.example".to_string()];
    let mut argv = vec!["apply".to_string()];
    argv.extend(strategy_args("{\"tcp\":{}}", &domains));
    match parse_request(&argv) {
        Ok(Request::Apply { args, engine }) => {
            assert_eq!(args.strategy_json, "{\"tcp\":{}}");
            assert_eq!(args.domains, domains);
            assert!(engine.is_none());
        }
        other => panic!("unexpected {other:?}"),
    }
}

#[test]
fn helper_runs_through_pkexec_unless_root() {
    let extra = vec!["--x".to_string()];
    assert_eq!(
        helper_command(true, false, "/h", "revert", &extra),
        vec!["pkexec", "/h", "revert", "--x"]
    );
    assert_eq!(helper_command(true, true, "/h", "revert", &extra), vec!["/h", "revert", "--x"]);
    assert_eq!(helper_command(false, false, "h.exe", "status", &vec![]), vec!["h.exe", "status"]);
}

#[test]
fn helper_failure_messages() {
    assert_eq!(helper_failure("apply", "boom\n", Some(1)), "boom\n");
    assert_eq!(
        helper_failure("apply", "  \n", Some(3)),
        "helper 'apply' failed (exit Some(3))"
    );
    assert_eq!(
        helper_failure("revert", "", None),
        "helper 'revert' failed (exit None)"
    );
    assert_eq!(
        helper_failure("x", "", Some(-1)),
        "helper 'x' failed (exit Some(-1))"
    );
}

#[test]
fn helper_location() {
    let inst = installed_helper_unix();
    assert_eq!(inst, "/usr/lib/dpi-bypass/dpi-bypass-helper");
    assert_eq!(helper_path(Some("/env/h"), &inst, true, Some("/b/h")), "/env/h");
    assert_eq!(helper_path(None, &inst, true, Some("/b/h")), inst);
    assert_eq!(helper_path(None, &inst, false, Some("/b/h")), "/b/h");
    assert_eq!(helper_path(None, &inst, false, None), inst);
    assert_eq!(
        installed_helper_windows(None),
        r"C:\Program Files\DPI-Bypass\dpi-bypass-helper.exe"
    );
}

#[test]
fn discord_domain_set() {
    assert_eq!(
        discord_domains(),
        vec![
            "discord.com",
            "discordapp.com",
            "discord.gg",
            "discord.media",
            "cdn.discordapp.com",
            "gateway.discord.gg"
        ]
    );
}
