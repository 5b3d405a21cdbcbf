use dpi_core::helper_cli::{
    ok_line, parse_opts, parse_request, service_status_line, split_domains, status_line,
    CliError, Request,
};

fn args(xs: &[&str]) -> Vec<String> {
    xs.iter().map(|s| s.to_string()).collect()
}

#[test]
fn options_pair_keys_with_values_and_later_ones_win() {
    let o = parse_opts(&args(&["--a", "1", "stray", "--b", "--c", "--a", "2", "--tail"]));
    assert_eq!(o.get("a").map(|s| s.as_str()), Some("2"));
    // "--b" takes "--c" as its value
    assert_eq!(o.get("b").map(|s| s.as_str()), Some("--c"));
    assert!(!o.contains_key("c"));
    // a flag without a value is dropped
    assert!(!o.contains_key("tail"));
    assert!(!o.contains_key("stray"));
}

#[test]
fn domains_are_split_and_trimmed() {
    assert_eq!(split_domains("a.com, b.com ,c.com"), vec!["a.com", "b.com", "c.com"]);
    assert_eq!(split_domains(""), vec![""]);
    assert_eq!(split_domains("a,,b"), vec!["a", "", "b"]);
}

#[test]
fn plan_and_apply_need_a_strategy() {
    assert!(matches!(
        parse_request(&args(&["plan", "--domains", "a.com"])),
        Err(CliError::StrategyRequired)
    ));
    assert!(matches!(
        parse_request(&args(&["apply"])),
        Err(CliError::StrategyRequired)
    ));
    match parse_request(&args(&["apply", "--strategy", "{}", "--domains", "a.com,b.com", "--nfqws", "/x"])) {
        Ok(Request::Apply { args, engine }) => {
            assert_eq!(args.strategy_json, "{}");
            assert_eq!(args.domains, vec!["a.com", "b.com"]);
            assert_eq!(engine.as_deref(), Some("/x"));
        }
        other => panic!("unexpected {other:?}"),
    }
    match parse_request(&args(&["plan", "--strategy", "{\"tcp\":1}"])) {
        Ok(Request::Plan { args, engine }) => {
            assert_eq!(args.strategy_json, "{\"tcp\":1}");
            assert!(args.domains.is_empty());
            assert!(engine.is_none());
        }
        other => panic!("unexpected {other:?}"),
    }
}

#[test]
fn solve_reads_domains_voice_and_engine() {
    match parse_request(&args(&["solve", "--domains", "discord.com", "--voice", "1"])) {
        Ok(Request::Solve { domains, with_voice, engine }) => {
            assert_eq!(domains, vec!["discord.com"]);
            assert!(with_voice);
            assert!(engine.is_none());
        }
        other => panic!("unexpected {other:?}"),
    }
    match parse_request(&args(&["solve"])) {
        Ok(Request::Solve { domains, with_voice, .. }) => {
            assert!(domains.is_empty());
            assert!(!with_voice);
        }
        other => panic!("unexpected {other:?}"),
    }
}

#[test]
fn simple_verbs_and_unknown_verb() {
    assert!(matches!(parse_request(&args(&["revert"])), Ok(Request::Revert)));
    assert!(matches!(parse_request(&args(&["status"])), Ok(Request::Status)));
    assert!(matches!(parse_request(&args(&["daemon", "--profile-default"])), Ok(Request::Daemon)));
    assert!(matches!(parse_request(&args(&["disable-service"])), Ok(Request::DisableService)));
    assert!(matches!(parse_request(&args(&["service-status"])), Ok(Request::ServiceStatus)));
    match parse_request(&args(&["frobnicate"])) {
        Err(CliError::UnknownVerb(v)) => assert_eq!(v, "frobnicate"),
        other => panic!("unexpected {other:?}"),
    }
    match parse_request(&args(&[])) {
        Err(CliError::UnknownVerb(v)) => assert_eq!(v, ""),
        other => panic!("unexpected {other:?}"),
    }
}

#[test]
fn enable_service_profile_is_optional() {
    match parse_request(&args(&["enable-service"])) {
        Ok(Request::EnableService { profile, .. }) => assert!(profile.is_none()),
        other => panic!("unexpected {other:?}"),
    }
    match parse_request(&args(&["enable-service", "--strategy", "{}", "--domains", "x"])) {
        Ok(Request::EnableService { profile: Some(p), .. }) => {
            assert_eq!(p.strategy_json, "{}");
            assert_eq!(p.domains, vec!["x"]);
        }
        other => panic!("unexpected {other:?}"),
    }
}

#[test]
fn answer_lines_are_json() {
    assert_eq!(ok_line(), "{\"ok\":true}");
    assert_eq!(status_line(true), "{\"active\":true}");
    assert_eq!(status_line(false), "{\"active\":false}");
    assert_eq!(
        service_status_line(true, false),
        "{\"enabled\":true,\"active\":false}"
    );
}
