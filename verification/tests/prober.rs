use dpi_core::engine::{DomainSet, Engine, NoopEngine};
use dpi_core::network::{DomainCheck, Reachability};
use dpi_core::prober::{find_strategy, next_step, Checker, Next, ProbeOutcome};
use dpi_core::strategy::candidate_strategies;

fn open() -> DomainCheck {
    DomainCheck {
        text: Reachability::Reachable,
        voice: Some(Reachability::Reachable),
    }
}

fn blocked() -> DomainCheck {
    DomainCheck {
        text: Reachability::TlsReset,
        voice: Some(Reachability::Timeout),
    }
}

#[test]
fn already_open_does_nothing() {
    let mut eng = NoopEngine::default();
    let out = find_strategy(&mut eng, &DomainSet::discord(), true, &mut Checker::new(|_, _| open())).unwrap();
    assert!(matches!(out, ProbeOutcome::AlreadyOpen { .. }));
    assert!(eng.applied.is_empty());
}

#[test]
fn finds_first_working_candidate() {
    let mut eng = NoopEngine::default();
    let mut calls = 0;
    let out = find_strategy(
        &mut eng,
        &DomainSet::discord(),
        true,
        &mut Checker::new(|_, _| {
            calls += 1;
            if calls >= 3 {
                open()
            } else {
                blocked()
            }
        }),
    )
    .unwrap();
    match out {
        ProbeOutcome::Found { .. } => {}
        other => panic!("expected Found, got {other:?}"),
    }
    assert!(!eng.is_active());
}

#[test]
fn no_candidate_works() {
    let mut eng = NoopEngine::default();
    let out = find_strategy(&mut eng, &DomainSet::discord(), true, &mut Checker::new(|_, _| blocked())).unwrap();
    assert!(matches!(out, ProbeOutcome::NotFound));
    assert!(!eng.is_active());
}

#[test]
fn found_strategy_is_the_working_candidate() {
    let mut eng = NoopEngine::default();
    let mut calls = 0;
    let out = find_strategy(
        &mut eng,
        &DomainSet::discord(),
        true,
        &mut Checker::new(|_, _| {
            calls += 1;
            if calls >= 3 {
                open()
            } else {
                blocked()
            }
        }),
    )
    .unwrap();
    let cands = candidate_strategies();
    match out {
        ProbeOutcome::Found { strategy, check } => {
            assert_eq!(strategy, cands[1]);
            assert!(check.is_fully_open());
        }
        other => panic!("expected Found, got {other:?}"),
    }
    assert_eq!(eng.applied.len(), 2);
}

#[test]
fn every_candidate_is_tried_once_when_none_works() {
    let mut eng = NoopEngine::default();
    let mut calls = 0;
    let _ = find_strategy(
        &mut eng,
        &DomainSet::discord(),
        true,
        &mut Checker::new(|_, _| {
            calls += 1;
            blocked()
        }),
    )
    .unwrap();
    assert_eq!(eng.applied, candidate_strategies());
    assert_eq!(calls, candidate_strategies().len() + 1);
}

#[test]
fn probes_the_first_domain_or_discord() {
    let mut eng = NoopEngine::default();
    let mut seen: Vec<(String, bool)> = Vec::new();
    let _ = find_strategy(
        &mut eng,
        &DomainSet::new(vec!["example.org".into(), "example.net".into()]),
        false,
        &mut Checker::new(|d: &str, v: bool| {
            seen.push((d.to_string(), v));
            open()
        }),
    )
    .unwrap();
    assert_eq!(seen, vec![("example.org".to_string(), false)]);

    let mut seen: Vec<String> = Vec::new();
    let _ = find_strategy(
        &mut eng,
        &DomainSet::new(vec![]),
        true,
        &mut Checker::new(|d: &str, _| {
            seen.push(d.to_string());
            open()
        }),
    )
    .unwrap();
    assert_eq!(seen, vec!["discord.com".to_string()]);
}

#[test]
fn voice_must_pass_when_probed() {
    let mut eng = NoopEngine::default();
    let out = find_strategy(
        &mut eng,
        &DomainSet::discord(),
        true,
        &mut Checker::new(|_, _| DomainCheck {
            text: Reachability::Reachable,
            voice: Some(Reachability::Timeout),
        }),
    )
    .unwrap();
    assert!(matches!(out, ProbeOutcome::NotFound));
}

#[test]
fn each_tried_candidate_is_reverted_before_the_next() {
    let mut eng = NoopEngine::default();
    let mut trace: Vec<bool> = Vec::new();
    let _ = find_strategy(
        &mut eng,
        &DomainSet::discord(),
        true,
        &mut Checker::new(|_, _| {
            trace.push(true);
            blocked()
        }),
    )
    .unwrap();
    assert_eq!(trace.len(), eng.applied.len() + 1);
    assert!(!eng.is_active());
}

#[test]
fn next_step_decisions() {
    assert_eq!(next_step(0, 4, &open()), Next::AlreadyOpen);
    assert_eq!(next_step(0, 4, &blocked()), Next::Try(0));
    assert_eq!(next_step(2, 4, &open()), Next::Found(1));
    assert_eq!(next_step(2, 4, &blocked()), Next::Try(2));
    assert_eq!(next_step(4, 4, &blocked()), Next::NotFound);
    assert_eq!(next_step(4, 4, &open()), Next::Found(3));
}
