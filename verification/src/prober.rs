//! The auto-solver ("strategy finder").
//!
//! Given a target domain set and an [`Engine`], the solver first checks
//! whether the target is already reachable. If it is blocked, it walks the
//! candidate list: apply, re-check, revert, stopping at the first strategy
//! that makes the target fully reachable.
//!
//! The reachability check is handed in as a closure, so that the solver runs
//! without a network in tests and the caller picks the transport.
use vstd::prelude::*;
use crate::engine::{
    applied_of,
    lemma_applied_of_concat,
    ops_of,
    DomainSet,
    Engine,
    EngineCall,
    EngineOp,
};
use crate::error::{CoreError, CoreResult};
use crate::network::{fully_open, DomainCheck};
use crate::strategy::{candidate_strategies, candidates, Strategy, StrategyView};

verus! {

/// What the solver concluded.
#[derive(Debug, Clone)]
pub enum ProbeOutcome {
    /// The target was reachable without intervention.
    AlreadyOpen { check: DomainCheck },
    /// A working strategy was found.
    Found { strategy: Strategy, check: DomainCheck },
    /// No candidate worked.
    NotFound,
}

/// The mathematical content of a [`ProbeOutcome`].
pub enum OutcomeView {
    AlreadyOpen(DomainCheck),
    Found(StrategyView, DomainCheck),
    NotFound,
}

impl View for ProbeOutcome {
    type V = OutcomeView;

    open spec fn view(&self) -> OutcomeView {
        match self {
            ProbeOutcome::AlreadyOpen { check } => OutcomeView::AlreadyOpen(*check),
            ProbeOutcome::Found { strategy, check } => OutcomeView::Found(strategy@, *check),
            ProbeOutcome::NotFound => OutcomeView::NotFound,
        }
    }
}

/// The domain the solver probes: the first of the set, or `discord.com` when
/// the set is empty.
pub open spec fn probe_target(domains: Seq<Seq<char>>) -> Seq<char> {
    if domains.len() > 0 {
        domains[0]
    } else {
        "discord.com"@
    }
}

/// A complete run of the solver, given by the checks it made: the baseline
/// check first, then one check per candidate tried, in candidate order. A run
/// stops at the first fully open check, or once every candidate was tried.
pub open spec fn complete_run(results: Seq<DomainCheck>) -> bool {
    &&& 1 <= results.len() <= candidates().len() + 1
    &&& forall|i: int| 0 <= i < results.len() - 1 ==> !fully_open(#[trigger] results[i])
    &&& fully_open(results.last()) || results.len() == candidates().len() + 1
}

/// What the solver answers after the checks `results`: already open when the
/// baseline was open; otherwise the candidate whose check came out fully
/// open, with that check; otherwise nothing found.
pub open spec fn outcome_of(results: Seq<DomainCheck>) -> OutcomeView {
    if fully_open(results[0]) {
        OutcomeView::AlreadyOpen(results[0])
    } else if results.len() >= 2 && fully_open(results.last()) {
        OutcomeView::Found(candidates()[results.len() - 2], results.last())
    } else {
        OutcomeView::NotFound
    }
}

/// The engine calls of trying the first `k` candidates: each one applied,
/// then reverted, in candidate order.
pub open spec fn trial_ops(k: nat) -> Seq<EngineOp>
    decreases k,
{
    if k == 0 {
        Seq::empty()
    } else {
        trial_ops((k - 1) as nat) + seq![EngineOp::Apply(candidates()[k - 1]), EngineOp::Revert]
    }
}

/// One check the solver made: the domain and voice flag it asked about,
/// what came back, and the calls the engine had received by then.
pub struct ProbeCall {
    pub target: Seq<char>,
    pub with_voice: bool,
    pub result: DomainCheck,
    pub engine_calls: Seq<EngineCall>,
}

/// A reachability check `(domain, with_voice) -> DomainCheck`, with a record
/// of every call made through it (the record exists only for proofs).
pub struct Checker<F: FnMut(&str, bool) -> DomainCheck> {
    pub check: F,
    pub log: Ghost<Seq<ProbeCall>>,
}

impl<F: FnMut(&str, bool) -> DomainCheck> Checker<F> {
    /// A checker that calls `check` and has made no call yet.
    pub fn new(check: F) -> (r: Self)
        ensures
            r.check == check,
            r.log@ == Seq::<ProbeCall>::empty(),
    {
        Checker { check, log: Ghost(Seq::empty()) }
    }

    /// Check `target`. The record notes the call, its answer and the calls
    /// `engine` had received by then; the engine is only looked at, for the
    /// record.
    pub fn run<E: Engine>(&mut self, target: &str, with_voice: bool, engine: &E) -> (r: DomainCheck)
        requires
            call_requires(old(self).check, (target, with_voice)),
        ensures
            final(self).check == old(self).check,
            call_ensures(old(self).check, (target, with_voice), r),
            final(self).log@ == old(self).log@.push(
                ProbeCall {
                    target: target@,
                    with_voice,
                    result: r,
                    engine_calls: engine.history().calls@,
                },
            ),
    {
        let r = (self.check)(target, with_voice);
        self.log = Ghost(
            self.log@.push(
                ProbeCall {
                    target: target@,
                    with_voice,
                    result: r,
                    engine_calls: engine.history().calls@,
                },
            ),
        );
        r
    }
}

/// What the solver does after a check, when `tried` of the `count`
/// candidates have been tried (the check was made while candidate
/// `tried - 1` was applied, or with none when `tried` is 0).
#[derive(Debug, Clone, Copy, PartialEq, Eq, Structural)]
pub enum Next {
    /// The baseline was open: nothing to do.
    AlreadyOpen,
    /// The candidate at this index works.
    Found(usize),
    /// Try the candidate at this index.
    Try(usize),
    /// Every candidate was tried and none works.
    NotFound,
}

/// The solver's decision after a check (see [`Next`]).
pub open spec fn next_spec(tried: nat, count: nat, c: DomainCheck) -> Next {
    if fully_open(c) {
        if tried == 0 {
            Next::AlreadyOpen
        } else {
            Next::Found((tried - 1) as usize)
        }
    } else if tried < count {
        Next::Try(tried as usize)
    } else {
        Next::NotFound
    }
}

/// Decide what follows a check made after trying `tried` of `count`
/// candidates: stop at the first fully open check, else try the next
/// candidate while one is left.
pub fn next_step(tried: usize, count: usize, c: &DomainCheck) -> (r: Next)
    requires
        tried <= count,
    ensures
        r == next_spec(tried as nat, count as nat, *c),
{
    if c.is_fully_open() {
        if tried == 0 {
            Next::AlreadyOpen
        } else {
            Next::Found(tried - 1)
        }
    } else if tried < count {
        Next::Try(tried)
    } else {
        Next::NotFound
    }
}

/// The engine calls a run starting from `h0` has made before its check
/// number `i`: none for the baseline, and for a later check every earlier
/// candidate applied and reverted, then candidate `i - 1` applied.
pub open spec fn ops_before_check(h0: Seq<EngineOp>, i: nat) -> Seq<EngineOp> {
    if i == 0 {
        h0
    } else {
        h0 + trial_ops((i - 1) as nat) + seq![EngineOp::Apply(candidates()[i - 1])]
    }
}

/// The check `c` asked the closure `check` about `target`, with the engine
/// having received the calls `before`, and got an answer the closure can
/// give.
pub open spec fn check_made<F: FnMut(&str, bool) -> DomainCheck>(
    check: F,
    c: ProbeCall,
    target: Seq<char>,
    with_voice: bool,
    before: Seq<EngineOp>,
) -> bool {
    &&& c.target == target
    &&& c.with_voice == with_voice
    &&& exists|s: &str| s@ == target && call_ensures(check, (s, with_voice), c.result)
    &&& ops_of(c.engine_calls) == before
}

/// The checks `calls` are those of a run that starts from the engine calls
/// `h0`: check `i` made as [`ops_before_check`] says.
pub open spec fn checks_of_run<F: FnMut(&str, bool) -> DomainCheck>(
    check: F,
    calls: Seq<ProbeCall>,
    target: Seq<char>,
    with_voice: bool,
    h0: Seq<EngineOp>,
) -> bool {
    forall|i: int|
        0 <= i < calls.len() ==> check_made(
            check,
            #[trigger] calls[i],
            target,
            with_voice,
            ops_before_check(h0, i as nat),
        )
}

/// The answers of the checks `calls`.
pub open spec fn results_of(calls: Seq<ProbeCall>) -> Seq<DomainCheck> {
    calls.map_values(|c: ProbeCall| c.result)
}

/// Every engine call of `h` from position `from` up to `to` succeeded.
pub open spec fn all_ok(h: Seq<EngineCall>, from: int, to: int) -> bool {
    forall|j: int| from <= j < to ==> (#[trigger] h[j]).result is Ok
}

/// A run from the engine calls `h0` to `h`, with the checks `calls`, that
/// answered `o`: the answer follows from the checks, each candidate tried
/// was applied and then reverted, and every engine call succeeded.
pub open spec fn run_succeeded(
    h0: Seq<EngineCall>,
    h: Seq<EngineCall>,
    calls: Seq<ProbeCall>,
    o: OutcomeView,
) -> bool {
    &&& complete_run(results_of(calls))
    &&& o == outcome_of(results_of(calls))
    &&& ops_of(h) == ops_of(h0) + trial_ops((calls.len() - 1) as nat)
    &&& all_ok(h, h0.len() as int, h.len() as int)
}

/// A run from the engine calls `h0` to `h`, with the checks `calls`, that
/// failed with the engine's error `e`: no check before the failing step was
/// open, every earlier engine call succeeded, and either the apply of the
/// next candidate failed (and that candidate was reverted) or the revert
/// after the last check failed.
pub open spec fn run_failed(
    h0: Seq<EngineCall>,
    h: Seq<EngineCall>,
    calls: Seq<ProbeCall>,
    e: CoreError,
) -> bool {
    let k = (calls.len() - 1) as nat;
    &&& 1 <= calls.len() <= candidates().len() + 1
    &&& forall|i: int| 0 <= i < calls.len() - 1 ==> !fully_open(#[trigger] calls[i].result)
    &&& {
        ||| {
            &&& k < candidates().len()
            &&& !fully_open(calls.last().result)
            &&& ops_of(h) == ops_of(h0) + trial_ops(k) + seq![
                EngineOp::Apply(candidates()[k as int]),
                EngineOp::Revert,
            ]
            &&& h[h.len() - 2].result == Err::<(), CoreError>(e)
            &&& all_ok(h, h0.len() as int, h.len() - 2)
        }
        ||| {
            &&& calls.len() >= 2
            &&& ops_of(h) == ops_of(h0) + trial_ops(k)
            &&& h.last().result == Err::<(), CoreError>(e)
            &&& all_ok(h, h0.len() as int, h.len() - 1)
        }
    }
}

/// Run the solver.
///
/// * `engine` applies and reverts candidate strategies.
/// * `domains` is the target set; its first entry is what gets probed.
/// * `with_voice` also requires the voice (UDP/QUIC) probe to pass.
/// * `checker` probes reachability: `(domain, with_voice) -> DomainCheck`.
///
/// The target is checked first; when it is open, nothing else happens.
/// Otherwise each candidate in turn is applied, the target checked again,
/// and the candidate reverted, until a check comes out fully open: that
/// candidate is the answer. The checker's record shows every check with the
/// engine calls made before it, so each check after the first sits between
/// the apply and the revert of its candidate. When the engine fails, its
/// error is returned at once, after reverting a candidate whose apply failed
/// so that no failed attempt lingers; with a reliable engine the solver
/// always succeeds.
pub fn find_strategy<E: Engine, F: FnMut(&str, bool) -> DomainCheck>(
    engine: &mut E,
    domains: &DomainSet,
    with_voice: bool,
    checker: &mut Checker<F>,
) -> (r: CoreResult<ProbeOutcome>)
    requires
        forall|t: &str| call_requires(old(checker).check, (t, with_voice)),
    ensures
        final(checker).check == old(checker).check,
        old(checker).log@.len() < final(checker).log@.len(),
        final(checker).log@.take(old(checker).log@.len() as int) == old(checker).log@,
        old(engine).history().calls@.len() <= final(engine).history().calls@.len(),
        final(engine).history().calls@.take(old(engine).history().calls@.len() as int) == old(
            engine,
        ).history().calls@,
        checks_of_run(
            old(checker).check,
            final(checker).log@.skip(old(checker).log@.len() as int),
            probe_target(domains.domains.deep_view()),
            with_voice,
            ops_of(old(engine).history().calls@),
        ),
        r matches Ok(o) ==> run_succeeded(
            old(engine).history().calls@,
            final(engine).history().calls@,
            final(checker).log@.skip(old(checker).log@.len() as int),
            o@,
        ),
        r matches Err(e) ==> run_failed(
            old(engine).history().calls@,
            final(engine).history().calls@,
            final(checker).log@.skip(old(checker).log@.len() as int),
            e,
        ),
        r matches Ok(ProbeOutcome::AlreadyOpen { .. }) ==> *final(engine) == *old(engine),
        r matches Ok(ProbeOutcome::Found { .. }) ==> !final(engine).active(),
        r matches Ok(ProbeOutcome::NotFound) ==> !final(engine).active(),
        old(engine).reliable() ==> r is Ok,
        old(engine).well_formed() ==> final(engine).well_formed(),
{
    let target: String = if domains.domains.len() > 0 {
        domains.domains[0].clone()
    } else {
        "discord.com".to_owned()
    };
    let t: &str = target.as_str();
    let ghost dv = domains.domains.deep_view();
    assert(t@ == probe_target(dv));
    let ghost h0 = engine.history().calls@;
    let ghost l0 = checker.log@;
    let ghost check0 = checker.check;

    let baseline = checker.run(t, with_voice, &*engine);
    let cands = candidate_strategies();
    let n = cands.len();
    proof {
        let calls = checker.log@.skip(l0.len() as int);
        assert(calls =~= seq![checker.log@[l0.len() as int]]);
        assert(ops_of(h0) == ops_before_check(ops_of(h0), 0));
        assert(checker.log@.take(l0.len() as int) =~= l0);
        assert(h0.take(h0.len() as int) =~= h0);
        assert(ops_of(h0) + trial_ops(0) =~= ops_of(h0));
        assert(check_made(check0, calls[0], t@, with_voice, ops_of(h0)));
    }
    if let Next::AlreadyOpen = next_step(0, n, &baseline) {
        proof {
            let calls = checker.log@.skip(l0.len() as int);
            assert(results_of(calls) =~= seq![baseline]);
        }
        return Ok(ProbeOutcome::AlreadyOpen { check: baseline });
    }
    let mut i: usize = 0;
    while i < n
        invariant
            n == cands@.len(),
            n == candidates().len(),
            crate::strategy::strategies_view(cands@) == candidates(),
            0 <= i <= n,
            t@ == probe_target(dv),
            dv == domains.domains.deep_view(),
            checker.check == check0,
            check0 == old(checker).check,
            l0 == old(checker).log@,
            h0 == old(engine).history().calls@,
            forall|s: &str| call_requires(checker.check, (s, with_voice)),
            checker.log@.len() == l0.len() + i + 1,
            checker.log@.take(l0.len() as int) == l0,
            checks_of_run(check0, checker.log@.skip(l0.len() as int), t@, with_voice, ops_of(h0)),
            forall|j: int|
                0 <= j <= i ==> !fully_open(#[trigger] checker.log@[l0.len() + j].result),
            engine.history().calls@.len() >= h0.len(),
            engine.history().calls@.take(h0.len() as int) == h0,
            ops_of(engine.history().calls@) == ops_of(h0) + trial_ops(i as nat),
            all_ok(engine.history().calls@, h0.len() as int, engine.history().calls@.len() as int),
            i > 0 ==> !engine.active(),
            engine.reliable() == old(engine).reliable(),
            old(engine).well_formed() ==> engine.well_formed(),
        decreases n - i,
    {
        assert(cands@[i as int]@ == candidates()[i as int]);
        let ghost hb = engine.history().calls@;
        let ghost lb = checker.log@;
        let applied = engine.apply(&cands[i], domains);
        if let Err(e) = applied {
            let _ = engine.revert();
            proof {
                let h = engine.history().calls@;
                let calls = checker.log@.skip(l0.len() as int);
                assert(calls =~= lb.skip(l0.len() as int));
                assert(ops_of(h) =~= ops_of(h0) + trial_ops(i as nat) + seq![
                    EngineOp::Apply(candidates()[i as int]),
                    EngineOp::Revert,
                ]) by {
                    assert(ops_of(h) =~= ops_of(hb).push(EngineOp::Apply(cands@[i as int]@)).push(
                        EngineOp::Revert,
                    ));
                }
                assert(h[h.len() - 2] == hb.push(EngineCall { op: EngineOp::Apply(cands@[i as int]@), result: applied })[h.len() - 2]);
                assert(h.take(h0.len() as int) =~= h0) by {
                    assert forall|j: int| 0 <= j < h0.len() implies h[j] == h0[j] by {
                        assert(hb[j] == h0[j]);
                    }
                }
                assert(all_ok(h, h0.len() as int, h.len() - 2)) by {
                    assert forall|j: int| h0.len() <= j < h.len() - 2 implies (#[trigger] h[j]).result is Ok by {
                        assert(h[j] == hb[j]);
                    }
                }
                assert forall|j: int| 0 <= j < calls.len() - 1 implies !fully_open(#[trigger] calls[j].result) by {
                    assert(calls[j] == checker.log@[l0.len() + j]);
                }
                assert(calls.last() == checker.log@[l0.len() + i]);
            }
            return Err(e);
        }
        let result = checker.run(t, with_voice, &*engine);
        let ghost hm = engine.history().calls@;
        let reverted = engine.revert();
        proof {
            let calls = checker.log@.skip(l0.len() as int);
            let old_calls = lb.skip(l0.len() as int);
            assert(calls =~= old_calls.push(checker.log@.last()));
            assert(checker.log@.take(l0.len() as int) =~= lb.take(l0.len() as int));
            assert(ops_of(hm) =~= ops_of(hb).push(EngineOp::Apply(candidates()[i as int])));
            assert(ops_of(hm) =~= ops_before_check(ops_of(h0), (i + 1) as nat));
            assert(checks_of_run(check0, calls, t@, with_voice, ops_of(h0))) by {
                assert forall|j: int| 0 <= j < calls.len() implies check_made(
                    check0,
                    #[trigger] calls[j],
                    t@,
                    with_voice,
                    ops_before_check(ops_of(h0), j as nat),
                ) by {
                    if j < calls.len() - 1 {
                        assert(calls[j] == old_calls[j]);
                    }
                }
            }
            let h = engine.history().calls@;
            assert(h.take(h0.len() as int) =~= h0) by {
                assert forall|j: int| 0 <= j < h0.len() implies h[j] == h0[j] by {
                    assert(hb[j] == h0[j]);
                }
            }
            assert(trial_ops((i + 1) as nat) =~= trial_ops(i as nat) + seq![
                EngineOp::Apply(candidates()[i as int]),
                EngineOp::Revert,
            ]);
            assert(ops_of(h) =~= ops_of(h0) + trial_ops((i + 1) as nat)) by {
                assert(ops_of(h) =~= ops_of(hm).push(EngineOp::Revert));
            }
            assert forall|j: int| 0 <= j <= i implies #[trigger] checker.log@[l0.len() + j] == lb[l0.len() + j] by {}
        }
        if let Err(e) = reverted {
            proof {
                let h = engine.history().calls@;
                let calls = checker.log@.skip(l0.len() as int);
                assert(all_ok(h, h0.len() as int, h.len() - 1)) by {
                    assert forall|j: int| h0.len() <= j < h.len() - 1 implies (#[trigger] h[j]).result is Ok by {
                        if j < hb.len() {
                            assert(h[j] == hb[j]);
                        } else {
                            assert(h[j] == hm[j]);
                        }
                    }
                }
                assert forall|j: int| 0 <= j < calls.len() - 1 implies !fully_open(#[trigger] calls[j].result) by {
                    assert(calls[j] == checker.log@[l0.len() + j]);
                }
            }
            return Err(e);
        }
        proof {
            let h = engine.history().calls@;
            assert(all_ok(h, h0.len() as int, h.len() as int)) by {
                assert forall|j: int| h0.len() <= j < h.len() implies (#[trigger] h[j]).result is Ok by {
                    if j < hb.len() {
                        assert(h[j] == hb[j]);
                    } else if j < hm.len() {
                        assert(h[j] == hm[j]);
                    }
                }
            }
        }
        i = i + 1;
        if let Next::Found(k) = next_step(i, n, &result) {
            let strategy = cands[k].duplicate();
            proof {
                let calls = checker.log@.skip(l0.len() as int);
                let rs = results_of(calls);
                assert(rs.len() == i + 1);
                assert(rs.last() == result);
                assert forall|j: int| 0 <= j < rs.len() - 1 implies !fully_open(#[trigger] rs[j]) by {
                    assert(rs[j] == checker.log@[l0.len() + j].result);
                }
                assert(crate::strategy::strategies_view(cands@)[k as int] == cands@[k as int]@);
                assert(rs[0] == checker.log@[l0.len() as int].result);
            }
            return Ok(ProbeOutcome::Found { strategy, check: result });
        }
        proof {
            assert(!fully_open(result));
            assert(checker.log@[l0.len() + i] == checker.log@.last());
        }
    }
    proof {
        let calls = checker.log@.skip(l0.len() as int);
        let rs = results_of(calls);
        assert forall|j: int| 0 <= j < rs.len() - 1 implies !fully_open(#[trigger] rs[j]) by {
            assert(rs[j] == checker.log@[l0.len() + j].result);
        }
        assert(rs[0] == checker.log@[l0.len() as int].result);
    }
    Ok(ProbeOutcome::NotFound)
}

/// The strategies applied while trying the first `k` candidates are those
/// candidates, in order.
pub proof fn trials_apply_the_candidates(k: nat)
    requires
        k <= candidates().len(),
    ensures
        applied_of(trial_ops(k)) == candidates().take(k as int),
    decreases k,
{
    if k > 0 {
        trials_apply_the_candidates((k - 1) as nat);
        let c = candidates()[k - 1];
        lemma_applied_of_concat(trial_ops((k - 1) as nat), seq![EngineOp::Apply(c), EngineOp::Revert]);
        let two = seq![EngineOp::Apply(c), EngineOp::Revert];
        let one = seq![EngineOp::Apply(c)];
        assert(two.drop_last() =~= one);
        assert(two.last() == EngineOp::Revert);
        assert(applied_of(two) == applied_of(one));
        assert(one.drop_last() =~= Seq::<EngineOp>::empty());
        assert(one.last() == EngineOp::Apply(c));
        assert(applied_of(one) == applied_of(one.drop_last()).push(c));
        assert(applied_of(Seq::<EngineOp>::empty()) == Seq::<StrategyView>::empty());
        assert(applied_of(two) =~= seq![c]);
        assert(candidates().take(k as int) =~= candidates().take(k - 1).push(c));
    } else {
        assert(candidates().take(0) =~= Seq::<StrategyView>::empty());
    }
}

} // verus!
