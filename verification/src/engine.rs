//! The engine abstraction.
//!
//! An [`Engine`] makes a [`Strategy`] take effect for a set of domains and
//! reverts it fully. The concrete engines run privileged outside this
//! library; here are the trait, the domain set, and an engine that only
//! records what it was asked to do.
use vstd::prelude::*;
use crate::error::CoreResult;
use crate::strategy::{Strategy, StrategyView};

verus! {

/// The host names a strategy is scoped to; an empty set means system-wide.
#[derive(Debug, Clone)]
pub struct DomainSet {
    pub domains: Vec<String>,
}

/// The domains of the default Discord set.
pub open spec fn discord_domains_spec() -> Seq<Seq<char>> {
    seq![
        "discord.com"@,
        "discordapp.com"@,
        "discord.gg"@,
        "discord.media"@,
        "cdn.discordapp.com"@,
        "gateway.discord.gg"@,
    ]
}

impl DomainSet {
    /// A domain set holding `domains`.
    pub fn new(domains: Vec<String>) -> (r: Self)
        ensures
            r.domains == domains,
    {
        DomainSet { domains }
    }

    /// The default Discord domain set (text, API, gateway, CDN, voice/media).
    pub fn discord() -> (r: Self)
        ensures
            r.domains.deep_view() == discord_domains_spec(),
    {
        let mut v: Vec<String> = Vec::new();
        v.push("discord.com".to_owned());
        v.push("discordapp.com".to_owned());
        v.push("discord.gg".to_owned());
        v.push("discord.media".to_owned());
        v.push("cdn.discordapp.com".to_owned());
        v.push("gateway.discord.gg".to_owned());
        assert(v.deep_view() =~= discord_domains_spec());
        DomainSet::new(v)
    }
}

/// A call made on an engine.
pub enum EngineOp {
    /// `apply` with this strategy.
    Apply(StrategyView),
    /// `revert`.
    Revert,
}

/// A call an engine received, and what it answered.
pub struct EngineCall {
    pub op: EngineOp,
    pub result: CoreResult<()>,
}

/// The calls of `calls`, without their answers.
pub open spec fn ops_of(calls: Seq<EngineCall>) -> Seq<EngineOp> {
    calls.map_values(|c: EngineCall| c.op)
}

/// The strategies applied among `ops`, in order.
pub open spec fn applied_of(ops: Seq<EngineOp>) -> Seq<StrategyView>
    decreases ops.len(),
{
    if ops.len() == 0 {
        Seq::empty()
    } else {
        match ops.last() {
            EngineOp::Apply(s) => applied_of(ops.drop_last()).push(s),
            EngineOp::Revert => applied_of(ops.drop_last()),
        }
    }
}

/// The strategies applied in a run of calls are those applied in each part.
pub proof fn lemma_applied_of_concat(a: Seq<EngineOp>, b: Seq<EngineOp>)
    ensures
        applied_of(a + b) == applied_of(a) + applied_of(b),
    decreases b.len(),
{
    if b.len() == 0 {
        assert(a + b =~= a);
        assert(applied_of(a) + applied_of(b) =~= applied_of(a));
    } else {
        lemma_applied_of_concat(a, b.drop_last());
        assert((a + b).drop_last() =~= a + b.drop_last());
        assert((a + b).last() == b.last());
        match b.last() {
            EngineOp::Apply(s) => {
                assert(applied_of(a) + applied_of(b) =~= (applied_of(a) + applied_of(
                    b.drop_last(),
                )).push(s));
            },
            EngineOp::Revert => {},
        }
    }
}

/// The calls an engine has received, oldest first, with their answers. It
/// exists only for proofs.
pub struct EngineHistory {
    pub calls: Ghost<Seq<EngineCall>>,
}

impl EngineHistory {
    /// A history with no call in it.
    pub fn new() -> (r: Self)
        ensures
            r.calls@ == Seq::<EngineCall>::empty(),
    {
        EngineHistory { calls: Ghost(Seq::empty()) }
    }
}

/// Applies and reverts DPI-bypass strategies.
pub trait Engine {
    /// Whether a strategy is currently in effect.
    spec fn active(&self) -> bool;

    /// Every `apply` and `revert` the engine has received, in order, with
    /// what each answered.
    spec fn history(&self) -> EngineHistory;

    /// Whether the engine cannot fail: its `apply` and `revert` always
    /// succeed, and it stays so. An engine that drives real packet filters
    /// and processes can fail, and is not reliable in this sense.
    spec fn reliable(&self) -> bool;

    /// The engine's own invariant, which every call keeps.
    spec fn well_formed(&self) -> bool;

    /// Make `strategy` take effect for `domains`, recording enough to revert
    /// it fully later. When it succeeds, a strategy is in effect.
    fn apply(&mut self, strategy: &Strategy, domains: &DomainSet) -> (r: CoreResult<()>)
        ensures
            r is Ok ==> final(self).active(),
            old(self).reliable() ==> r is Ok,
            final(self).reliable() == old(self).reliable(),
            old(self).well_formed() ==> final(self).well_formed(),
            final(self).history().calls@ == old(self).history().calls@.push(
                EngineCall { op: EngineOp::Apply(strategy@), result: r },
            ),
    ;

    /// Undo everything `apply` did. When it succeeds, no strategy is in
    /// effect.
    fn revert(&mut self) -> (r: CoreResult<()>)
        ensures
            r is Ok ==> !final(self).active(),
            old(self).reliable() ==> r is Ok,
            final(self).reliable() == old(self).reliable(),
            old(self).well_formed() ==> final(self).well_formed(),
            final(self).history().calls@ == old(self).history().calls@.push(
                EngineCall { op: EngineOp::Revert, result: r },
            ),
    ;

    /// Whether a strategy is currently applied.
    fn is_active(&self) -> (b: bool)
        ensures
            b == self.active(),
    ;
}

/// An engine that records calls and touches nothing: for tests, and for
/// probing without a privileged helper.
pub struct NoopEngine {
    pub active: bool,
    /// The strategies applied so far, in order.
    pub applied: Vec<Strategy>,
    /// The calls received so far.
    pub log: EngineHistory,
}

impl NoopEngine {
    /// Its list of applied strategies is the one its history shows.
    pub open spec fn consistent(&self) -> bool {
        crate::strategy::strategies_view(self.applied@) == applied_of(ops_of(self.log.calls@))
    }
}

impl Default for NoopEngine {
    fn default() -> (r: Self)
        ensures
            !r.active,
            r.applied@.len() == 0,
            r.log.calls@.len() == 0,
            r.consistent(),
    {
        let e = NoopEngine { active: false, applied: Vec::new(), log: EngineHistory::new() };
        assert(ops_of(e.log.calls@) =~= Seq::<EngineOp>::empty());
        assert(crate::strategy::strategies_view(e.applied@) =~= Seq::<StrategyView>::empty());
        e
    }
}

impl Engine for NoopEngine {
    open spec fn active(&self) -> bool {
        self.active
    }

    open spec fn reliable(&self) -> bool {
        true
    }

    open spec fn history(&self) -> EngineHistory {
        self.log
    }

    open spec fn well_formed(&self) -> bool {
        self.consistent()
    }

    /// Records `strategy` and marks the engine active; never fails.
    fn apply(&mut self, strategy: &Strategy, domains: &DomainSet) -> (r: CoreResult<()>)
        ensures
            r is Ok,
            final(self).applied@ == old(self).applied@.push(*strategy),
    {
        let ghost before = ops_of(self.log.calls@);
        self.applied.push(strategy.duplicate());
        self.active = true;
        let r: CoreResult<()> = Ok(());
        self.log = EngineHistory {
            calls: Ghost(self.log.calls@.push(EngineCall { op: EngineOp::Apply(strategy@), result: r })),
        };
        assert(ops_of(self.log.calls@) =~= before.push(EngineOp::Apply(strategy@)));
        assert(ops_of(self.log.calls@).drop_last() =~= before);
        assert(crate::strategy::strategies_view(self.applied@) =~= crate::strategy::strategies_view(
            old(self).applied@,
        ).push(strategy@));
        r
    }

    /// Marks the engine inactive; never fails.
    fn revert(&mut self) -> (r: CoreResult<()>)
        ensures
            r is Ok,
            final(self).applied@ == old(self).applied@,
    {
        let ghost before = ops_of(self.log.calls@);
        self.active = false;
        let r: CoreResult<()> = Ok(());
        self.log = EngineHistory {
            calls: Ghost(self.log.calls@.push(EngineCall { op: EngineOp::Revert, result: r })),
        };
        assert(ops_of(self.log.calls@) =~= before.push(EngineOp::Revert));
        assert(ops_of(self.log.calls@).drop_last() =~= before);
        r
    }

    fn is_active(&self) -> (b: bool) {
        self.active
    }
}

} // verus!
