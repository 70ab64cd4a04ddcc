//! A pool of nodes that is simulated: nodes take time to boot and time to drain.

use vstd::prelude::*;

use crate::forma::{FormaSample, ProvisionReceipt};
use crate::text::decimal_text;

verus! {

/// The phase of a node.
#[derive(Debug, Clone, Copy, PartialEq, Eq, Structural)]
pub enum SimNodePhase {
    /// It boots.
    Provisioning { ticks_remaining: u64 },
    /// It is usable.
    Ready,
    /// It drains, and is no longer usable.
    Draining { ticks_remaining: u64 },
}

impl SimNodePhase {
    /// Whether the node is usable.
    #[must_use]
    pub fn is_capacity(self) -> (r: bool)
        ensures
            r == (self is Ready),
    {
        match self {
            SimNodePhase::Ready => true,
            _ => false,
        }
    }

    /// The phase one tick later; a node that has drained is gone.
    pub open spec fn aged(self) -> Option<SimNodePhase> {
        match self {
            SimNodePhase::Provisioning { ticks_remaining } => if ticks_remaining <= 1 {
                Some(SimNodePhase::Ready)
            } else {
                Some(SimNodePhase::Provisioning { ticks_remaining: (ticks_remaining - 1) as u64 })
            },
            SimNodePhase::Ready => Some(self),
            SimNodePhase::Draining { ticks_remaining } => if ticks_remaining <= 1 {
                None
            } else {
                Some(SimNodePhase::Draining { ticks_remaining: (ticks_remaining - 1) as u64 })
            },
        }
    }

    fn age(self) -> (r: Option<SimNodePhase>)
        ensures
            r == self.aged(),
    {
        match self {
            SimNodePhase::Provisioning { ticks_remaining } => {
                if ticks_remaining <= 1 {
                    Some(SimNodePhase::Ready)
                } else {
                    Some(SimNodePhase::Provisioning { ticks_remaining: ticks_remaining - 1 })
                }
            },
            SimNodePhase::Ready => Some(self),
            SimNodePhase::Draining { ticks_remaining } => {
                if ticks_remaining <= 1 {
                    None
                } else {
                    Some(SimNodePhase::Draining { ticks_remaining: ticks_remaining - 1 })
                }
            },
        }
    }
}

/// The kinds of phases.
#[derive(Debug, Clone, Copy, PartialEq, Eq, Structural)]
pub enum PhaseKind {
    /// Booting.
    Provisioning,
    /// Usable.
    Ready,
    /// Draining.
    Draining,
}

/// The kind of a phase.
pub open spec fn kind_of(phase: SimNodePhase) -> PhaseKind {
    match phase {
        SimNodePhase::Provisioning { .. } => PhaseKind::Provisioning,
        SimNodePhase::Ready => PhaseKind::Ready,
        SimNodePhase::Draining { .. } => PhaseKind::Draining,
    }
}

/// How many nodes are in a phase of the kind.
pub open spec fn count_of(nodes: Seq<SimNodePhase>, kind: PhaseKind) -> nat
    decreases nodes.len(),
{
    if nodes.len() == 0 {
        0
    } else {
        count_of(nodes.drop_last(), kind) + if kind_of(nodes.last()) == kind {
            1nat
        } else {
            0nat
        }
    }
}

/// The nodes one tick later.
pub open spec fn advanced(nodes: Seq<SimNodePhase>) -> Seq<SimNodePhase>
    decreases nodes.len(),
{
    if nodes.len() == 0 {
        Seq::empty()
    } else {
        match nodes.last().aged() {
            Some(p) => advanced(nodes.drop_last()).push(p),
            None => advanced(nodes.drop_last()),
        }
    }
}

/// The nodes after some ticks.
pub open spec fn advanced_by(nodes: Seq<SimNodePhase>, ticks: nat) -> Seq<SimNodePhase>
    decreases ticks,
{
    if ticks == 0 {
        nodes
    } else {
        advanced_by(advanced(nodes), (ticks - 1) as nat)
    }
}

/// The phase of a new node.
pub open spec fn born(boot_ticks: u64) -> SimNodePhase {
    if boot_ticks == 0 {
        SimNodePhase::Ready
    } else {
        SimNodePhase::Provisioning { ticks_remaining: boot_ticks }
    }
}

/// The nodes after `n` of the usable ones were asked to leave, the first of them
/// first; nodes that boot or drain already are left alone.
pub open spec fn drained(nodes: Seq<SimNodePhase>, n: nat, drain_ticks: u64) -> Seq<SimNodePhase>
    decreases nodes.len(),
{
    if nodes.len() == 0 {
        Seq::empty()
    } else if n > 0 && nodes[0] is Ready {
        let rest = drained(nodes.drop_first(), (n - 1) as nat, drain_ticks);
        if drain_ticks == 0 {
            rest
        } else {
            seq![SimNodePhase::Draining { ticks_remaining: drain_ticks }] + rest
        }
    } else {
        seq![nodes[0]] + drained(nodes.drop_first(), n, drain_ticks)
    }
}

/// How many nodes leave when `n` are asked to.
pub open spec fn leaving(nodes: Seq<SimNodePhase>, n: nat) -> nat {
    if n < count_of(nodes, PhaseKind::Ready) {
        n
    } else {
        count_of(nodes, PhaseKind::Ready)
    }
}

/// A simulated pool of nodes.
#[derive(Debug)]
pub struct SimProvedor {
    nodes: Vec<SimNodePhase>,
    demand: u64,
    seq: u64,
    boot_ticks: u64,
    drain_ticks: u64,
}

/// A pool as plain values.
pub struct SimView {
    /// The nodes.
    pub nodes: Seq<SimNodePhase>,
    /// The demand.
    pub demand: u64,
    /// How many changes were made.
    pub changes: u64,
    /// How long a node boots.
    pub boot_ticks: u64,
    /// How long a node drains.
    pub drain_ticks: u64,
}

impl View for SimProvedor {
    type V = SimView;

    closed spec fn view(&self) -> SimView {
        SimView {
            nodes: self.nodes@,
            demand: self.demand,
            changes: self.seq,
            boot_ticks: self.boot_ticks,
            drain_ticks: self.drain_ticks,
        }
    }
}

impl SimProvedor {
    /// A pool's nodes can be counted in a receipt.
    #[verifier::type_invariant]
    spec fn is_countable(self) -> bool {
        self.nodes@.len() <= i64::MAX
    }

    /// A pool of usable nodes.
    #[must_use]
    pub fn new(ready: u64, demand: u64, boot_ticks: u64, drain_ticks: u64) -> (r: Self)
        requires
            ready <= i64::MAX,
        ensures
            r@.nodes == Seq::new(ready as nat, |i: int| SimNodePhase::Ready),
            r@.demand == demand,
            r@.changes == 0,
            r@.boot_ticks == boot_ticks,
            r@.drain_ticks == drain_ticks,
            count_of(r@.nodes, PhaseKind::Ready) == ready,
            count_of(r@.nodes, PhaseKind::Provisioning) == 0,
            count_of(r@.nodes, PhaseKind::Draining) == 0,
    {
        proof {
            a_new_pool_is_usable(ready as nat);
        }
        let mut nodes: Vec<SimNodePhase> = Vec::new();
        let mut i: u64 = 0;
        while i < ready
            invariant
                i <= ready,
                nodes@ == Seq::new(i as nat, |k: int| SimNodePhase::Ready),
            decreases ready - i,
        {
            nodes.push(SimNodePhase::Ready);
            i = i + 1;
            assert(nodes@ =~= Seq::new(i as nat, |k: int| SimNodePhase::Ready));
        }
        SimProvedor { nodes, demand, seq: 0, boot_ticks, drain_ticks }
    }

    /// One tick passes.
    pub fn advance(&mut self)
        ensures
            final(self)@ == (SimView { nodes: advanced(old(self)@.nodes), ..old(self)@ }),
    {
        proof {
            use_type_invariant(&*self);
        }
        let mut nodes: Vec<SimNodePhase> = Vec::new();
        let mut i: usize = 0;
        assert(self.nodes@.take(0) =~= Seq::<SimNodePhase>::empty());
        while i < self.nodes.len()
            invariant
                i <= self.nodes.len(),
                *self == *old(self),
                nodes.len() <= i,
                nodes@ == advanced(self.nodes@.take(i as int)),
            decreases self.nodes.len() - i,
        {
            assert(self.nodes@.take(i + 1).drop_last() =~= self.nodes@.take(i as int));
            match self.nodes[i].age() {
                Some(p) => {
                    nodes.push(p);
                },
                None => {},
            }
            i = i + 1;
        }
        assert(self.nodes@.take(self.nodes@.len() as int) =~= self.nodes@);
        self.nodes = nodes;
    }

    /// The demand changes.
    pub fn set_demand(&mut self, used: u64)
        ensures
            final(self)@ == (SimView { demand: used, ..old(self)@ }),
    {
        proof {
            use_type_invariant(&*self);
        }
        self.demand = used;
    }

    fn count(&self, kind: PhaseKind) -> (r: usize)
        ensures
            r == count_of(self@.nodes, kind),
            r <= self@.nodes.len(),
    {
        let mut n: usize = 0;
        let mut i: usize = 0;
        assert(self.nodes@.take(0) =~= Seq::<SimNodePhase>::empty());
        while i < self.nodes.len()
            invariant
                i <= self.nodes.len(),
                n <= i,
                n == count_of(self.nodes@.take(i as int), kind),
            decreases self.nodes.len() - i,
        {
            assert(self.nodes@.take(i + 1).drop_last() =~= self.nodes@.take(i as int));
            let found = match self.nodes[i] {
                SimNodePhase::Provisioning { .. } => PhaseKind::Provisioning,
                SimNodePhase::Ready => PhaseKind::Ready,
                SimNodePhase::Draining { .. } => PhaseKind::Draining,
            };
            if found == kind {
                n = n + 1;
            }
            i = i + 1;
        }
        assert(self.nodes@.take(self.nodes@.len() as int) =~= self.nodes@);
        n
    }

    /// How many nodes are usable.
    #[must_use]
    pub fn ready_count(&self) -> (r: u64)
        ensures
            r == count_of(self@.nodes, PhaseKind::Ready),
    {
        self.count(PhaseKind::Ready) as u64
    }

    /// How many nodes boot.
    #[must_use]
    pub fn provisioning_count(&self) -> (r: u64)
        ensures
            r == count_of(self@.nodes, PhaseKind::Provisioning),
    {
        self.count(PhaseKind::Provisioning) as u64
    }

    /// How many nodes drain.
    #[must_use]
    pub fn draining_count(&self) -> (r: u64)
        ensures
            r == count_of(self@.nodes, PhaseKind::Draining),
    {
        self.count(PhaseKind::Draining) as u64
    }

    /// What the pool reports: the demand, and how many nodes are usable.
    pub fn observe(&self) -> (r: FormaSample)
        ensures
            r.used == self@.demand,
            r.capacity == count_of(self@.nodes, PhaseKind::Ready),
    {
        FormaSample { used: self.demand, capacity: self.ready_count() }
    }

    /// New nodes are asked for.
    pub fn provision(&mut self, n: u64) -> (r: ProvisionReceipt)
        requires
            old(self)@.nodes.len() + n <= i64::MAX,
            n > 0 ==> old(self)@.changes < u64::MAX,
        ensures
            n == 0 ==> r is NoOp && final(self)@ == old(self)@,
            n > 0 ==> (r matches ProvisionReceipt::Applied { delta, plan_id } && delta == n
                && plan_id@ == "sim:provision:"@ + crate::text::decimal(
                (old(self)@.changes + 1) as nat,
            )) && final(self)@ == (SimView {
                nodes: old(self)@.nodes + Seq::new(
                    n as nat,
                    |i: int| born(old(self)@.boot_ticks),
                ),
                changes: (old(self)@.changes + 1) as u64,
                ..old(self)@
            }),
    {
        if n == 0 {
            return ProvisionReceipt::NoOp;
        }
        let phase = if self.boot_ticks == 0 {
            SimNodePhase::Ready
        } else {
            SimNodePhase::Provisioning { ticks_remaining: self.boot_ticks }
        };
        let ghost before = self.nodes@;
        let mut nodes: Vec<SimNodePhase> = Vec::new();
        std::mem::swap(&mut nodes, &mut self.nodes);
        let mut i: u64 = 0;
        assert(before + Seq::new(0nat, |k: int| phase) =~= before);
        while i < n
            invariant
                i <= n,
                nodes@ == before + Seq::new(i as nat, |k: int| phase),
            decreases n - i,
        {
            nodes.push(phase);
            i = i + 1;
            assert(nodes@ =~= before + Seq::new(i as nat, |k: int| phase));
        }
        self.nodes = nodes;
        assert(Seq::new(n as nat, |k: int| phase) =~= Seq::new(
            n as nat,
            |k: int| born(old(self)@.boot_ticks),
        ));
        self.seq = self.seq + 1;
        let mut plan_id = "sim:provision:".to_owned();
        plan_id.append(decimal_text(self.seq).as_str());
        ProvisionReceipt::Applied { delta: n as i64, plan_id }
    }

    /// Nodes are asked to leave: only usable ones do, and where there is none
    /// nothing changes.
    pub fn deprovision(&mut self, n: u64) -> (r: ProvisionReceipt)
        requires
            leaving(old(self)@.nodes, n as nat) > 0 ==> old(self)@.changes < u64::MAX,
        ensures
            leaving(old(self)@.nodes, n as nat) == 0 ==> r is NoOp && final(self)@ == old(self)@,
            leaving(old(self)@.nodes, n as nat) > 0 ==> (r matches ProvisionReceipt::Applied {
                delta,
                plan_id,
            } && delta == -leaving(old(self)@.nodes, n as nat) && plan_id@ == "sim:deprovision:"@
                + crate::text::decimal((old(self)@.changes + 1) as nat)) && final(self)@ == (
            SimView {
                nodes: drained(old(self)@.nodes, n as nat, old(self)@.drain_ticks),
                changes: (old(self)@.changes + 1) as u64,
                ..old(self)@
            }),
            count_of(final(self)@.nodes, PhaseKind::Ready) == count_of(
                old(self)@.nodes,
                PhaseKind::Ready,
            ) - leaving(old(self)@.nodes, n as nat),
            count_of(final(self)@.nodes, PhaseKind::Provisioning) == count_of(
                old(self)@.nodes,
                PhaseKind::Provisioning,
            ),
    {
        proof {
            use_type_invariant(&*self);
            leaving_is_graceful(self.nodes@, n as nat, self.drain_ticks);
        }
        let mut nodes: Vec<SimNodePhase> = Vec::new();
        let mut released: u64 = 0;
        let mut i: usize = 0;
        let ghost all = self.nodes@;
        proof {
            assert(all.skip(0) =~= all);
            assert(nodes@ + drained(all, n as nat, self.drain_ticks) =~= drained(
                all,
                n as nat,
                self.drain_ticks,
            ));
        }
        while i < self.nodes.len()
            invariant
                i <= self.nodes.len(),
                *self == *old(self),
                all == self.nodes@,
                all.len() <= i64::MAX,
                released <= n,
                released <= i,
                nodes.len() <= i,
                drained(all, n as nat, self.drain_ticks) == nodes@ + drained(
                    all.skip(i as int),
                    (n - released) as nat,
                    self.drain_ticks,
                ),
                leaving(all, n as nat) == released + leaving(
                    all.skip(i as int),
                    (n - released) as nat,
                ),
            decreases self.nodes.len() - i,
        {
            let ghost rest = all.skip(i as int);
            let ghost before = nodes@;
            let ghost budget = (n - released) as nat;
            proof {
                assert(rest[0] == all[i as int]);
                assert(rest.drop_first() =~= all.skip(i + 1));
                lemma_count_front(rest, PhaseKind::Ready);
            }
            let phase = self.nodes[i];
            if released < n && phase.is_capacity() {
                released = released + 1;
                if self.drain_ticks > 0 {
                    let leaves = SimNodePhase::Draining { ticks_remaining: self.drain_ticks };
                    nodes.push(leaves);
                    assert(before + (seq![leaves] + drained(
                        all.skip(i + 1),
                        (budget - 1) as nat,
                        self.drain_ticks,
                    )) =~= nodes@ + drained(
                        all.skip(i + 1),
                        (budget - 1) as nat,
                        self.drain_ticks,
                    ));
                }
            } else {
                nodes.push(phase);
                assert(before + (seq![phase] + drained(all.skip(i + 1), budget, self.drain_ticks))
                    =~= nodes@ + drained(all.skip(i + 1), budget, self.drain_ticks));
            }
            i = i + 1;
        }
        assert(all.skip(all.len() as int) =~= Seq::<SimNodePhase>::empty());
        assert(nodes@ + Seq::<SimNodePhase>::empty() =~= nodes@);
        if released == 0 {
            return ProvisionReceipt::NoOp;
        }
        self.nodes = nodes;
        self.seq = self.seq + 1;
        let mut plan_id = "sim:deprovision:".to_owned();
        plan_id.append(decimal_text(self.seq).as_str());
        ProvisionReceipt::Applied { delta: -(released as i64), plan_id }
    }
}

// ─────────────────────── laws ───────────────────────

proof fn lemma_count_front(nodes: Seq<SimNodePhase>, kind: PhaseKind)
    requires
        nodes.len() > 0,
    ensures
        count_of(nodes, kind) == count_of(nodes.drop_first(), kind) + if kind_of(nodes[0]) == kind {
            1nat
        } else {
            0nat
        },
    decreases nodes.len(),
{
    if nodes.len() > 1 {
        lemma_count_front(nodes.drop_last(), kind);
        assert(nodes.drop_last().drop_first() =~= nodes.drop_first().drop_last());
        assert(nodes.drop_first().last() == nodes.last());
    } else {
        assert(nodes.drop_last() =~= Seq::<SimNodePhase>::empty());
        assert(nodes.drop_first() =~= Seq::<SimNodePhase>::empty());
    }
}

proof fn lemma_count_concat(a: Seq<SimNodePhase>, b: Seq<SimNodePhase>, kind: PhaseKind)
    ensures
        count_of(a + b, kind) == count_of(a, kind) + count_of(b, kind),
    decreases b.len(),
{
    if b.len() == 0 {
        assert(a + b =~= a);
    } else {
        assert((a + b).drop_last() =~= a + b.drop_last());
        lemma_count_concat(a, b.drop_last(), kind);
    }
}

proof fn lemma_advanced_concat(a: Seq<SimNodePhase>, b: Seq<SimNodePhase>)
    ensures
        advanced(a + b) == advanced(a) + advanced(b),
    decreases b.len(),
{
    if b.len() == 0 {
        assert(a + b =~= a);
        assert(advanced(a) + Seq::<SimNodePhase>::empty() =~= advanced(a));
    } else {
        assert((a + b).drop_last() =~= a + b.drop_last());
        lemma_advanced_concat(a, b.drop_last());
        assert(advanced(a + b) =~= advanced(a) + advanced(b));
    }
}

proof fn lemma_advanced_by_concat(a: Seq<SimNodePhase>, b: Seq<SimNodePhase>, ticks: nat)
    ensures
        advanced_by(a + b, ticks) == advanced_by(a, ticks) + advanced_by(b, ticks),
    decreases ticks,
{
    if ticks > 0 {
        lemma_advanced_concat(a, b);
        lemma_advanced_by_concat(advanced(a), advanced(b), (ticks - 1) as nat);
    }
}

proof fn lemma_same_phase_advances(n: nat, phase: SimNodePhase)
    ensures
        advanced(Seq::new(n, |i: int| phase)) == match phase.aged() {
            Some(p) => Seq::new(n, |i: int| p),
            None => Seq::empty(),
        },
    decreases n,
{
    let all = Seq::new(n, |i: int| phase);
    if n > 0 {
        let fewer = Seq::new((n - 1) as nat, |i: int| phase);
        assert(all.drop_last() =~= fewer);
        lemma_same_phase_advances((n - 1) as nat, phase);
        match phase.aged() {
            Some(p) => {
                assert(advanced(all) =~= Seq::new(n, |i: int| p));
            },
            None => {},
        }
    } else {
        match phase.aged() {
            Some(p) => {
                assert(advanced(all) =~= Seq::new(n, |i: int| p));
            },
            None => {},
        }
    }
}

proof fn lemma_count_same(n: nat, phase: SimNodePhase, kind: PhaseKind)
    ensures
        count_of(Seq::new(n, |i: int| phase), kind) == if kind_of(phase) == kind {
            n
        } else {
            0
        },
    decreases n,
{
    if n > 0 {
        assert(Seq::new(n, |i: int| phase).drop_last() =~= Seq::new(
            (n - 1) as nat,
            |i: int| phase,
        ));
        lemma_count_same((n - 1) as nat, phase, kind);
    }
}

proof fn lemma_new_nodes_boot(n: nat, remaining: u64, ticks: nat)
    requires
        remaining > 0,
    ensures
        advanced_by(
            Seq::new(n, |i: int| SimNodePhase::Provisioning { ticks_remaining: remaining }),
            ticks,
        ) == if ticks >= remaining {
            Seq::new(n, |i: int| SimNodePhase::Ready)
        } else {
            Seq::new(
                n,
                |i: int|
                    SimNodePhase::Provisioning { ticks_remaining: (remaining - ticks) as u64 },
            )
        },
    decreases ticks,
{
    let phase = SimNodePhase::Provisioning { ticks_remaining: remaining };
    let all = Seq::new(n, |i: int| phase);
    assert(all =~= Seq::new(
        n,
        |i: int| SimNodePhase::Provisioning { ticks_remaining: remaining },
    ));
    if ticks == 0 {
        assert(all =~= Seq::new(
            n,
            |i: int| SimNodePhase::Provisioning { ticks_remaining: (remaining - ticks) as u64 },
        ));
    } else {
        lemma_same_phase_advances(n, phase);
        if remaining == 1 {
            let ready = Seq::new(n, |i: int| SimNodePhase::Ready);
            assert(advanced(all) =~= ready);
            lemma_ready_stays(n, (ticks - 1) as nat);
        } else {
            let fewer = (remaining - 1) as u64;
            assert(advanced(all) =~= Seq::new(
                n,
                |i: int| SimNodePhase::Provisioning { ticks_remaining: fewer },
            ));
            lemma_new_nodes_boot(n, fewer, (ticks - 1) as nat);
            if ticks < remaining {
                assert(Seq::new(
                    n,
                    |i: int|
                        SimNodePhase::Provisioning {
                            ticks_remaining: (fewer - (ticks - 1)) as u64,
                        },
                ) =~= Seq::new(
                    n,
                    |i: int|
                        SimNodePhase::Provisioning { ticks_remaining: (remaining - ticks) as u64 },
                ));
            }
        }
    }
}

proof fn lemma_ready_stays(n: nat, ticks: nat)
    ensures
        advanced_by(Seq::new(n, |i: int| SimNodePhase::Ready), ticks) == Seq::new(
            n,
            |i: int| SimNodePhase::Ready,
        ),
    decreases ticks,
{
    if ticks > 0 {
        lemma_same_phase_advances(n, SimNodePhase::Ready);
        assert(advanced(Seq::new(n, |i: int| SimNodePhase::Ready)) =~= Seq::new(
            n,
            |i: int| SimNodePhase::Ready,
        ));
        lemma_ready_stays(n, (ticks - 1) as nat);
    }
}

/// Every node of a new pool is usable.
pub proof fn a_new_pool_is_usable(ready: nat)
    ensures
        count_of(Seq::new(ready, |i: int| SimNodePhase::Ready), PhaseKind::Ready) == ready,
        count_of(Seq::new(ready, |i: int| SimNodePhase::Ready), PhaseKind::Provisioning) == 0,
        count_of(Seq::new(ready, |i: int| SimNodePhase::Ready), PhaseKind::Draining) == 0,
{
    lemma_count_same(ready, SimNodePhase::Ready, PhaseKind::Ready);
    lemma_count_same(ready, SimNodePhase::Ready, PhaseKind::Provisioning);
    lemma_count_same(ready, SimNodePhase::Ready, PhaseKind::Draining);
}

/// The nodes that a new pool gains boot until their boot time has passed, and are
/// usable from that tick on; none drains.
pub proof fn a_new_pool_grows_on_time(ready: nat, n: nat, boot_ticks: u64, ticks: nat)
    requires
        boot_ticks >= 1,
    ensures
        ({
            let nodes = advanced_by(
                Seq::new(ready, |i: int| SimNodePhase::Ready) + Seq::new(
                    n,
                    |i: int| born(boot_ticks),
                ),
                ticks,
            );
            &&& count_of(nodes, PhaseKind::Ready) == if ticks >= boot_ticks {
                ready + n
            } else {
                ready
            }
            &&& count_of(nodes, PhaseKind::Provisioning) == if ticks >= boot_ticks {
                0
            } else {
                n
            }
            &&& count_of(nodes, PhaseKind::Draining) == 0
        }),
{
    let old_nodes = Seq::new(ready, |i: int| SimNodePhase::Ready);
    let fresh = Seq::new(n, |i: int| born(boot_ticks));
    lemma_advanced_by_concat(old_nodes, fresh, ticks);
    lemma_ready_stays(ready, ticks);
    a_new_pool_is_usable(ready);
    assert(fresh =~= Seq::new(
        n,
        |i: int| SimNodePhase::Provisioning { ticks_remaining: boot_ticks },
    ));
    lemma_new_nodes_boot(n, boot_ticks, ticks);
    let grown = advanced_by(fresh, ticks);
    let phase = if ticks >= boot_ticks {
        SimNodePhase::Ready
    } else {
        SimNodePhase::Provisioning { ticks_remaining: (boot_ticks - ticks) as u64 }
    };
    assert(grown =~= Seq::new(n, |i: int| phase));
    lemma_count_same(n, phase, PhaseKind::Ready);
    lemma_count_same(n, phase, PhaseKind::Provisioning);
    lemma_count_same(n, phase, PhaseKind::Draining);
    lemma_count_concat(old_nodes, grown, PhaseKind::Ready);
    lemma_count_concat(old_nodes, grown, PhaseKind::Provisioning);
    lemma_count_concat(old_nodes, grown, PhaseKind::Draining);
}

/// New nodes become usable exactly when their boot time has passed, and not a
/// tick before; what the other nodes come to is not touched.
pub proof fn a_new_node_is_capacity_once_it_has_booted(
    nodes: Seq<SimNodePhase>,
    n: nat,
    boot_ticks: u64,
    ticks: nat,
)
    ensures
        count_of(
            advanced_by(nodes + Seq::new(n, |i: int| born(boot_ticks)), ticks),
            PhaseKind::Ready,
        ) == count_of(advanced_by(nodes, ticks), PhaseKind::Ready) + if ticks >= boot_ticks {
            n
        } else {
            0
        },
{
    let fresh = Seq::new(n, |i: int| born(boot_ticks));
    lemma_advanced_by_concat(nodes, fresh, ticks);
    lemma_count_concat(
        advanced_by(nodes, ticks),
        advanced_by(fresh, ticks),
        PhaseKind::Ready,
    );
    if boot_ticks == 0 {
        assert(fresh =~= Seq::new(n, |i: int| SimNodePhase::Ready));
        lemma_ready_stays(n, ticks);
        lemma_count_same(n, SimNodePhase::Ready, PhaseKind::Ready);
    } else {
        assert(fresh =~= Seq::new(
            n,
            |i: int| SimNodePhase::Provisioning { ticks_remaining: boot_ticks },
        ));
        lemma_new_nodes_boot(n, boot_ticks, ticks);
        if ticks >= boot_ticks {
            lemma_count_same(n, SimNodePhase::Ready, PhaseKind::Ready);
        } else {
            let booting = SimNodePhase::Provisioning {
                ticks_remaining: (boot_ticks - ticks) as u64,
            };
            lemma_count_same(n, booting, PhaseKind::Ready);
            assert(advanced_by(fresh, ticks) =~= Seq::new(n, |i: int| booting));
        }
    }
}

/// Asking nodes to leave takes them out of the usable ones at once, never a
/// booting one, and no more than were asked for; with a drain time they drain.
pub proof fn leaving_is_graceful(nodes: Seq<SimNodePhase>, n: nat, drain_ticks: u64)
    ensures
        count_of(drained(nodes, n, drain_ticks), PhaseKind::Ready) == count_of(
            nodes,
            PhaseKind::Ready,
        ) - leaving(nodes, n),
        count_of(drained(nodes, n, drain_ticks), PhaseKind::Provisioning) == count_of(
            nodes,
            PhaseKind::Provisioning,
        ),
        count_of(drained(nodes, n, drain_ticks), PhaseKind::Draining) == count_of(
            nodes,
            PhaseKind::Draining,
        ) + if drain_ticks > 0 {
            leaving(nodes, n)
        } else {
            0
        },
        leaving(nodes, n) <= n,
    decreases nodes.len(),
{
    if nodes.len() > 0 {
        let rest = nodes.drop_first();
        lemma_count_front(nodes, PhaseKind::Ready);
        lemma_count_front(nodes, PhaseKind::Provisioning);
        lemma_count_front(nodes, PhaseKind::Draining);
        if n > 0 && nodes[0] is Ready {
            leaving_is_graceful(rest, (n - 1) as nat, drain_ticks);
            if drain_ticks > 0 {
                lemma_prepend(
                    SimNodePhase::Draining { ticks_remaining: drain_ticks },
                    drained(rest, (n - 1) as nat, drain_ticks),
                );
            }
        } else {
            leaving_is_graceful(rest, n, drain_ticks);
            lemma_prepend(nodes[0], drained(rest, n, drain_ticks));
        }
    }
}

proof fn lemma_prepend(p: SimNodePhase, rest: Seq<SimNodePhase>)
    ensures
        forall|kind: PhaseKind| #[trigger]
            count_of(seq![p] + rest, kind) == count_of(rest, kind) + if kind_of(p) == kind {
                1nat
            } else {
                0nat
            },
{
    assert forall|kind: PhaseKind| #[trigger]
        count_of(seq![p] + rest, kind) == count_of(rest, kind) + if kind_of(p) == kind {
            1nat
        } else {
            0nat
        } by {
        let all = seq![p] + rest;
        lemma_count_front(all, kind);
        assert(all.drop_first() =~= rest);
    }
}

/// A draining node is gone exactly when its drain time has passed, and is never
/// usable again.
pub proof fn a_draining_node_is_gone_once_it_has_drained(remaining: u64, ticks: nat)
    requires
        remaining > 0,
    ensures
        advanced_by(seq![SimNodePhase::Draining { ticks_remaining: remaining }], ticks) == if ticks
            >= remaining {
            Seq::empty()
        } else {
            seq![SimNodePhase::Draining { ticks_remaining: (remaining - ticks) as u64 }]
        },
    decreases ticks,
{
    let one = seq![SimNodePhase::Draining { ticks_remaining: remaining }];
    if ticks > 0 {
        reveal_with_fuel(advanced, 2);
        assert(one.drop_last() =~= Seq::<SimNodePhase>::empty());
        if remaining == 1 {
            assert(advanced(one) =~= Seq::<SimNodePhase>::empty());
            lemma_nothing_stays_nothing((ticks - 1) as nat);
        } else {
            let fewer = seq![SimNodePhase::Draining { ticks_remaining: (remaining - 1) as u64 }];
            assert(advanced(one) =~= fewer);
            a_draining_node_is_gone_once_it_has_drained((remaining - 1) as u64, (ticks - 1) as nat);
        }
    }
}

/// Nodes that leave are gone exactly when their drain time has passed, and not a
/// tick before; no other node is.
pub proof fn leaving_nodes_are_gone_once_they_have_drained(
    nodes: Seq<SimNodePhase>,
    n: nat,
    drain_ticks: u64,
    ticks: nat,
)
    ensures
        advanced_by(drained(nodes, n, drain_ticks), ticks).len() == advanced_by(nodes, ticks).len()
            - if ticks >= drain_ticks {
            leaving(nodes, n)
        } else {
            0
        },
    decreases nodes.len(),
{
    if nodes.len() == 0 {
        assert(nodes =~= Seq::<SimNodePhase>::empty());
    } else {
        let rest = nodes.drop_first();
        lemma_count_front(nodes, PhaseKind::Ready);
        assert(nodes =~= seq![nodes[0]] + rest);
        lemma_advanced_by_concat(seq![nodes[0]], rest, ticks);
        if n > 0 && nodes[0] is Ready {
            let fewer = drained(rest, (n - 1) as nat, drain_ticks);
            leaving_nodes_are_gone_once_they_have_drained(
                rest,
                (n - 1) as nat,
                drain_ticks,
                ticks,
            );
            lemma_ready_stays(1, ticks);
            assert(seq![nodes[0]] =~= Seq::new(1, |i: int| SimNodePhase::Ready));
            if drain_ticks > 0 {
                let leaver = seq![SimNodePhase::Draining { ticks_remaining: drain_ticks }];
                lemma_advanced_by_concat(leaver, fewer, ticks);
                a_draining_node_is_gone_once_it_has_drained(drain_ticks, ticks);
            }
        } else {
            leaving_nodes_are_gone_once_they_have_drained(rest, n, drain_ticks, ticks);
            lemma_advanced_by_concat(seq![nodes[0]], drained(rest, n, drain_ticks), ticks);
        }
    }
}

proof fn lemma_nothing_stays_nothing(ticks: nat)
    ensures
        advanced_by(Seq::<SimNodePhase>::empty(), ticks) == Seq::<SimNodePhase>::empty(),
    decreases ticks,
{
    if ticks > 0 {
        lemma_nothing_stays_nothing((ticks - 1) as nat);
    }
}

/// Each node counts once, in its own phase.
pub proof fn each_node_counts_in_its_phase(nodes: Seq<SimNodePhase>, p: SimNodePhase)
    ensures
        count_of(Seq::empty(), PhaseKind::Ready) == 0,
        count_of(Seq::empty(), PhaseKind::Provisioning) == 0,
        count_of(Seq::empty(), PhaseKind::Draining) == 0,
        count_of(nodes.push(p), PhaseKind::Ready) == count_of(nodes, PhaseKind::Ready) + (if p
            is Ready {
            1int
        } else {
            0
        }),
        count_of(nodes.push(p), PhaseKind::Provisioning) == count_of(nodes, PhaseKind::Provisioning)
            + (if p is Provisioning {
            1int
        } else {
            0
        }),
        count_of(nodes.push(p), PhaseKind::Draining) == count_of(nodes, PhaseKind::Draining) + (if p
            is Draining {
            1int
        } else {
            0
        }),
{
    assert(nodes.push(p).drop_last() =~= nodes);
}

/// As many nodes leave as were asked to, or as are usable where those are fewer.
pub proof fn as_many_leave_as_can(nodes: Seq<SimNodePhase>, n: nat)
    ensures
        n <= count_of(nodes, PhaseKind::Ready) ==> leaving(nodes, n) == n,
        n > count_of(nodes, PhaseKind::Ready) ==> leaving(nodes, n) == count_of(
            nodes,
            PhaseKind::Ready,
        ),
{
}

/// One tick ages each node by itself: a booting node comes a tick nearer to being
/// usable and is so after its last, a usable one stays, a draining one comes a tick
/// nearer to its end and is gone after its last.
pub proof fn a_tick_ages_each_node_by_itself(nodes: Seq<SimNodePhase>, p: SimNodePhase, left: u64)
    ensures
        advanced(Seq::empty()).len() == 0,
        advanced(nodes.push(SimNodePhase::Ready)) == advanced(nodes).push(SimNodePhase::Ready),
        p == (SimNodePhase::Provisioning { ticks_remaining: left }) ==> advanced(nodes.push(p))
            == advanced(nodes).push(
            if left <= 1 {
                SimNodePhase::Ready
            } else {
                SimNodePhase::Provisioning { ticks_remaining: (left - 1) as u64 }
            },
        ),
        p == (SimNodePhase::Draining { ticks_remaining: left }) ==> advanced(nodes.push(p))
            == if left <= 1 {
            advanced(nodes)
        } else {
            advanced(nodes).push(SimNodePhase::Draining { ticks_remaining: (left - 1) as u64 })
        },
{
    assert(nodes.push(p).drop_last() =~= nodes);
    assert(nodes.push(SimNodePhase::Ready).drop_last() =~= nodes);
}

/// The usable nodes leave from the front; a node that boots or drains, or that
/// stands behind those that leave, stays as it is.
pub proof fn nodes_leave_from_the_front(
    p: SimNodePhase,
    nodes: Seq<SimNodePhase>,
    n: nat,
    drain_ticks: u64,
)
    ensures
        ({
            let all = seq![p] + nodes;
            let after = drained(all, n, drain_ticks);
            &&& !(p is Ready) || n == 0 ==> after == seq![p] + drained(nodes, n, drain_ticks)
            &&& p is Ready && n > 0 && drain_ticks == 0 ==> after == drained(
                nodes,
                (n - 1) as nat,
                drain_ticks,
            )
            &&& p is Ready && n > 0 && drain_ticks > 0 ==> after == seq![
                SimNodePhase::Draining { ticks_remaining: drain_ticks },
            ] + drained(nodes, (n - 1) as nat, drain_ticks)
        }),
        drained(Seq::empty(), n, drain_ticks).len() == 0,
{
    let all = seq![p] + nodes;
    assert(all.drop_first() =~= nodes);
}

} // verus!
