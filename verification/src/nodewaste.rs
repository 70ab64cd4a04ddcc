//! Whether a node earns its cost.

use vstd::prelude::*;

verus! {

/// Below this a node does no cpu work, in thousandths of a core.
pub const IDLE_MILLICPU: u32 = 150;

/// Below this nothing that matters is resident, in percent.
pub const IDLE_MEM_PCT: u32 = 25;

/// How long a node may look idle before it counts: fifteen minutes, in
/// nanoseconds.
pub const IDLE_GRACE: u128 = 900_000_000_000;

/// What a node does.
#[derive(Debug, Clone, Copy, PartialEq, Eq, Structural)]
pub enum Verdict {
    /// It works.
    Working,
    /// Nothing holds it.
    Empty,
    /// Live pods hold it, and neither work nor keep state.
    Idle,
    /// Only pods that are over hold it.
    Stranded,
}

impl Verdict {
    /// The name of the verdict.
    pub open spec fn name(self) -> Seq<char> {
        match self {
            Verdict::Working => "working"@,
            Verdict::Empty => "empty"@,
            Verdict::Idle => "idle"@,
            Verdict::Stranded => "stranded"@,
        }
    }

    /// The node costs money and gives nothing back.
    pub open spec fn wasteful(self) -> bool {
        self is Idle || self is Stranded
    }

    /// Whether the node costs money and gives nothing back.
    #[must_use]
    pub fn is_waste(self) -> (r: bool)
        ensures
            r == self.wasteful(),
    {
        match self {
            Verdict::Idle | Verdict::Stranded => true,
            Verdict::Working | Verdict::Empty => false,
        }
    }

    /// The name of the verdict.
    #[must_use]
    pub fn as_str(self) -> (r: &'static str)
        ensures
            r@ == self.name(),
    {
        match self {
            Verdict::Working => "working",
            Verdict::Empty => "empty",
            Verdict::Idle => "idle",
            Verdict::Stranded => "stranded",
        }
    }
}

/// The phase of a pod.
#[derive(Debug, Clone, Copy, PartialEq, Eq, Structural)]
pub enum Phase {
    /// Its containers run.
    Running,
    /// They are about to.
    Pending,
    /// They ended well.
    Succeeded,
    /// They ended badly.
    Failed,
    /// It is not known.
    Unknown,
}

/// What one pod says of its node.
#[derive(Debug, Clone, Copy, PartialEq, Eq, Structural)]
pub struct PodFact {
    /// It follows nodes, and so holds none.
    pub daemonset: bool,
    /// It keeps data.
    pub stateful: bool,
    /// Its phase.
    pub phase: Phase,
    /// It is being taken down.
    pub terminating: bool,
}

impl PodFact {
    /// The pod could still do something.
    pub open spec fn could_work(self) -> bool {
        !self.terminating && (self.phase is Running || self.phase is Pending
            || self.phase is Unknown)
    }

    /// Whether the pod could still do something.
    #[must_use]
    pub fn is_live(&self) -> (r: bool)
        ensures
            r == self.could_work(),
    {
        if self.terminating {
            return false;
        }
        match self.phase {
            Phase::Running | Phase::Pending | Phase::Unknown => true,
            Phase::Succeeded | Phase::Failed => false,
        }
    }
}

/// What a node's own metrics say.
#[derive(Debug, Clone, Copy, PartialEq, Eq, Structural)]
pub struct NodeUsage {
    /// Its cpu, in thousandths of a core.
    pub millicpu: u32,
    /// Its resident memory, in percent.
    pub mem_pct: u32,
    /// Whether they were measured at all.
    pub known: bool,
}

impl Default for NodeUsage {
    fn default() -> (r: Self)
        ensures
            r == (NodeUsage { millicpu: 0, mem_pct: 0, known: false }),
    {
        NodeUsage { millicpu: 0, mem_pct: 0, known: false }
    }
}

/// Where idling begins.
#[derive(Debug, Clone, Copy, PartialEq, Eq, Structural)]
pub struct Thresholds {
    /// Below this there is no cpu work, in thousandths of a core.
    pub idle_millicpu: u32,
    /// Below this nothing that matters is resident, in percent.
    pub idle_mem_pct: u32,
    /// Up to this age a node is never idle, in nanoseconds.
    pub grace: u128,
}

impl Default for Thresholds {
    fn default() -> (r: Self)
        ensures
            r == (Thresholds {
                idle_millicpu: IDLE_MILLICPU,
                idle_mem_pct: IDLE_MEM_PCT,
                grace: IDLE_GRACE,
            }),
    {
        Thresholds {
            idle_millicpu: IDLE_MILLICPU,
            idle_mem_pct: IDLE_MEM_PCT,
            grace: IDLE_GRACE,
        }
    }
}

/// A verdict, and what it rests on.
#[derive(Debug, Clone, Copy, PartialEq, Eq, Structural)]
pub struct NodeVerdict {
    /// The verdict.
    pub verdict: Verdict,
    /// How many pods hold the node.
    pub holders: usize,
    /// How many of those could still work.
    pub live: usize,
    /// Whether one of those keeps data.
    pub stateful: bool,
    /// What the node's metrics say.
    pub usage: NodeUsage,
}

/// The pods that hold a node: all but those that follow nodes.
pub open spec fn holding(pods: Seq<PodFact>) -> Seq<PodFact> {
    pods.filter(|p: PodFact| !p.daemonset)
}

/// The holders that could still work.
pub open spec fn working(pods: Seq<PodFact>) -> Seq<PodFact> {
    holding(pods).filter(|p: PodFact| p.could_work())
}

/// Some holder keeps data.
pub open spec fn keeps_data(pods: Seq<PodFact>) -> bool {
    exists|i: int| 0 <= i < pods.len() && !(#[trigger] pods[i]).daemonset && pods[i].stateful
}

/// The node looks idle: measured, quiet in cpu and memory, without data, and
/// past its grace.
pub open spec fn looks_idle(
    pods: Seq<PodFact>,
    usage: NodeUsage,
    age: u128,
    t: Thresholds,
) -> bool {
    &&& usage.known
    &&& usage.millicpu < t.idle_millicpu
    &&& usage.mem_pct < t.idle_mem_pct
    &&& !keeps_data(pods)
    &&& age > t.grace
}

/// The verdict on a node.
pub open spec fn verdict_of(
    pods: Seq<PodFact>,
    usage: NodeUsage,
    age: u128,
    t: Thresholds,
) -> Verdict {
    if holding(pods).len() == 0 {
        Verdict::Empty
    } else if working(pods).len() == 0 {
        Verdict::Stranded
    } else if looks_idle(pods, usage, age, t) {
        Verdict::Idle
    } else {
        Verdict::Working
    }
}

proof fn lemma_one_more(pods: Seq<PodFact>, n: int)
    requires
        0 <= n < pods.len(),
    ensures
        holding(pods.take(n + 1)).len() == holding(pods.take(n)).len() + if pods[n].daemonset {
            0int
        } else {
            1int
        },
        working(pods.take(n + 1)).len() == working(pods.take(n)).len() + if !pods[n].daemonset
            && pods[n].could_work() {
            1int
        } else {
            0int
        },
{
    let holds = |p: PodFact| !p.daemonset;
    let works = |p: PodFact| p.could_work();
    assert(pods.take(n + 1).drop_last() =~= pods.take(n));
    reveal(Seq::filter);
    let before = holding(pods.take(n));
    let after = holding(pods.take(n + 1));
    if !pods[n].daemonset {
        assert(after == before.push(pods[n]));
        assert(after.drop_last() =~= before);
        assert(after.filter(works) == if works(pods[n]) {
            before.filter(works).push(pods[n])
        } else {
            before.filter(works)
        });
    }
}

/// Classifies a node by its pods, its metrics, its age in nanoseconds, and the
/// thresholds.
#[must_use]
pub fn classify(pods: &[PodFact], usage: NodeUsage, age: u128, t: Thresholds) -> (r:
    NodeVerdict)
    ensures
        r.verdict == verdict_of(pods@, usage, age, t),
        r.holders == holding(pods@).len(),
        r.live == working(pods@).len(),
        r.stateful == keeps_data(pods@),
        r.usage == usage,
{
    let mut holders: usize = 0;
    let mut live: usize = 0;
    let mut stateful: bool = false;
    let mut i: usize = 0;
    proof {
        reveal(Seq::filter);
        assert(pods@.take(0) =~= Seq::<PodFact>::empty());
        assert(holding(pods@.take(0)) =~= Seq::<PodFact>::empty());
        assert(working(pods@.take(0)) =~= Seq::<PodFact>::empty());
    }
    while i < pods.len()
        invariant
            i <= pods.len(),
            holders <= i,
            live <= i,
            holders == holding(pods@.take(i as int)).len(),
            live == working(pods@.take(i as int)).len(),
            stateful == exists|j: int|
                0 <= j < i && !(#[trigger] pods@[j]).daemonset && pods@[j].stateful,
        decreases pods.len() - i,
    {
        proof {
            lemma_one_more(pods@, i as int);
        }
        let p = &pods[i];
        if !p.daemonset {
            holders = holders + 1;
            if p.is_live() {
                live = live + 1;
            }
            if p.stateful {
                stateful = true;
            }
        }
        i = i + 1;
    }
    assert(pods@.take(pods@.len() as int) =~= pods@);
    let idle: bool = usage.known && usage.millicpu < t.idle_millicpu && usage.mem_pct
        < t.idle_mem_pct && !stateful && age > t.grace;
    let verdict = if holders == 0 {
        Verdict::Empty
    } else if live == 0 {
        Verdict::Stranded
    } else if idle {
        Verdict::Idle
    } else {
        Verdict::Working
    };
    NodeVerdict { verdict, holders, live, stateful, usage }
}

/// A node that holds data, that was not measured, or that is within its grace
/// is never idle, whatever its metrics say.
pub proof fn state_outage_and_youth_are_never_idle(
    pods: Seq<PodFact>,
    usage: NodeUsage,
    age: u128,
    t: Thresholds,
)
    ensures
        keeps_data(pods) ==> !(verdict_of(pods, usage, age, t) is Idle),
        !usage.known ==> !(verdict_of(pods, usage, age, t) is Idle),
        age <= t.grace ==> !(verdict_of(pods, usage, age, t) is Idle),
{
}

/// A node that only pods which follow nodes stand on is empty, and no waste.
pub proof fn a_node_that_nothing_holds_is_no_waste(
    pods: Seq<PodFact>,
    usage: NodeUsage,
    age: u128,
    t: Thresholds,
)
    requires
        forall|i: int| 0 <= i < pods.len() ==> (#[trigger] pods[i]).daemonset,
    ensures
        verdict_of(pods, usage, age, t) is Empty,
        !verdict_of(pods, usage, age, t).wasteful(),
    decreases pods.len(),
{
    reveal(Seq::filter);
    if pods.len() > 0 {
        assert(pods.last().daemonset);
        assert forall|i: int| 0 <= i < pods.drop_last().len() implies (
        #[trigger] pods.drop_last()[i]).daemonset by {
            assert(pods.drop_last()[i] == pods[i]);
        }
        a_node_that_nothing_holds_is_no_waste(pods.drop_last(), usage, age, t);
    }
}

/// A node whose pods are all over or being taken down is waste or empty: what a
/// pod's phase says is no work.
pub proof fn a_node_without_live_pods_never_works(
    pods: Seq<PodFact>,
    usage: NodeUsage,
    age: u128,
    t: Thresholds,
)
    requires
        forall|i: int| 0 <= i < pods.len() ==> !(#[trigger] pods[i]).could_work(),
    ensures
        verdict_of(pods, usage, age, t) is Empty || verdict_of(
            pods,
            usage,
            age,
            t,
        ) is Stranded,
    decreases pods.len(),
{
    lemma_none_works(pods);
}

proof fn lemma_none_works(pods: Seq<PodFact>)
    requires
        forall|i: int| 0 <= i < pods.len() ==> !(#[trigger] pods[i]).could_work(),
    ensures
        working(pods).len() == 0,
    decreases pods.len(),
{
    reveal(Seq::filter);
    if pods.len() > 0 {
        let rest = pods.drop_last();
        assert forall|i: int| 0 <= i < rest.len() implies !(#[trigger] rest[i]).could_work() by {
            assert(rest[i] == pods[i]);
        }
        lemma_none_works(rest);
        lemma_one_more(pods, pods.len() - 1);
        assert(pods.take(pods.len() as int) =~= pods);
        assert(pods.take(pods.len() - 1) =~= rest);
        assert(!pods[pods.len() - 1].could_work());
    }
}

/// Each pod counts once: a pod that follows nodes as nothing, any other as a
/// holder, and as one that could work unless it is being taken down or over.
pub proof fn each_pod_counts_once(pods: Seq<PodFact>, p: PodFact)
    ensures
        holding(Seq::empty()).len() == 0,
        working(Seq::empty()).len() == 0,
        holding(pods.push(p)).len() == holding(pods).len() + if p.daemonset {
            0int
        } else {
            1int
        },
        working(pods.push(p)).len() == working(pods).len() + if p.daemonset || p.terminating
            || p.phase is Succeeded || p.phase is Failed {
            0int
        } else {
            1int
        },
{
    reveal(Seq::filter);
    let more = pods.push(p);
    lemma_one_more(more, pods.len() as int);
    assert(more.take(pods.len() as int) =~= pods);
    assert(more.take(more.len() as int) =~= more);
}

/// A pod holds its node unless it follows nodes, and could work unless it is being
/// taken down or over: there is a holder exactly where the holders are counted
/// above zero, and one that could work exactly where those are.
proof fn lemma_counts_witness(pods: Seq<PodFact>)
    ensures
        holding(pods).len() > 0 <==> exists|i: int|
            0 <= i < pods.len() && !(#[trigger] pods[i]).daemonset,
        working(pods).len() > 0 <==> exists|i: int|
            0 <= i < pods.len() && !(#[trigger] pods[i]).daemonset && !pods[i].terminating && !(
            pods[i].phase is Succeeded) && !(pods[i].phase is Failed),
    decreases pods.len(),
{
    reveal(Seq::filter);
    if pods.len() > 0 {
        let init = pods.drop_last();
        lemma_counts_witness(init);
        each_pod_counts_once(init, pods.last());
        assert(init.push(pods.last()) =~= pods);
        assert forall|i: int| 0 <= i < init.len() implies init[i] == #[trigger] pods[i] by {}
        assert(pods[pods.len() - 1] == pods.last());
        if exists|i: int| 0 <= i < init.len() && !(#[trigger] init[i]).daemonset {
            let i = choose|i: int| 0 <= i < init.len() && !(#[trigger] init[i]).daemonset;
            assert(!pods[i].daemonset);
        }
        if working(init).len() > 0 {
            let i = choose|i: int|
                0 <= i < init.len() && !(#[trigger] init[i]).daemonset && !init[i].terminating && !(
                init[i].phase is Succeeded) && !(init[i].phase is Failed);
            assert(!pods[i].daemonset);
        }
    }
}

/// What a verdict means. A node is empty exactly where every pod on it follows
/// nodes. It is stranded exactly where something holds it, and whatever does is
/// being taken down or over: one holder that could still work is enough for it not
/// to be. It is idle exactly where some holder could still work, no holder keeps
/// data, it was measured below both thresholds, and it is past its grace. Else it
/// works.
pub proof fn a_verdict_means_what_it_says(
    pods: Seq<PodFact>,
    usage: NodeUsage,
    age: u128,
    t: Thresholds,
)
    ensures
        ({
            let v = verdict_of(pods, usage, age, t);
            let some_could_work = exists|i: int|
                0 <= i < pods.len() && !(#[trigger] pods[i]).daemonset && !pods[i].terminating && !(
                pods[i].phase is Succeeded) && !(pods[i].phase is Failed);
            let quiet = usage.known && usage.millicpu < t.idle_millicpu && usage.mem_pct
                < t.idle_mem_pct && age > t.grace && forall|i: int|
                0 <= i < pods.len() && !(#[trigger] pods[i]).daemonset ==> !pods[i].stateful;
            &&& v is Empty <==> forall|i: int| 0 <= i < pods.len() ==> (#[trigger] pods[i]).daemonset
            &&& v is Stranded <==> !some_could_work && exists|i: int|
                0 <= i < pods.len() && !(#[trigger] pods[i]).daemonset
            &&& v is Idle <==> some_could_work && quiet
            &&& v is Working <==> some_could_work && !quiet
            &&& v.wasteful() <==> v is Stranded || v is Idle
        }),
{
    lemma_counts_witness(pods);
}

/// A pod that follows nodes decides nothing.
pub proof fn a_pod_that_follows_nodes_decides_nothing(
    pods: Seq<PodFact>,
    p: PodFact,
    usage: NodeUsage,
    age: u128,
    t: Thresholds,
)
    requires
        p.daemonset,
    ensures
        verdict_of(pods.push(p), usage, age, t) == verdict_of(pods, usage, age, t),
        keeps_data(pods.push(p)) == keeps_data(pods),
{
    each_pod_counts_once(pods, p);
    let more = pods.push(p);
    assert forall|i: int| 0 <= i < pods.len() implies pods[i] == #[trigger] more[i] by {}
    if keeps_data(pods) {
        let i = choose|i: int|
            0 <= i < pods.len() && !(#[trigger] pods[i]).daemonset && pods[i].stateful;
        assert(!more[i].daemonset);
    }
    if keeps_data(more) {
        let i = choose|i: int|
            0 <= i < more.len() && !(#[trigger] more[i]).daemonset && more[i].stateful;
        assert(!pods[i].daemonset);
    }
}

/// More load never makes a node waste that was none, nor a shorter age, nor the
/// loss of its metrics.
pub proof fn more_load_is_never_more_waste(
    pods: Seq<PodFact>,
    usage: NodeUsage,
    busier: NodeUsage,
    age: u128,
    younger: u128,
    t: Thresholds,
)
    requires
        busier.millicpu >= usage.millicpu,
        busier.mem_pct >= usage.mem_pct,
        busier.known ==> usage.known,
        younger <= age,
        verdict_of(pods, busier, younger, t).wasteful(),
    ensures
        verdict_of(pods, usage, age, t) == verdict_of(pods, busier, younger, t),
{
}

} // verus!
