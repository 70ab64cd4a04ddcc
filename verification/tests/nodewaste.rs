use breathe::nodewaste::{
    classify, NodeUsage, Phase, PodFact, Thresholds, Verdict, IDLE_GRACE, IDLE_MEM_PCT,
    IDLE_MILLICPU,
};

const SECOND: u128 = 1_000_000_000;
const HOUR: u128 = 3600 * SECOND;

fn pod(phase: Phase) -> PodFact {
    PodFact { daemonset: false, stateful: false, phase, terminating: false }
}
fn busy() -> NodeUsage {
    NodeUsage { millicpu: 7317, mem_pct: 14, known: true }
}
fn quiet() -> NodeUsage {
    NodeUsage { millicpu: 21, mem_pct: 4, known: true }
}

#[test]
fn a_running_but_jobless_runner_is_idle_not_working() {
    let v = classify(&[pod(Phase::Running)], quiet(), 3 * HOUR, Thresholds::default());
    assert_eq!(v.verdict, Verdict::Idle, "pod phase is not evidence of work");
    assert!(v.verdict.is_waste());
}

#[test]
fn a_busy_runner_is_working() {
    let v = classify(&[pod(Phase::Running)], busy(), 3 * HOUR, Thresholds::default());
    assert_eq!(v.verdict, Verdict::Working, "7317m CPU is a build in flight");
}

#[test]
fn a_database_at_low_cpu_is_not_idle() {
    let mut p = pod(Phase::Running);
    p.stateful = true;
    let usage = NodeUsage { millicpu: 38, mem_pct: 40, known: true };
    let v = classify(&[p], usage, 30 * HOUR, Thresholds::default());
    assert_ne!(v.verdict, Verdict::Idle, "a database idles at tens of milliCPU");
}

#[test]
fn high_memory_alone_keeps_a_node_off_the_idle_list() {
    let usage = NodeUsage { millicpu: 31, mem_pct: 70, known: true };
    let v = classify(&[pod(Phase::Running)], usage, 30 * HOUR, Thresholds::default());
    assert_eq!(v.verdict, Verdict::Working, "70% resident is work even at 31m CPU");
}

#[test]
fn daemonset_pods_do_not_hold_a_node() {
    let ds = || PodFact { daemonset: true, stateful: false, phase: Phase::Running, terminating: false };
    let v = classify(&[ds(), ds()], quiet(), 4 * HOUR, Thresholds::default());
    assert_eq!(v.verdict, Verdict::Empty, "a node carrying only DaemonSets is empty");
    assert!(!v.verdict.is_waste(), "an empty node is already leaving; charging it double-books");
}

#[test]
fn a_node_held_only_by_finished_pods_is_stranded() {
    let v = classify(
        &[pod(Phase::Succeeded), pod(Phase::Failed)],
        quiet(),
        30 * HOUR,
        Thresholds::default(),
    );
    assert_eq!(v.verdict, Verdict::Stranded, "only its expiry will ever reap it");
}

#[test]
fn a_pod_stuck_terminating_does_no_work() {
    let mut p = pod(Phase::Running);
    p.terminating = true;
    let v = classify(&[p], quiet(), 12 * HOUR, Thresholds::default());
    assert_eq!(v.verdict, Verdict::Stranded, "a wedged runner does nothing");
}

#[test]
fn a_freshly_started_idle_node_gets_grace() {
    let v = classify(&[pod(Phase::Running)], quiet(), 60 * SECOND, Thresholds::default());
    assert_eq!(v.verdict, Verdict::Working, "a runner idles for seconds before it claims a job");
}

#[test]
fn unmeasured_is_not_idle() {
    let v = classify(&[pod(Phase::Running)], NodeUsage::default(), 30 * HOUR, Thresholds::default());
    assert_eq!(v.verdict, Verdict::Working, "a missing metric must not read as idle");
}

// ─────────────────────── further cases ───────────────────────

#[test]
fn the_thresholds_are_exclusive() {
    let t = Thresholds::default();
    assert_eq!(t.idle_millicpu, IDLE_MILLICPU);
    assert_eq!(t.idle_mem_pct, IDLE_MEM_PCT);
    assert_eq!(t.grace, IDLE_GRACE);
    let at = |cpu, mem, age| {
        let usage = NodeUsage { millicpu: cpu, mem_pct: mem, known: true };
        classify(&[pod(Phase::Running)], usage, age, Thresholds::default()).verdict
    };
    assert_eq!(at(149, 24, IDLE_GRACE + 1), Verdict::Idle);
    assert_eq!(at(150, 24, IDLE_GRACE + 1), Verdict::Working);
    assert_eq!(at(149, 25, IDLE_GRACE + 1), Verdict::Working);
    assert_eq!(at(149, 24, IDLE_GRACE), Verdict::Working);
}

#[test]
fn a_verdict_counts_what_it_saw() {
    let pods = [pod(Phase::Running), pod(Phase::Succeeded), pod(Phase::Pending)];
    let v = classify(&pods, busy(), HOUR, Thresholds::default());
    assert_eq!(v.holders, 3);
    assert!(!v.stateful);
    assert_eq!(v.usage, busy());
}

#[test]
fn an_empty_node_needs_no_metrics() {
    let v = classify(&[], NodeUsage::default(), 0, Thresholds::default());
    assert_eq!(v.verdict, Verdict::Empty);
    assert_eq!(v.verdict.as_str(), "empty");
    assert_eq!(v.live, 0);
}
