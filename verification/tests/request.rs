use std::marker::PhantomData;

use breathe::dimension::Target;
use breathe::gate::{authored_write_gate, legacy_two_state_gate, LiveWitness};
use breathe::layout::{LimitLayout, SsaPatch};
use breathe::manifest::{
    AddressedProposal, CommitOutcome, ManifestCoordinate, NullManifestWriter,
};
use breathe::provider::ProviderError;
use breathe::request::CarveDirection::Shrink;
use breathe::request::{
    block_json_text, plan_request_carve, AdmittedRequest, AllocatableHeadroom,
    ClassPreserved, ClassTransitionBlocked, ClassTransitionProposal, ContainerResources,
    ContentAddr, Decision, Durability, MemoryResizePolicy, PodResources, PreserveError, QosClass,
    QosGap, RequestCarveBlocked, RequestCarveInput, RequestCarvePlan, RequestResource,
    RequestTarget, ResizeLegality, SameClass, SealedCarve, WriterError,
};

fn c(
    name: &str,
    cr: Option<u64>,
    cl: Option<u64>,
    mr: Option<u64>,
    ml: Option<u64>,
) -> ContainerResources {
    ContainerResources {
        name: name.to_owned(),
        cpu_request: cr,
        cpu_limit: cl,
        memory_request: mr,
        memory_limit: ml,
    }
}

#[test]
fn best_effort_is_no_positive_request_and_no_positive_limit() {
    let p = PodResources::new(vec![c("a", None, None, None, None)]);
    assert_eq!(p.qos_class(), QosClass::BestEffort);
}

#[test]
fn zero_quantities_are_absent_not_present() {
    let p = PodResources::new(vec![c("a", Some(0), Some(0), Some(0), Some(0))]);
    assert_eq!(p.qos_class(), QosClass::BestEffort);
}

#[test]
fn guaranteed_needs_both_limits_and_equal_requests_on_every_container() {
    let p = PodResources::new(vec![c("a", Some(200), Some(200), Some(512), Some(512))]);
    assert_eq!(p.qos_class(), QosClass::Guaranteed);
}

#[test]
fn one_unlimited_container_makes_the_whole_pod_burstable() {
    let p = PodResources::new(vec![
        c("a", Some(200), Some(200), Some(512), Some(512)),
        c("sidecar", Some(10), None, Some(64), None),
    ]);
    assert_eq!(p.qos_class(), QosClass::Burstable);
}

#[test]
fn request_below_limit_is_burstable() {
    let p = PodResources::new(vec![c("a", Some(200), Some(200), Some(512), Some(6144))]);
    assert_eq!(p.qos_class(), QosClass::Burstable);
}

fn sui() -> PodResources {
    PodResources::new(vec![c("sui", Some(200), Some(200), Some(512 << 20), Some(6144 << 20))])
}

#[test]
fn the_live_sui_shape_refuses_a_carve_to_the_limit() {
    let sui = sui();
    assert_eq!(sui.qos_class(), QosClass::Burstable);
    let err = ClassPreserved::check(&sui, "sui", RequestResource::Memory, 6144 << 20)
        .expect_err("a carve to the limit must be refused — it silently promotes to Guaranteed");
    match err {
        PreserveError::ClassWouldChange(e) => {
            assert_eq!(e.from, QosClass::Burstable);
            assert_eq!(e.to, QosClass::Guaranteed);
        }
        e @ PreserveError::NoSuchContainer(_) => panic!("expected ClassWouldChange, got {e:?}"),
    }
}

#[test]
fn the_live_sui_shape_admits_a_partial_carve() {
    let w = ClassPreserved::check(&sui(), "sui", RequestResource::Memory, 2048 << 20)
        .expect("a carve strictly below the limit preserves Burstable");
    assert_eq!(w.class(), QosClass::Burstable);
    assert_eq!(w.to(), 2048 << 20);
    assert_eq!(w.from(), Some(512 << 20));
}

#[test]
fn a_per_resource_check_would_have_missed_it() {
    let naive_memory_only_ok = 6144u64 << 20 <= 6144u64 << 20;
    assert!(naive_memory_only_ok, "the naive per-resource test passes");
    assert!(
        ClassPreserved::check(&sui(), "sui", RequestResource::Memory, 6144 << 20).is_err(),
        "the whole-block test refuses it — this is the gap a per-resource check leaves"
    );
}

#[test]
fn a_stale_container_name_is_refused() {
    let p = PodResources::new(vec![c("a", Some(200), Some(400), Some(512), Some(1024))]);
    assert!(matches!(
        ClassPreserved::check(&p, "gone", RequestResource::Memory, 600),
        Err(PreserveError::NoSuchContainer(_))
    ));
}

#[test]
fn a_guaranteed_pod_cannot_be_carved_off_its_class() {
    let p = PodResources::new(vec![c("a", Some(200), Some(200), Some(512), Some(512))]);
    let err = ClassPreserved::check(&p, "a", RequestResource::Memory, 256)
        .expect_err("dropping a Guaranteed pod's request breaks requests==limits");
    match err {
        PreserveError::ClassWouldChange(e) => {
            assert_eq!(e.from, QosClass::Guaranteed);
            assert_eq!(e.to, QosClass::Burstable);
        }
        e @ PreserveError::NoSuchContainer(_) => panic!("expected ClassWouldChange, got {e:?}"),
    }
}

#[test]
fn a_request_above_the_live_limit_has_no_representation() {
    assert!(RequestTarget::new(1024, 512).is_err());
    assert_eq!(RequestTarget::new(512, 512).map(RequestTarget::get), Ok(512));
    assert_eq!(RequestTarget::new(256, 512).map(RequestTarget::get), Ok(256));
}

#[test]
fn allocatable_headroom_admits_and_refuses() {
    let h = AllocatableHeadroom { per_node: 4096, observed_at_epoch: 1 };
    let t = RequestTarget::new(2048, 8192).unwrap();
    assert_eq!(h.admit_target(t, 3).map(AdmittedRequest::get), Ok(2048));

    let too_big = RequestTarget::new(8192, 8192).unwrap();
    assert!(h.admit_target(too_big, 1).is_err());
}

fn t() -> Target {
    Target {
        namespace: "ns".into(),
        name: "n".into(),
        kind: "Deployment".into(),
        api_version: "apps/v1".into(),
        container: None,
        pod_selector: None,
    }
}

#[test]
fn a_transition_that_transitions_nothing_is_refused() {
    let block = || PodResources::new(vec![c("a", Some(200), Some(400), Some(512), Some(1024))]);
    assert!(matches!(
        ClassTransitionProposal::new(t(), &block(), block()),
        Err(SameClass { .. })
    ));
}

#[test]
fn a_real_transition_is_addressed() {
    let observed = PodResources::new(vec![c("a", Some(200), Some(400), Some(512), Some(1024))]);
    let promoted = PodResources::new(vec![c("a", Some(400), Some(400), Some(1024), Some(1024))]);
    let p = ClassTransitionProposal::new(t(), &observed, promoted).expect("Burstable → Guaranteed");
    assert_eq!(p.from, QosClass::Burstable);
    assert_eq!(p.to, QosClass::Guaranteed);
    assert_eq!(p.addr.message().len(), 64, "a BLAKE3 address renders as 64 hex chars");
}

#[test]
fn the_content_address_is_deterministic_and_sensitive() {
    let observed = PodResources::new(vec![c("a", Some(200), Some(400), Some(512), Some(1024))]);
    let g = |m: u64| PodResources::new(vec![c("a", Some(400), Some(400), Some(m), Some(m))]);
    let a = ClassTransitionProposal::new(t(), &observed, g(1024)).unwrap();
    let b = ClassTransitionProposal::new(t(), &observed, g(1024)).unwrap();
    assert_eq!(a.addr, b.addr, "same block ⇒ same address");

    let observed2 = PodResources::new(vec![c("a", Some(200), Some(400), Some(512), Some(2048))]);
    let cdiff = ClassTransitionProposal::new(t(), &observed2, g(2048)).unwrap();
    assert_ne!(a.addr, cdiff.addr, "a different block ⇒ a different address");
}

#[test]
fn the_memory_decrease_rule_applies_on_133_and_lifts_on_134() {
    assert_eq!(
        ResizeLegality::evaluate(33, MemoryResizePolicy::Unset, RequestResource::Memory, Shrink, true),
        ResizeLegality::MemoryDecreaseNeedsRestartPolicy
    );
    assert!(ResizeLegality::evaluate(
        33,
        MemoryResizePolicy::RestartContainer,
        RequestResource::Memory,
        Shrink,
        true
    )
    .is_allowed());
    assert!(ResizeLegality::evaluate(34, MemoryResizePolicy::Unset, RequestResource::Memory, Shrink, true)
        .is_allowed());
    assert!(ResizeLegality::evaluate(33, MemoryResizePolicy::Unset, RequestResource::Memory, Shrink, false)
        .is_allowed());
    assert!(ResizeLegality::evaluate(33, MemoryResizePolicy::Unset, RequestResource::Cpu, Shrink, true)
        .is_allowed());
}

#[test]
fn the_null_writer_refuses_every_proposal() {
    let coord = ManifestCoordinate::new("clusters/isolated/sui.yaml", "sui-request");
    let p = AddressedProposal::carve(&coord, "3Gi", "memory", "sui");
    let gate = authored_write_gate("drzzln: test");
    let w = gate.witness().expect("an authored write resolves Live");
    assert_eq!(NullManifestWriter.propose(w, &p), Err(WriterError::Disabled));
}

/// Tells whether one type converts into another: the inherent constant is seen
/// only where the bound holds, the constant of the trait elsewhere.
struct Conversion<A, B>(PhantomData<(A, B)>);

trait NoConversion {
    const EXISTS: bool = false;
}

impl<A, B> NoConversion for Conversion<A, B> {}

impl<A: Into<B>, B> Conversion<A, B> {
    const EXISTS: bool = true;
}

#[test]
fn a_bare_transition_proposal_cannot_reach_the_durable_door() {
    assert!(Conversion::<u8, u64>::EXISTS, "the probe sees a conversion that exists");
    assert!(!Conversion::<ClassTransitionProposal, AddressedProposal>::EXISTS);
    assert!(!Conversion::<AddressedProposal, SsaPatch>::EXISTS);
    assert!(!Conversion::<AddressedProposal, ClassTransitionProposal>::EXISTS);
    let _door: fn(
        &NullManifestWriter,
        &LiveWitness,
        &AddressedProposal,
    ) -> Result<CommitOutcome, WriterError> = NullManifestWriter::propose;
}

#[test]
fn a_transition_needs_one_marker_per_scalar_or_it_names_the_gap() {
    let observed = PodResources::new(vec![
        c("api", Some(200), Some(400), Some(512), Some(1024)),
        c("sidecar", Some(50), Some(100), Some(64), Some(128)),
    ]);
    let promoted = PodResources::new(vec![
        c("api", Some(400), Some(400), Some(1024), Some(1024)),
        c("sidecar", Some(100), Some(100), Some(128), Some(128)),
    ]);
    let p = ClassTransitionProposal::new(t(), &observed, promoted).expect("Burstable → Guaranteed");

    let only_one = [("api.requests.memory".to_owned(), "sui-request".to_owned())];
    let Err(gap) = AddressedProposal::transition("clusters/isolated/sui.yaml", &p, &only_one) else {
        panic!("one marker cannot address a four-scalar promotion")
    };
    assert_eq!(gap.missing.len(), 3, "each unaddressed scalar is named: {:?}", gap.missing);
    assert!(gap.missing.contains(&"sidecar.requests.memory".to_owned()));
    assert!(gap.message().starts_with("no manifest marker for: api.requests.cpu, "));

    let all: Vec<_> = [
        "api.requests.memory",
        "api.requests.cpu",
        "sidecar.requests.memory",
        "sidecar.requests.cpu",
    ]
    .iter()
    .map(|k| ((*k).to_owned(), (*k).to_owned()))
    .collect();
    let ok = AddressedProposal::transition("clusters/isolated/sui.yaml", &p, &all)
        .expect("full coverage");
    assert_eq!(ok.assignments().len(), 4);
    assert_eq!(ok.assignments()[1].value, "400m", "cpu is written in millicores");
}

/// What a seal with a floor and a ceiling makes of a value.
#[derive(Clone, Copy)]
struct Seal {
    floor: u64,
    ceiling: u64,
}

impl Seal {
    const OPEN: Seal = Seal { floor: 0, ceiling: 0 };

    fn seat(self, decision: &Decision) -> SealedCarve {
        let wanted = decision.seal_seat().unwrap_or(0);
        let raised = wanted.max(self.floor);
        let target = if self.ceiling > 0 { raised.min(self.ceiling) } else { raised };
        SealedCarve { target, seal_bound: target > wanted }
    }
}

struct Fixture {
    observed: PodResources,
    seal: Seal,
    target: Target,
}

impl Fixture {
    fn sui() -> Self {
        Self { observed: sui(), seal: Seal::OPEN, target: t() }
    }

    fn input(&self, decision: Decision, headroom: u64) -> RequestCarveInput<'_> {
        RequestCarveInput {
            target: &self.target,
            container: "sui",
            resource: RequestResource::Memory,
            observed: &self.observed,
            decision,
            sealed: self.seal.seat(&decision),
            headroom: AllocatableHeadroom { per_node: headroom, observed_at_epoch: 1 },
            replicas: 1,
            durability: Durability::Committed,
            qos_target: QosClass::Burstable,
            server_minor: 33,
            memory_resize_policy: MemoryResizePolicy::Unset,
            field_manager: "breathe-request",
        }
    }
}

#[test]
fn a_within_class_grow_plans_an_in_place_carve() {
    let f = Fixture::sui();
    let plan =
        plan_request_carve(&f.input(Decision::Grow { from: 512 << 20, to: 2048 << 20 }, 16 << 30));
    let RequestCarvePlan::InPlace(carve) = plan else { panic!("expected InPlace, got {plan:?}") };

    assert_eq!(carve.from(), 512 << 20);
    assert_eq!(carve.to(), 2048 << 20);
    assert_eq!(carve.patch().value, 2048 << 20);
    assert_eq!(carve.patch().resource, "memory");
    assert_eq!(carve.patch().field_manager, "breathe-request");
    assert!(
        matches!(carve.patch().layout, LimitLayout::PodRequestResize { .. }),
        "a request carve must carry the REQUEST layout, never PodResize"
    );
    assert_eq!(carve.preserved().class(), QosClass::Burstable);
    assert_eq!(carve.preserved().to(), 2048 << 20);
    assert_eq!(carve.preserved().from(), Some(512 << 20));
    assert!(!carve.seal_bound(), "no seal floor was configured, so it cannot have bound");
    assert!(carve.durability_gap(), "a Committed band with no writer must report the gap");
    assert!(RequestCarvePlan::InPlace(carve).writes());
}

#[test]
fn an_ephemeral_carve_reports_no_durability_gap() {
    let f = Fixture::sui();
    let mut i = f.input(Decision::Grow { from: 512 << 20, to: 1024 << 20 }, 16 << 30);
    i.durability = Durability::Ephemeral;
    let RequestCarvePlan::InPlace(carve) = plan_request_carve(&i) else {
        panic!("expected InPlace")
    };
    assert!(!carve.durability_gap(), "an Ephemeral band never claims a durable value");
}

#[test]
fn a_carve_that_would_promote_the_class_is_blocked_not_written() {
    let f = Fixture::sui();
    let plan =
        plan_request_carve(&f.input(Decision::Grow { from: 512 << 20, to: 6144 << 20 }, 16 << 30));
    match plan {
        RequestCarvePlan::Blocked(RequestCarveBlocked::ClassWouldChange(e)) => {
            assert_eq!(e.from, QosClass::Burstable);
            assert_eq!(e.to, QosClass::Guaranteed);
        }
        other => panic!("a class-moving carve must be Blocked, got {other:?}"),
    }
}

#[test]
fn the_class_check_runs_after_every_clamp_not_before() {
    let f = Fixture { seal: Seal { floor: 6144 << 20, ceiling: 6144 << 20 }, ..Fixture::sui() };
    let plan =
        plan_request_carve(&f.input(Decision::Grow { from: 512 << 20, to: 1024 << 20 }, 16 << 30));
    match plan {
        RequestCarvePlan::Blocked(RequestCarveBlocked::ClassWouldChange(e)) => {
            assert_eq!(e.to, QosClass::Guaranteed, "the SEAL pushed it onto the limit");
        }
        other => panic!("expected the post-clamp class check to fire, got {other:?}"),
    }
}

#[test]
fn a_seal_floor_above_the_live_limit_is_blocked_not_clamped() {
    let f = Fixture { seal: Seal { floor: 8192 << 20, ceiling: 0 }, ..Fixture::sui() };
    let plan =
        plan_request_carve(&f.input(Decision::Grow { from: 512 << 20, to: 1024 << 20 }, 32 << 30));
    match plan {
        RequestCarvePlan::Blocked(RequestCarveBlocked::AboveLimit(e)) => {
            assert_eq!(e.proposed, 8192 << 20);
            assert_eq!(e.live_limit, 6144 << 20);
        }
        other => panic!("expected AboveLimit, got {other:?}"),
    }
}

#[test]
fn a_container_with_no_declared_limit_falls_through_to_allocatable() {
    let observed = PodResources::new(vec![c("sui", Some(200), Some(400), Some(256 << 20), None)]);
    let f = Fixture { observed, ..Fixture::sui() };
    let plan =
        plan_request_carve(&f.input(Decision::Grow { from: 256 << 20, to: 1024 << 20 }, 16 << 30));
    let RequestCarvePlan::InPlace(carve) = plan else { panic!("expected InPlace, got {plan:?}") };
    assert_eq!(carve.to(), 1024 << 20);
}

#[test]
fn a_carve_that_would_not_schedule_is_blocked() {
    let f = Fixture::sui();
    let plan =
        plan_request_carve(&f.input(Decision::Grow { from: 512 << 20, to: 2048 << 20 }, 1024 << 20));
    match plan {
        RequestCarvePlan::Blocked(RequestCarveBlocked::WouldNotSchedule(e)) => {
            assert_eq!(e.proposed, 2048 << 20);
            assert_eq!(e.per_node_headroom, 1024 << 20);
        }
        other => panic!("expected WouldNotSchedule, got {other:?}"),
    }
}

#[test]
fn a_shrink_reaching_the_planner_is_refused_for_want_of_evidence() {
    let f = Fixture::sui();
    let plan =
        plan_request_carve(&f.input(Decision::Shrink { from: 512 << 20, to: 256 << 20 }, 16 << 30));
    assert!(
        matches!(
            plan,
            RequestCarvePlan::Blocked(RequestCarveBlocked::ShrinkWithoutEvidence { .. })
        ),
        "lowering a reservation needs RequestShrinkEvidence, which has no constructor: {plan:?}"
    );
    assert!(!plan.writes());
}

#[test]
fn a_withheld_reclaim_is_named_and_a_masked_one_is_honest_about_it() {
    let f = Fixture::sui();
    let named = plan_request_carve(&f.input(
        Decision::ReclaimWithheld { current: 512 << 20, reclaimable: 128 << 20 },
        16 << 30,
    ));
    assert_eq!(
        named,
        RequestCarvePlan::Withheld { current: 512 << 20, reclaimable: Some(128 << 20) }
    );
    let masked =
        plan_request_carve(&f.input(Decision::NoSafeShrink { current: 512 << 20 }, 16 << 30));
    assert_eq!(masked, RequestCarvePlan::Withheld { current: 512 << 20, reclaimable: None });
    assert!(!named.writes() && !masked.writes());
}

#[test]
fn a_best_effort_pod_targeted_at_burstable_yields_a_proposal_not_a_patch() {
    let observed = PodResources::new(vec![c("sui", None, None, None, None)]);
    assert_eq!(observed.qos_class(), QosClass::BestEffort);
    let f = Fixture { observed, ..Fixture::sui() };
    let plan = plan_request_carve(&f.input(Decision::Grow { from: 0, to: 256 << 20 }, 16 << 30));
    match &plan {
        RequestCarvePlan::Transition(p) => {
            assert_eq!(p.from, QosClass::BestEffort);
            assert_eq!(p.to, QosClass::Burstable);
            assert_eq!(p.block.containers[0].memory_request, Some(256 << 20));
        }
        other => panic!("expected a Transition proposal, got {other:?}"),
    }
    assert!(!plan.writes(), "a class transition must NEVER write in place");
    assert_eq!(
        plan.qos_gap(false),
        QosGap::Blocked(ClassTransitionBlocked::NoWriterConfigured)
    );
    assert!(matches!(plan.qos_gap(true), QosGap::PromotionProposed { .. }));
}

#[test]
fn a_promotion_that_would_not_schedule_is_refused_before_it_is_proposed() {
    let observed = PodResources::new(vec![c("sui", None, None, None, None)]);
    let f = Fixture { observed, ..Fixture::sui() };
    let plan = plan_request_carve(&f.input(Decision::Grow { from: 0, to: 4096 << 20 }, 1024 << 20));
    match plan {
        RequestCarvePlan::Blocked(RequestCarveBlocked::WouldNotSchedule(e)) => {
            assert_eq!(e.proposed, 4096 << 20);
        }
        other => panic!("an unschedulable promotion must be refused, got {other:?}"),
    }
    let ok = plan_request_carve(&f.input(Decision::Grow { from: 0, to: 4096 << 20 }, 16 << 30));
    assert!(matches!(ok, RequestCarvePlan::Transition(_)), "got {ok:?}");
}

#[test]
fn promoting_to_guaranteed_sets_every_request_to_its_limit_on_every_container() {
    let observed = PodResources::new(vec![
        c("app", Some(200), Some(400), Some(512), Some(1024)),
        c("sidecar", Some(10), Some(50), Some(64), Some(128)),
    ]);
    let f = Fixture { observed, ..Fixture::sui() };
    let mut i = f.input(Decision::Grow { from: 512, to: 600 }, 1 << 40);
    i.container = "app";
    i.qos_target = QosClass::Guaranteed;
    let RequestCarvePlan::Transition(p) = plan_request_carve(&i) else {
        panic!("expected Transition")
    };
    assert_eq!(p.to, QosClass::Guaranteed);
    assert_eq!(p.block.qos_class(), QosClass::Guaranteed, "the rendered block really is Guaranteed");
    for c in &p.block.containers {
        assert_eq!(c.cpu_request, c.cpu_limit);
        assert_eq!(c.memory_request, c.memory_limit);
    }
}

#[test]
fn guaranteed_is_unreachable_when_any_container_declares_no_limit() {
    let observed = PodResources::new(vec![
        c("app", Some(200), Some(400), Some(512), Some(1024)),
        c("sidecar", Some(10), None, Some(64), None),
    ]);
    let f = Fixture { observed, ..Fixture::sui() };
    let mut i = f.input(Decision::Grow { from: 512, to: 600 }, 1 << 40);
    i.container = "app";
    i.qos_target = QosClass::Guaranteed;
    match plan_request_carve(&i) {
        RequestCarvePlan::Blocked(RequestCarveBlocked::Transition(
            ClassTransitionBlocked::UnreachableFromObserved { detail },
        )) => assert!(
            detail.contains("sidecar"),
            "the reason must NAME the blocking container: {detail}"
        ),
        other => panic!("expected UnreachableFromObserved, got {other:?}"),
    }
}

#[test]
fn an_ephemeral_band_cannot_transition() {
    let observed = PodResources::new(vec![c("sui", None, None, None, None)]);
    let f = Fixture { observed, ..Fixture::sui() };
    let mut i = f.input(Decision::Grow { from: 0, to: 256 << 20 }, 16 << 30);
    i.durability = Durability::Ephemeral;
    assert!(matches!(
        plan_request_carve(&i),
        RequestCarvePlan::Blocked(RequestCarveBlocked::Transition(
            ClassTransitionBlocked::EphemeralCannotTransition
        ))
    ));
}

#[test]
fn a_weakening_qos_target_is_refused() {
    let observed = PodResources::new(vec![c("sui", Some(200), Some(200), Some(512), Some(512))]);
    assert_eq!(observed.qos_class(), QosClass::Guaranteed);
    let f = Fixture { observed, ..Fixture::sui() };
    for weaker in [QosClass::Burstable, QosClass::BestEffort] {
        let mut i = f.input(Decision::Grow { from: 512, to: 600 }, 1 << 40);
        i.qos_target = weaker;
        match plan_request_carve(&i) {
            RequestCarvePlan::Blocked(RequestCarveBlocked::WouldWeakenSeal { observed, target }) => {
                assert_eq!(observed, QosClass::Guaranteed);
                assert_eq!(target, weaker);
            }
            other => panic!("a de-seal to {weaker:?} must be refused, got {other:?}"),
        }
    }
}

#[test]
fn a_stale_container_target_is_blocked() {
    let f = Fixture::sui();
    let mut i = f.input(Decision::Grow { from: 512 << 20, to: 1024 << 20 }, 16 << 30);
    i.container = "gone";
    assert!(matches!(
        plan_request_carve(&i),
        RequestCarvePlan::Blocked(RequestCarveBlocked::NoSuchContainer(_))
    ));
}

#[test]
fn a_non_actionable_decision_holds_without_writing() {
    let f = Fixture::sui();
    for d in [
        Decision::Hold,
        Decision::AtCeiling { current: 512 << 20 },
        Decision::Warmup { current: 512 << 20, observed_for: 1, warmup: 600 },
        Decision::NoLimit,
    ] {
        let plan = plan_request_carve(&f.input(d, 16 << 30));
        assert_eq!(plan, RequestCarvePlan::Hold, "{d:?} must Hold");
        assert!(!plan.writes());
    }
}

#[test]
fn a_carve_that_narrows_back_to_the_current_value_holds() {
    let f = Fixture { seal: Seal { floor: 512 << 20, ceiling: 0 }, ..Fixture::sui() };
    let plan =
        plan_request_carve(&f.input(Decision::Grow { from: 512 << 20, to: 300 << 20 }, 16 << 30));
    assert_eq!(plan, RequestCarvePlan::Hold);
}

#[test]
fn the_sui_cache_pg_shape_plans_a_request_raise() {
    let observed =
        PodResources::new(vec![c("db", Some(100), Some(500), Some(128 << 20), Some(1 << 30))]);
    assert_eq!(observed.qos_class(), QosClass::Burstable);
    let f = Fixture { observed, ..Fixture::sui() };
    let mut i = f.input(Decision::Grow { from: 128 << 20, to: 233 << 20 }, 8 << 30);
    i.container = "db";
    let RequestCarvePlan::InPlace(carve) = plan_request_carve(&i) else {
        panic!("the request band must plan a raise")
    };
    assert!(
        carve.to() > carve.from(),
        "the RESERVATION rises: {} → {}",
        carve.from(),
        carve.to()
    );
    assert!(carve.to() < (1 << 30), "and stays strictly under the never-binding 1Gi limit");
    assert_eq!(carve.preserved().class(), QosClass::Burstable, "the class is untouched");
    assert!(matches!(carve.patch().layout, LimitLayout::PodRequestResize { .. }));
}

#[test]
fn the_two_doors_carry_disjoint_payloads() {
    let observed = PodResources::new(vec![c("a", Some(200), Some(400), Some(512), Some(1024))]);
    let promoted = PodResources::new(vec![c("a", Some(400), Some(400), Some(1024), Some(1024))]);
    let p = ClassTransitionProposal::new(t(), &observed, promoted).unwrap();
    assert_eq!(p.block.containers.len(), 1);
    assert_ne!(p.from, p.to);
}

// ─────────────────────── actuation ───────────────────────

const MI: u64 = 1 << 20;
const GI: u64 = 1 << 30;

/// An actuator that records what it is handed.
#[derive(Default)]
struct MockRequestActuator {
    carves: Vec<(ClassPreserved, SsaPatch)>,
    fails: Option<ProviderError>,
}

impl MockRequestActuator {
    fn resize_in_place(
        &mut self,
        _live: &LiveWitness,
        preserved: &ClassPreserved,
        patch: &SsaPatch,
    ) -> Result<(), ProviderError> {
        if let Some(e) = &self.fails {
            return Err(e.clone());
        }
        self.carves.push((preserved.clone(), patch.clone()));
        Ok(())
    }
}

fn target() -> Target {
    Target {
        namespace: "isolated-build".into(),
        name: "sui-cache-pg".into(),
        kind: "StatefulSet".into(),
        api_version: "apps/v1".into(),
        container: Some("db".into()),
        pod_selector: None,
    }
}

fn observed(request: u64, limit: u64) -> PodResources {
    PodResources::new(vec![c("db", Some(100), Some(500), Some(request), Some(limit))])
}

fn input<'a>(t: &'a Target, obs: &'a PodResources, decision: Decision) -> RequestCarveInput<'a> {
    RequestCarveInput {
        target: t,
        container: "db",
        resource: RequestResource::Memory,
        observed: obs,
        decision,
        sealed: Seal::OPEN.seat(&decision),
        headroom: AllocatableHeadroom { per_node: 8 * GI, observed_at_epoch: 1 },
        replicas: 3,
        durability: Durability::Committed,
        qos_target: QosClass::Burstable,
        server_minor: 33,
        memory_resize_policy: MemoryResizePolicy::Unset,
        field_manager: "breathe-request",
    }
}

#[test]
fn the_sui_cache_pg_shape_is_carved_end_to_end() {
    let t = target();
    let obs = observed(128 * MI, GI);
    let decision = Decision::Grow { from: 128 * MI, to: 233 * MI };
    let RequestCarvePlan::InPlace(carve) = plan_request_carve(&input(&t, &obs, decision)) else {
        panic!("the band must plan a reservation raise")
    };

    let mut actuator = MockRequestActuator::default();
    let gate = authored_write_gate("drzzln: request-band end-to-end");
    let witness = gate.witness().expect("an authored write resolves Live");
    actuator
        .resize_in_place(witness, carve.preserved(), carve.patch())
        .expect("the carve applies");

    assert_eq!(actuator.carves.len(), 1, "exactly one write");
    let (proof, patch) = &actuator.carves[0];
    assert!(matches!(patch.layout, LimitLayout::PodRequestResize { .. }));
    assert_eq!(patch.resource, "memory");
    assert!(patch.value > 128 * MI, "the reservation RISES: {} > {}", patch.value, 128 * MI);
    assert!(patch.value < GI, "and stays under the never-binding limit");
    assert_eq!(patch.target.name, "sui-cache-pg");
    assert_eq!(patch.field_manager, "breathe-request");
    assert_eq!(proof.class(), QosClass::Burstable);
    assert_eq!(proof.to(), patch.value);
    assert_eq!(proof.container(), "db");
    assert!(carve.durability_gap(), "a Committed band with no durable writer must report the gap");
}

#[test]
fn a_shadow_gated_tick_plans_a_carve_and_writes_nothing() {
    let t = target();
    let obs = observed(128 * MI, GI);
    let decision = Decision::Grow { from: 128 * MI, to: 700 * MI };
    let plan = plan_request_carve(&input(&t, &obs, decision));
    assert!(plan.writes(), "the plan itself is a real, actionable carve");

    let actuator = MockRequestActuator::default();
    let gate = legacy_two_state_gate(true, false);
    assert!(gate.is_shadow(), "it resolves shadow");
    assert!(gate.witness().is_none(), "a shadow yields NO witness");
    assert_eq!(actuator.carves.len(), 0, "a shadow tick must record zero writes");
}

#[test]
fn a_class_transition_never_reaches_the_in_place_door() {
    let t = target();
    let obs = PodResources::new(vec![ContainerResources { name: "db".into(), ..Default::default() }]);
    let plan = plan_request_carve(&input(&t, &obs, Decision::Grow { from: 0, to: 256 * MI }));
    let RequestCarvePlan::Transition(proposal) = &plan else {
        panic!("expected a Transition, got {plan:?}")
    };
    assert_eq!(proposal.from, QosClass::BestEffort);
    assert_eq!(proposal.to, QosClass::Burstable);
    assert!(!plan.writes());
    let actuator = MockRequestActuator::default();
    assert_eq!(actuator.carves.len(), 0);
}

#[test]
fn a_carve_past_allocatable_never_reaches_the_actuator() {
    let t = target();
    let obs = observed(128 * MI, 8 * GI);
    let mut i = input(&t, &obs, Decision::Grow { from: 128 * MI, to: 4 * GI });
    i.headroom = AllocatableHeadroom { per_node: GI, observed_at_epoch: 1 };
    let plan = plan_request_carve(&i);
    assert!(!plan.writes(), "expected a refusal, got {plan:?}");
    let actuator = MockRequestActuator::default();
    assert_eq!(actuator.carves.len(), 0);
}

#[test]
fn an_actuation_failure_is_typed_and_never_a_silent_ok() {
    let t = target();
    let obs = observed(128 * MI, GI);
    let decision = Decision::Grow { from: 128 * MI, to: 600 * MI };
    let RequestCarvePlan::InPlace(carve) = plan_request_carve(&input(&t, &obs, decision)) else {
        panic!("expected InPlace")
    };
    let mut actuator = MockRequestActuator {
        fails: Some(ProviderError::ApiTransient("apiserver said no".into())),
        ..Default::default()
    };
    let gate = authored_write_gate("drzzln: failure path");
    let witness = gate.witness().expect("Live");
    let err = actuator
        .resize_in_place(witness, carve.preserved(), carve.patch())
        .expect_err("a failed carve must surface as an error");
    assert!(matches!(err, ProviderError::ApiTransient(_)));
    assert_eq!(actuator.carves.len(), 0, "a failed carve records no write");
}

#[test]
fn the_witness_names_the_exact_change_it_authorizes() {
    let obs = observed(128 * MI, GI);
    let w = ClassPreserved::check(&obs, "db", RequestResource::Memory, 512 * MI)
        .expect("class preserved");
    assert_eq!(w.container(), "db");
    assert_eq!(w.resource(), RequestResource::Memory);
    assert_eq!(w.to(), 512 * MI);
    assert_eq!(w.from(), Some(128 * MI));
}

// ─────────────────────── further cases ───────────────────────

#[test]
fn a_block_is_addressed_by_its_canonical_text() {
    let block = PodResources::new(vec![c("a", Some(400), Some(400), Some(1024), None)]);
    let text = block_json_text(&block);
    assert_eq!(
        ContentAddr::of(text.as_bytes()).as_bytes(),
        blake3::hash(text.as_bytes()).as_bytes()
    );
    let parsed: serde_json::Value = serde_json::from_str(&text).unwrap();
    assert_eq!(parsed.pointer("/containers/0/name").and_then(|v| v.as_str()), Some("a"));
    assert_eq!(
        ContentAddr::of(b"").message(),
        "af1349b9f5f9a1a6a0404dea36dcc9499bcb25c9adc112b7cc9a93cae41f3262"
    );
}

#[test]
fn every_refusal_has_words() {
    let f = Fixture::sui();
    let RequestCarvePlan::Blocked(b) = plan_request_carve(
        &f.input(Decision::Grow { from: 512 << 20, to: 6144 << 20 }, 16 << 30),
    ) else {
        panic!("expected Blocked")
    };
    assert!(b.message().contains("sui"));
    for e in [
        WriterError::Disabled,
        WriterError::OutsideBlastRadius { path: "p".into(), allowed_prefix: "q".into() },
        WriterError::RepoNotClean,
        WriterError::Unanchorable { detail: "d".into() },
        WriterError::Conflict { detail: "d".into() },
        WriterError::Transport { detail: "d".into() },
    ] {
        assert!(!e.message().is_empty());
    }
}

#[test]
fn a_reservation_is_never_lowered_in_place() {
    let f = Fixture::sui();
    let plan = plan_request_carve(&f.input(Decision::Grow { from: 512 << 20, to: 300 << 20 }, 16 << 30));
    assert!(!plan.writes());
    assert_eq!(
        plan,
        RequestCarvePlan::Blocked(RequestCarveBlocked::ShrinkWithoutEvidence {
            from: 512 << 20,
            to: 300 << 20
        })
    );
    let stale = plan_request_carve(&f.input(Decision::Grow { from: 200 << 20, to: 300 << 20 }, 16 << 30));
    assert_eq!(
        stale,
        RequestCarvePlan::Blocked(RequestCarveBlocked::ShrinkWithoutEvidence {
            from: 512 << 20,
            to: 300 << 20
        }),
        "the request held is 512Mi, whatever the decision started from"
    );
}
