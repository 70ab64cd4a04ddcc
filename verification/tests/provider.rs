use breathe::dimension::{
    DimensionId, Directionality, FieldOwner, Observation, Sample, StorageCapability,
    SuppressedDemand, Target,
};
use breathe::forma::{forma_catalog, forma_spec, Forma, FormaDescriptor, NodeOnDemandDescriptor};
use breathe::layout::{
    setpoint_reachability, ApplySemantics, ClassCooldowns, DisruptionClass, DisruptionPolicy,
    EdgeTier, FillPolicy, HostKnob, LimitLayout, MetricSource, SetpointReachability,
};
use breathe::layout::DisruptionClass::{RestartConditional, RestartFree, RestartRequiring};
use breathe::provider::{
    assigned, AppliedReceipt, Assigning, BandProvider, ClusterReply, DimensionDescriptor,
    Observing, ProviderError,
};

#[test]
fn forma_catalog_covers_the_whole_universe_with_no_duplicates() {
    let all = [
        Forma::NodeOnDemand, Forma::NodeSpot, Forma::ProvisionedIops, Forma::ProvisionedThroughput,
        Forma::DynamoCapacity, Forma::Commitment, Forma::Accelerator, Forma::ServerlessSlot,
        Forma::ZoneCapacity, Forma::EdgePlacement, Forma::LbCapacity, Forma::EgressBandwidth,
        Forma::JitBuilder, Forma::LogIngestion,
    ];
    assert_eq!(forma_catalog().len(), all.len(), "catalog row count == Forma variant count");
    for f in all {
        let spec = forma_spec(f).expect("every Forma has a catalog spec");
        assert_eq!(spec.forma(), f);
        assert!(spec.relief_latency_secs() > 0, "{f:?} has a provisioning dead-time");
        assert!(!spec.unit().is_empty());
    }
    assert_eq!(forma_spec(Forma::Commitment).unwrap().directionality(), Directionality::GrowOnly);
    assert_eq!(forma_spec(Forma::NodeOnDemand).unwrap().directionality(), Directionality::Bidirectional);
    assert_eq!(Forma::JitBuilder.as_str(), "jit-builder");
}

#[test]
fn layouts_classify_by_restart_cost() {
    assert_eq!(LimitLayout::PvcRequest.disruption_class(), DisruptionClass::RestartFree);
    assert_eq!(LimitLayout::Host(HostKnob::ZfsArcMax).disruption_class(), DisruptionClass::RestartFree);
    assert_eq!(LimitLayout::PodResize { container: None }.disruption_class(), DisruptionClass::RestartConditional);
    assert_eq!(LimitLayout::PodTemplate { container: None }.disruption_class(), DisruptionClass::RestartRequiring);
    assert_eq!(LimitLayout::ClusterTopLevel.disruption_class(), DisruptionClass::RestartRequiring);
}

#[test]
fn pod_resize_is_strictly_less_disruptive_than_pod_template() {
    let roll = LimitLayout::PodTemplate { container: Some("app".into()) }.disruption_class();
    let live = LimitLayout::PodResize { container: Some("app".into()) }.disruption_class();
    assert_eq!(roll, DisruptionClass::RestartRequiring);
    assert!(roll.may_restart() && live.may_restart());
    assert_ne!(live, DisruptionClass::RestartRequiring);
}

#[test]
fn edge_tier_is_golden_iff_restart_free() {
    assert!(RestartFree.edge_tier().is_golden());
    assert!(!RestartConditional.edge_tier().is_golden());
    assert!(!RestartRequiring.edge_tier().is_golden());
    assert_eq!(RestartRequiring.edge_tier(), EdgeTier::CeilingCrossing(RestartRequiring));
}

#[test]
fn action_class_is_per_direction_and_per_resource() {
    let resize = LimitLayout::PodResize { container: None };
    assert_eq!(resize.action_class(true, "memory"), RestartFree);
    assert_eq!(resize.action_class(false, "memory"), RestartConditional);
    assert_eq!(resize.action_class(true, "cpu"), RestartFree);
    assert_eq!(resize.action_class(false, "cpu"), RestartFree);
    assert_eq!(LimitLayout::PvcRequest.action_class(false, "storage"), RestartFree);
    assert_eq!(LimitLayout::Host(HostKnob::ZfsArcMax).action_class(false, "memory"), RestartFree);
    assert_eq!(LimitLayout::PodTemplate { container: None }.action_class(true, "memory"), RestartRequiring);
}

#[test]
fn a_change_costs_by_its_direction() {
    let request = LimitLayout::PodRequestResize { container: None };
    assert_eq!(request.action_class(true, "memory"), RestartFree);
    assert_eq!(request.action_class(false, "memory"), RestartConditional);
    assert_eq!(request.action_class(false, "cpu"), RestartFree);
    let replica = LimitLayout::Replica { kind: "Deployment".into() };
    assert_eq!(replica.action_class(true, "cpu"), RestartFree);
    assert_eq!(replica.action_class(false, "cpu"), RestartRequiring);
    for growing in [true, false] {
        assert_eq!(LimitLayout::ClusterTopLevel.action_class(growing, "cpu"), RestartRequiring);
        assert_eq!(LimitLayout::ClusterStorage.action_class(growing, "storage"), RestartFree);
    }
}

#[test]
fn resize_policy_refines_only_the_conditional_shrink() {
    assert_eq!(RestartConditional.refined_by_resize_policy(true), RestartFree);
    assert_eq!(RestartConditional.refined_by_resize_policy(false), RestartConditional);
    assert_eq!(RestartRequiring.refined_by_resize_policy(true), RestartRequiring);
    assert_eq!(RestartFree.refined_by_resize_policy(true), RestartFree);
    let resize = LimitLayout::PodResize { container: None };
    assert_eq!(resize.action_class(false, "memory").refined_by_resize_policy(true), RestartFree);
    assert_eq!(resize.action_class(false, "memory").refined_by_resize_policy(false), RestartConditional);
}

#[test]
fn setpoint_reachability_names_the_golden_paths() {
    assert_eq!(
        setpoint_reachability(&LimitLayout::PodResize { container: None }, Directionality::Bidirectional, "cpu"),
        SetpointReachability::GoldenToSetpoint
    );
    assert_eq!(
        setpoint_reachability(&LimitLayout::PvcRequest, Directionality::GrowOnly, "storage"),
        SetpointReachability::GoldenToSetpoint
    );
    assert_eq!(
        setpoint_reachability(&LimitLayout::PodResize { container: None }, Directionality::Bidirectional, "memory"),
        SetpointReachability::RequiresCrossing {
            ceiling: DisruptionClass::RestartConditional,
            layout: LimitLayout::PodResize { container: None }
        }
    );
    assert!(matches!(
        setpoint_reachability(&LimitLayout::ClusterTopLevel, Directionality::Bidirectional, "memory"),
        SetpointReachability::RequiresCrossing { ceiling: DisruptionClass::RestartRequiring, .. }
    ));
}

#[test]
fn disruption_policy_gates_actions_by_class() {
    assert_eq!(DisruptionPolicy::default(), DisruptionPolicy::RestartFreeOnly);
    assert!(DisruptionPolicy::RestartFreeOnly.permits(RestartFree));
    assert!(!DisruptionPolicy::RestartFreeOnly.permits(RestartConditional));
    assert!(!DisruptionPolicy::RestartFreeOnly.permits(RestartRequiring));
    assert!(DisruptionPolicy::AllowConditional.permits(RestartConditional));
    assert!(!DisruptionPolicy::AllowConditional.permits(RestartRequiring));
    assert!(DisruptionPolicy::AllowRestart.permits(RestartRequiring));
}

#[test]
fn fill_policy_defaults_pack_and_maps_the_scheduler_hint() {
    assert_eq!(FillPolicy::default(), FillPolicy::Pack);
    assert!(FillPolicy::Pack.is_pack());
    assert!(!FillPolicy::Spread.is_pack());
    assert_eq!(FillPolicy::Pack.scheduler_scoring(), "MostAllocated");
    assert_eq!(FillPolicy::Spread.scheduler_scoring(), "LeastAllocated");
    assert_eq!(FillPolicy::Spread.message(), "spread");
}

#[test]
fn seed_descriptor_is_node_on_demand() {
    let d = NodeOnDemandDescriptor;
    assert_eq!(d.forma(), Forma::NodeOnDemand);
    assert_eq!(Forma::NodeOnDemand.as_str(), "node-on-demand");
    assert_eq!(d.unit(), "node");
    assert!(d.relief_latency_secs() > 0, "relief latency must be > 0");
}

// ─────────────────────── further cases ───────────────────────

/// A cluster that answers what it was told to.
struct Answers {
    used: Result<Sample, ProviderError>,
    throttle: Result<Sample, ProviderError>,
    limit: Result<u64, ProviderError>,
}

struct CpuBand;

impl DimensionDescriptor for CpuBand {
    fn id(&self) -> DimensionId {
        DimensionId::Cpu
    }
    fn directionality(&self) -> Directionality {
        Directionality::Bidirectional
    }
    fn field_manager(&self) -> &'static str {
        "breathe/cpu"
    }
    fn logical_field(&self) -> &'static str {
        "resources.limits.cpu"
    }
    fn resource(&self) -> &'static str {
        "cpu"
    }
    fn semantics(&self) -> ApplySemantics {
        ApplySemantics::Transactional
    }
    fn layout(&self, _target: &Target) -> LimitLayout {
        LimitLayout::PodResize { container: None }
    }
    fn metric_source(&self, target: &Target) -> MetricSource {
        MetricSource::PodMetricsMax {
            resource: "cpu".into(),
            pod_prefix: target.name.clone(),
            selector: target.pod_selector.clone(),
        }
    }
    fn suppressed_demand(&self) -> SuppressedDemand {
        SuppressedDemand::CfsThrottling
    }
    fn throttle_source(&self, _target: &Target) -> Option<MetricSource> {
        Some(MetricSource::Prometheus("throttle".into()))
    }
}

fn target(selector: Option<&str>) -> Target {
    Target {
        namespace: "ns".into(),
        name: "app".into(),
        kind: "Deployment".into(),
        api_version: "apps/v1".into(),
        container: None,
        pod_selector: selector.map(str::to_string),
    }
}

fn run(answers: &Answers, target: &Target) -> Result<Observation, ProviderError> {
    let provider = BandProvider::new((), CpuBand);
    let mut state = provider.observe(target);
    loop {
        let reply = match &state {
            Observing::Done(_) => {
                let Observing::Done(r) = state else { unreachable!() };
                return r;
            }
            Observing::Used { .. } => ClusterReply::Used(answers.used.clone()),
            Observing::Throttle { .. } => ClusterReply::Used(answers.throttle.clone()),
            Observing::Existence | Observing::Limit { .. } => {
                ClusterReply::Limit(answers.limit.clone())
            }
            Observing::Owners { .. } => ClusterReply::Owners(Ok(vec![FieldOwner {
                manager: "vpa".into(),
                field: "resources.limits.cpu".into(),
            }])),
            Observing::RestartFree { .. } => ClusterReply::RestartFree(Ok(true)),
            Observing::RequestFloor { .. } => ClusterReply::RequestFloor(Ok(50)),
            Observing::Restarting { .. } => ClusterReply::Restarting(Ok(true)),
            Observing::Storage { .. } => ClusterReply::Storage(Ok(None)),
        };
        state = state.advance(reply);
    }
}

fn sample(value: u64) -> Result<Sample, ProviderError> {
    Ok(Sample { value, age_secs: 4 })
}

#[test]
fn an_observation_gathers_every_answer() {
    let answers = Answers { used: sample(300), throttle: sample(77), limit: Ok(500) };
    let obs = run(&answers, &target(None)).unwrap();
    assert_eq!(obs.used, 300);
    assert_eq!(obs.peak_used, 300);
    assert_eq!(obs.capacity, 500);
    assert_eq!(obs.staleness_secs, 4);
    assert_eq!(obs.owners.len(), 1);
    assert!(obs.memory_shrink_restart_free);
    assert_eq!(obs.request_floor, 50);
    assert_eq!(obs.throttle_signal, 77);
    assert!(obs.restarting);
}

#[test]
fn a_throttle_outage_reads_as_no_throttling() {
    let answers = Answers {
        used: sample(300),
        throttle: Err(ProviderError::MetricsMissing),
        limit: Ok(500),
    };
    assert_eq!(run(&answers, &target(None)).unwrap().throttle_signal, 0);
}

#[test]
fn a_missing_metric_is_told_from_a_missing_target() {
    let missing = || Err(ProviderError::MetricsMissing);
    let gone = Answers {
        used: missing(),
        throttle: sample(0),
        limit: Err(ProviderError::TargetNotFound),
    };
    assert_eq!(run(&gone, &target(None)), Err(ProviderError::TargetNotFound));
    let there = Answers { used: missing(), throttle: sample(0), limit: Ok(500) };
    assert_eq!(run(&there, &target(None)), Err(ProviderError::MetricsMissing));
    assert_eq!(
        run(&gone, &target(Some("app=x"))),
        Err(ProviderError::MetricsMissing),
        "a group found by labels has no owner to look for"
    );
}

#[test]
fn an_assignment_carries_the_value_it_replaces() {
    let provider = BandProvider::new((), CpuBand);
    let t = target(None);
    let Assigning::Apply { from, patch } = provider.assign(&t, 800, Ok(500)) else {
        panic!("a readable limit leads to a write")
    };
    assert_eq!(from, 500);
    assert_eq!(patch.value, 800);
    assert_eq!(patch.field_manager, "breathe/cpu");
    assert_eq!(patch.layout, LimitLayout::PodResize { container: None });
    let done = assigned(from, 800, Ok(AppliedReceipt { source_hash: [7; 16] })).unwrap();
    assert_eq!((done.from, done.to, done.source_hash), (500, 800, [7; 16]));
    let refused = provider.assign(&t, 800, Err(ProviderError::NoCapacityField));
    assert!(matches!(refused, Assigning::Done(Err(ProviderError::NoCapacityField))));
}

#[test]
fn errors_have_words() {
    assert_eq!(
        ProviderError::ApiPermanent("no".into()).message(),
        ProviderError::permanent("no").message()
    );
    for e in [
        ProviderError::TargetNotFound,
        ProviderError::MetricsMissing,
        ProviderError::NoCapacityField,
        ProviderError::NoTargetPods,
        ProviderError::transient("x"),
    ] {
        assert!(!e.message().is_empty());
    }
}

#[test]
fn cooldowns_grow_with_disruption() {
    let c = ClassCooldowns::default();
    assert!(c.well_ordered());
    assert!(c.for_class(DisruptionClass::RestartFree) <= c.for_class(DisruptionClass::RestartRequiring));
    let upside_down = ClassCooldowns { restart_free: 9, restart_conditional: 5, restart_requiring: 1 };
    assert!(!upside_down.well_ordered());
}

#[test]
fn dimensions_are_found_by_their_names_only() {
    for d in DimensionId::ALL {
        assert_eq!(DimensionId::parse(d.as_str()), Some(d));
    }
    assert_eq!(DimensionId::parse("Memory"), None);
    assert_eq!(DimensionId::ALL.iter().filter(|d| d.is_host()).count(), 4);
}

#[test]
fn a_storage_class_needs_both_properties() {
    let cap = |volume_expansion, per_volume_metrics| StorageCapability {
        volume_expansion,
        per_volume_metrics,
        provisioner: "p".into(),
    };
    assert!(cap(true, true).is_supported());
    assert!(!cap(true, false).is_supported());
    assert!(!cap(false, true).is_supported());
}
