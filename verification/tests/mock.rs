use breathe::dimension::{
    DimensionId, Directionality, FieldOwner, Observation, Sample, StorageCapability,
    SuppressedDemand, Target,
};
use breathe::layout::{ApplySemantics, LimitLayout, MetricSource};
use breathe::mock::MockCluster;
use breathe::provider::{
    assigned, Assigning, BandProvider, ClusterRead, ClusterReply, DimensionDescriptor, Observing, ProviderError,
};

struct CpuBand;

impl DimensionDescriptor for CpuBand {
    fn id(&self) -> DimensionId {
        DimensionId::Cpu
    }
    fn directionality(&self) -> Directionality {
        Directionality::Bidirectional
    }
    fn field_manager(&self) -> &'static str {
        "breathe/cpu"
    }
    fn logical_field(&self) -> &'static str {
        "resources.limits.cpu"
    }
    fn resource(&self) -> &'static str {
        "cpu"
    }
    fn semantics(&self) -> ApplySemantics {
        ApplySemantics::Transactional
    }
    fn layout(&self, _target: &Target) -> LimitLayout {
        LimitLayout::PodResize { container: None }
    }
    fn metric_source(&self, target: &Target) -> MetricSource {
        MetricSource::PodMetricsMax {
            resource: "cpu".into(),
            pod_prefix: target.name.clone(),
            selector: None,
        }
    }
    fn suppressed_demand(&self) -> SuppressedDemand {
        SuppressedDemand::CfsThrottling
    }
    fn throttle_source(&self, _target: &Target) -> Option<MetricSource> {
        Some(MetricSource::Prometheus("throttle".into()))
    }
}

fn target() -> Target {
    Target {
        namespace: "ns".into(),
        name: "app".into(),
        kind: "Deployment".into(),
        api_version: "apps/v1".into(),
        container: None,
        pod_selector: None,
    }
}

fn owner() -> FieldOwner {
    FieldOwner { manager: "flux".into(), field: "resources.limits.cpu".into() }
}

fn observe(p: &BandProvider<MockCluster, CpuBand>) -> Result<Observation, ProviderError> {
    let t = target();
    let layout = p.layout_for(&t);
    let c = p.cluster();
    let mut state = p.observe(&t);
    let mut reads = 0;
    while let Some(read) = p.awaited(&state, &t, &layout) {
        reads += 1;
        assert!(reads <= 8, "an observation ends");
        let reply = match &read {
            ClusterRead::Used { source } => ClusterReply::Used(c.read_used(source)),
            ClusterRead::Limit { target, layout, resource } => {
                ClusterReply::Limit(c.read_limit(target, layout, resource))
            }
            ClusterRead::Owners { target, layout, resource, field } => {
                assert_eq!(field, "resources.limits.cpu");
                ClusterReply::Owners(c.field_owners(target, layout, resource, field))
            }
            ClusterRead::RestartFree { target, layout, resource } => {
                ClusterReply::RestartFree(c.read_resize_restart_free(target, layout, resource))
            }
            ClusterRead::RequestFloor { target, layout, resource } => {
                assert_eq!(target, &t);
                assert_eq!(layout, &LimitLayout::PodResize { container: None });
                assert_eq!(resource, "cpu");
                ClusterReply::RequestFloor(c.read_request_floor(target, layout, resource))
            }
            ClusterRead::Restarting { target, layout, resource } => {
                ClusterReply::Restarting(c.read_restarting(target, layout, resource))
            }
            ClusterRead::Storage { target, layout } => {
                ClusterReply::Storage(c.read_storage_capability(target, layout))
            }
        };
        state = state.advance(reply);
    }
    match state {
        Observing::Done(r) => r,
        _ => unreachable!(),
    }
}

#[test]
fn a_plain_cluster_is_stable() {
    let c = MockCluster::new(120, 7, 500, vec![owner()]);
    let throttle = MetricSource::Prometheus("throttle".into());
    assert_eq!(c.read_used(&throttle), Ok(Sample { value: 120, age_secs: 7 }), "no source is set apart yet");
    let p = BandProvider::new(c.with_throttle(0), CpuBand);
    assert_eq!(
        observe(&p),
        Ok(Observation {
            used: 120,
            peak_used: 120,
            capacity: 500,
            owners: vec![owner()],
            staleness_secs: 7,
            memory_shrink_restart_free: false,
            observed_for_secs: u64::MAX,
            request_floor: 0,
            throttle_signal: 0,
            restarting: false,
            storage_capability: None,
        }),
    );
}

#[test]
fn every_answer_set_is_observed() {
    let class = || StorageCapability {
        volume_expansion: true,
        per_volume_metrics: false,
        provisioner: "local-path".into(),
    };
    let c = MockCluster::new(120, 7, 500, vec![])
        .with_throttle(42)
        .with_restarting(true)
        .with_resize_restart_free(true)
        .with_request_floor(100)
        .with_storage_capability(Some(class()));
    let o = observe(&BandProvider::new(c, CpuBand)).unwrap();
    assert_eq!(o.throttle_signal, 42);
    assert!(o.restarting);
    assert!(o.memory_shrink_restart_free);
    assert_eq!(o.request_floor, 100);
    assert_eq!(o.storage_capability, Some(class()));
    assert_eq!(o.used, 120, "the throttle source answers for itself alone");
}

#[test]
fn throttling_is_read_at_the_source_set_for_it() {
    let other = MetricSource::Prometheus("other".into());
    let c = MockCluster::new(120, 7, 500, vec![]).with_throttle_source(other.clone()).with_throttle(9);
    assert_eq!(c.throttle_source, Some(other.clone()), "a source that was set is kept");
    assert_eq!(c.read_used(&other), Ok(Sample { value: 9, age_secs: 0 }));
    assert_eq!(
        c.read_used(&MetricSource::Prometheus("throttle".into())),
        Ok(Sample { value: 120, age_secs: 7 }),
    );
    let pods = |selector: Option<&str>| MetricSource::PodMetricsMax {
        resource: "cpu".into(),
        pod_prefix: "app".into(),
        selector: selector.map(str::to_string),
    };
    let c = c.with_throttle_source(pods(Some("a=b")));
    assert_eq!(c.read_used(&pods(Some("a=b"))).unwrap().value, 9);
    assert_eq!(c.read_used(&pods(Some("a=c"))).unwrap().value, 120);
    assert_eq!(c.read_used(&pods(None)).unwrap().value, 120);
}

#[test]
fn a_dangling_target_is_observed_as_such() {
    let gone = MockCluster::new(0, 0, 0, vec![])
        .with_read_used_error(ProviderError::MetricsMissing)
        .with_read_limit_error(ProviderError::TargetNotFound);
    assert_eq!(observe(&BandProvider::new(gone, CpuBand)), Err(ProviderError::TargetNotFound));
    let idle = MockCluster::new(0, 0, 0, vec![]).with_read_used_error(ProviderError::MetricsMissing);
    assert_eq!(observe(&BandProvider::new(idle, CpuBand)), Err(ProviderError::MetricsMissing));
    let dormant = MockCluster::new(0, 0, 0, vec![]).with_read_used_error(ProviderError::NoTargetPods);
    assert_eq!(observe(&BandProvider::new(dormant, CpuBand)), Err(ProviderError::NoTargetPods));
}

#[test]
fn patches_are_kept_in_order() {
    let mut p = BandProvider::new(MockCluster::new(120, 7, 500, vec![]), CpuBand);
    let t = target();
    for to in [600, 700] {
        let limit = p.cluster().read_limit(&t, &p.layout_for(&t), "cpu");
        match p.assign(&t, to, limit) {
            Assigning::Apply { from, patch } => {
                let receipt = assigned(from, to, p.cluster_mut().apply(&patch)).unwrap();
                assert_eq!((receipt.from, receipt.to), (500, to));
            }
            Assigning::Done(r) => panic!("nothing was applied: {r:?}"),
        }
    }
    let values: Vec<u64> = p.cluster().applied().iter().map(|patch| patch.value).collect();
    assert_eq!(values, vec![600, 700]);
}
