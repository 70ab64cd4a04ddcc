use std::collections::{BTreeMap, VecDeque};
use std::sync::Mutex;

use breathe::dimension::{DimensionId, Directionality, Observation, Target};
use breathe::host::{
    cpu_millicores, find_psi_avg10, finished_command, io_rate_per_sec, parse_arcstats_row,
    parse_cpu_quota_usec, parse_cpu_usage_nsec, parse_io_max_for_device, parse_memory_current,
    parse_meminfo_field, parse_sysfs_u64, parse_unit_number, parse_unit_text, psi_path, set_args,
    show_args, sysctl_path, zfs_param_path, HostError, SystemdSysfsEnv, ZFS_ARC_MAX_PATH,
};
use breathe::host_cluster::{
    io_sample, new_cpu_sample_cache, ArcDescriptor, CgroupCpuDescriptor, CgroupMemoryDescriptor,
    HostCluster, HostEnvironment, HostParamDescriptor, NodeEnvelopes,
};
use breathe::layout::{
    CgroupDriver, HostKnob, HostMetric, IoMaxField, LimitLayout, MetricSource, PsiKind,
    PsiResource, SsaPatch,
};
use breathe::provider::{
    BandProvider, ClusterReply, DimensionDescriptor, Observing, ProviderError,
};
use breathe::text_map::TextMap;

const GI: u64 = 1024 * 1024 * 1024;

/// A programmable host that records every write.
#[derive(Default)]
struct MockHostEnv {
    arc_size: u64,
    sysfs: BTreeMap<String, u64>,
    cgroup_current: BTreeMap<String, u64>,
    unit_property: BTreeMap<(String, String), Option<u64>>,
    unit_property_str: BTreeMap<(String, String), String>,
    writes: Vec<(String, u64)>,
    cpu_usage_nsec: Mutex<VecDeque<u64>>,
    str_writes: Vec<(String, String)>,
    arcstats: BTreeMap<String, u64>,
    meminfo: BTreeMap<String, u64>,
    psi: BTreeMap<(String, String), u64>,
}

impl MockHostEnv {
    fn writes(&self) -> Vec<(String, u64)> {
        self.writes.clone()
    }
    fn str_writes(&self) -> Vec<(String, String)> {
        self.str_writes.clone()
    }
}

impl HostEnvironment for MockHostEnv {
    fn read_arcstats_size(&self) -> Result<u64, HostError> {
        Ok(self.arc_size)
    }
    fn read_sysfs_u64(&self, path: &str) -> Result<u64, HostError> {
        Ok(self.sysfs.get(path).copied().unwrap_or(0))
    }
    fn write_sysfs_u64(&mut self, path: &str, value: u64) -> Result<(), HostError> {
        self.sysfs.insert(path.to_string(), value);
        self.writes.push((path.to_string(), value));
        Ok(())
    }
    fn read_cgroup_memory_current(&self, unit: &str) -> Result<u64, HostError> {
        Ok(self.cgroup_current.get(unit).copied().unwrap_or(0))
    }
    fn read_unit_property_u64(&self, unit: &str, property: &str) -> Result<Option<u64>, HostError> {
        Ok(self.unit_property.get(&(unit.to_string(), property.to_string())).copied().flatten())
    }
    fn set_unit_property_u64(&mut self, unit: &str, property: &str, value: u64) -> Result<(), HostError> {
        self.writes.push((format!("{unit}:{property}"), value));
        Ok(())
    }
    fn read_cpu_usage_nsec(&self, _unit: &str) -> Result<u64, HostError> {
        self.cpu_usage_nsec
            .lock()
            .unwrap()
            .pop_front()
            .ok_or_else(|| HostError::Parse("no CPUUsageNSec queued".into()))
    }
    fn read_unit_property_str(&self, unit: &str, property: &str) -> Result<Option<String>, HostError> {
        Ok(self.unit_property_str.get(&(unit.to_string(), property.to_string())).cloned())
    }
    fn set_unit_property_str(&mut self, unit: &str, property: &str, value: &str) -> Result<(), HostError> {
        self.str_writes.push((format!("{unit}:{property}"), value.to_string()));
        Ok(())
    }
    fn read_arcstats_row(&self, row: &str) -> Result<u64, HostError> {
        self.arcstats.get(row).copied().ok_or_else(|| HostError::Parse("no such arcstats row".into()))
    }
    fn read_meminfo_field(&self, field: &str) -> Result<u64, HostError> {
        self.meminfo.get(field).copied().ok_or_else(|| HostError::Parse("no such meminfo field".into()))
    }
    fn read_psi_avg10(&self, resource: &str, kind: &str) -> Result<u64, HostError> {
        self.psi
            .get(&(resource.to_string(), kind.to_string()))
            .copied()
            .ok_or_else(|| HostError::Parse("no such PSI".into()))
    }
}

fn envelopes() -> NodeEnvelopes {
    let mut cgroup = TextMap::new();
    cgroup.insert("nix-daemon.service".to_string(), 12 * GI);
    let mut cpu = TextMap::new();
    cpu.insert("nix-daemon.service".to_string(), 8000);
    NodeEnvelopes { arc_max_bytes: 6 * GI, cgroup_max_bytes: cgroup, cgroup_cpu_max_millicores: cpu }
}

fn node_target() -> Target {
    Target {
        namespace: String::new(),
        name: "rio".into(),
        kind: "Node".into(),
        api_version: String::new(),
        container: None,
        pod_selector: None,
    }
}

fn unit_target(unit: &str) -> Target {
    Target {
        namespace: String::new(),
        name: unit.into(),
        kind: "HostUnit".into(),
        api_version: String::new(),
        container: None,
        pod_selector: None,
    }
}

/// Observes a target: every reply comes from the host cluster, and what a host
/// has no notion of is answered as absent.
fn observed<D: DimensionDescriptor>(
    provider: &mut BandProvider<HostCluster<MockHostEnv>, D>,
    target: &Target,
) -> Result<Observation, ProviderError> {
    let layout = provider.layout_for(target);
    let resource = provider.resource_key().to_string();
    let field = provider.descriptor().logical_field();
    let mut state = provider.observe(target);
    loop {
        let reply = match &state {
            Observing::Done(_) => {
                let Observing::Done(r) = state else { unreachable!() };
                return r;
            }
            Observing::Used { source, .. } | Observing::Throttle { source, .. } => {
                ClusterReply::Used(provider.cluster_mut().read_used(source, 0))
            }
            Observing::Existence | Observing::Limit { .. } => {
                ClusterReply::Limit(provider.cluster().read_limit(target, &layout, &resource))
            }
            Observing::Owners { .. } => ClusterReply::Owners(
                provider.cluster().field_owners(target, &layout, &resource, field),
            ),
            Observing::RestartFree { .. } => ClusterReply::RestartFree(Ok(false)),
            Observing::RequestFloor { .. } => ClusterReply::RequestFloor(Ok(0)),
            Observing::Restarting { .. } => ClusterReply::Restarting(Ok(false)),
            Observing::Storage { .. } => ClusterReply::Storage(Ok(None)),
        };
        state = state.advance(reply);
    }
}

#[test]
fn pr2_path_helpers_map_keys_to_procfs_sysfs() {
    assert_eq!(sysctl_path("vm.dirty_bytes"), "/proc/sys/vm/dirty_bytes");
    assert_eq!(sysctl_path("net.core.rmem_max"), "/proc/sys/net/core/rmem_max");
    assert_eq!(zfs_param_path("zfs_arc_min"), "/sys/module/zfs/parameters/zfs_arc_min");
}

#[test]
fn pr2_sysctl_and_zfsparam_keystones_read_and_write_via_generic_arms() {
    let mut env = MockHostEnv::default();
    env.sysfs.insert(sysctl_path("vm.dirty_bytes"), 200 * GI / 1024);
    env.sysfs.insert(zfs_param_path("zfs_arc_min"), GI);
    let mut cluster = HostCluster::new(env, envelopes(), true);

    let dirty = cluster
        .read_limit(
            &node_target(),
            &LimitLayout::Host(HostKnob::Sysctl { key: "vm.dirty_bytes".into() }),
            "memory",
        )
        .unwrap();
    assert_eq!(dirty, 200 * GI / 1024);
    let arc_min = cluster
        .read_limit(
            &node_target(),
            &LimitLayout::Host(HostKnob::ZfsParam { param: "zfs_arc_min".into() }),
            "memory",
        )
        .unwrap();
    assert_eq!(arc_min, GI);

    let patch = SsaPatch {
        target: node_target(),
        field_manager: "breathe/sysctl".into(),
        layout: LimitLayout::Host(HostKnob::Sysctl { key: "vm.dirty_bytes".into() }),
        resource: "memory".into(),
        value: 256 * GI / 1024,
    };
    cluster.apply(&patch).unwrap();
    assert!(
        cluster
            .env()
            .writes()
            .iter()
            .any(|(p, v)| p == &sysctl_path("vm.dirty_bytes") && *v == 256 * GI / 1024),
        "the generic Sysctl arm wrote the mapped procfs path"
    );
}

#[test]
fn pr2_generic_metrics_read_arcstats_rows_and_meminfo_fields() {
    let mut env = MockHostEnv::default();
    env.arcstats.insert("dnode_size".into(), 64 * GI / 1024);
    env.meminfo.insert("Dirty".into(), 50 * GI / 1024);
    let mut cluster = HostCluster::shadow(env, envelopes());
    let dnode = cluster
        .read_used(&MetricSource::Host(HostMetric::ArcKstat { row: "dnode_size".into() }), 0)
        .unwrap();
    assert_eq!(dnode.value, 64 * GI / 1024);
    let dirty = cluster
        .read_used(&MetricSource::Host(HostMetric::MeminfoField { field: "Dirty".into() }), 0)
        .unwrap();
    assert_eq!(dirty.value, 50 * GI / 1024);
}

#[test]
fn pr3_psi_metric_reads_the_stall_signal() {
    let mut env = MockHostEnv::default();
    env.psi.insert(("io".into(), "some".into()), 1234);
    let mut cluster = HostCluster::shadow(env, envelopes());
    let s = cluster
        .read_used(
            &MetricSource::Host(HostMetric::Psi {
                resource: PsiResource::Io,
                kind: PsiKind::SomeTasks,
            }),
            0,
        )
        .unwrap();
    assert_eq!(s.value, 1234, "PSI avg10 ×100 is the throttle signal");
    assert_eq!(PsiResource::Memory.as_str(), "memory");
    assert_eq!(PsiKind::Full.as_str(), "full");
    assert_eq!(psi_path("io"), "/proc/pressure/io");
}

#[test]
fn pr4_io_helpers_parse_per_device_caps_and_compute_rates() {
    assert_eq!(parse_io_max_for_device("8:0 10000000 259:0 50000000", "259:0"), Some(50_000_000));
    assert_eq!(parse_io_max_for_device("8:0 10000000", "259:0"), None);
    assert_eq!(io_rate_per_sec(100_000_000, 1_000_000_000), 100_000_000);
    assert_eq!(io_rate_per_sec(5, 0), 0);
    assert_eq!(IoMaxField::Wbps.cap_property(), "IOWriteBandwidthMax");
    assert_eq!(IoMaxField::Wbps.counter_property(), "IOWriteBytes");
    assert_eq!(IoMaxField::Riops.cap_property(), "IOReadIOPSMax");
    assert_eq!(IoMaxField::Riops.counter_property(), "IOReadOperations");
}

#[test]
fn pr4_cgroup_io_max_reads_per_device_cap_and_writes_it() {
    let mut env = MockHostEnv::default();
    env.unit_property_str.insert(
        ("nix-daemon.service".into(), "IOWriteBandwidthMax".into()),
        "8:0 10000000 259:0 50000000".into(),
    );
    let mut cluster = HostCluster::new(env, envelopes(), true);
    let knob = HostKnob::CgroupIoMax {
        unit: "nix-daemon.service".into(),
        device: "259:0".into(),
        field: IoMaxField::Wbps,
    };
    let v = cluster
        .read_limit(
            &unit_target("nix-daemon.service"),
            &LimitLayout::Host(knob.clone()),
            "memory",
        )
        .unwrap();
    assert_eq!(v, 50_000_000, "reads OUR device's wbps cap");
    let patch = SsaPatch {
        target: unit_target("nix-daemon.service"),
        field_manager: "breathe/io".into(),
        layout: LimitLayout::Host(knob),
        resource: "memory".into(),
        value: 40_000_000,
    };
    cluster.apply(&patch).unwrap();
    assert!(
        cluster
            .env()
            .str_writes()
            .iter()
            .any(|(p, v)| p == "nix-daemon.service:IOWriteBandwidthMax" && v == "259:0 40000000"),
        "wrote the per-device wbps cap"
    );
}

#[test]
fn host_param_sysctl_band_observes_and_decides_through_the_generic_descriptor() {
    let mut env = MockHostEnv::default();
    env.meminfo.insert("Dirty".into(), 180 * GI / 1024);
    env.sysfs.insert(sysctl_path("vm.dirty_bytes"), 200 * GI / 1024);
    let desc = HostParamDescriptor::sysctl("vm.dirty_bytes", "Dirty", Directionality::Bidirectional);
    assert_eq!(desc.id(), DimensionId::HostParam);
    assert_eq!(desc.directionality(), Directionality::Bidirectional);
    let mut provider = BandProvider::new(HostCluster::shadow(env, envelopes()), desc);
    let obs = observed(&mut provider, &node_target()).unwrap();
    assert_eq!(obs.used, 180 * GI / 1024);
    assert_eq!(obs.capacity, 200 * GI / 1024, "capacity = the live sysctl value");
    assert!(obs.owners.is_empty(), "host levers have no competing owner");
}

#[test]
fn host_param_zfs_band_can_restrict_directionality_to_grow_only() {
    let desc = HostParamDescriptor::zfs_param("zfs_arc_min", "arc_meta_min", Directionality::GrowOnly);
    assert_eq!(desc.directionality(), Directionality::GrowOnly);
    assert!(matches!(desc.layout(&node_target()), LimitLayout::Host(HostKnob::ZfsParam { .. })));
}

#[test]
fn arc_observe_reads_size_and_current_cap_through_the_generic_provider() {
    let mut env = MockHostEnv { arc_size: 5 * GI, ..Default::default() };
    env.sysfs.insert(ZFS_ARC_MAX_PATH.to_string(), 6 * GI);
    let mut provider = BandProvider::new(HostCluster::shadow(env, envelopes()), ArcDescriptor);
    let obs = observed(&mut provider, &node_target()).unwrap();
    assert_eq!(obs.used, 5 * GI);
    assert_eq!(obs.capacity, 6 * GI);
    assert!(obs.owners.is_empty(), "host levers have no competing owner");
}

fn arc_patch(value: u64) -> SsaPatch {
    SsaPatch {
        target: node_target(),
        field_manager: "breathe/arc".into(),
        layout: LimitLayout::Host(HostKnob::ZfsArcMax),
        resource: "memory".into(),
        value,
    }
}

#[test]
fn shadow_mode_decides_but_writes_nothing() {
    let mut env = MockHostEnv { arc_size: 3 * GI, ..Default::default() };
    env.sysfs.insert(ZFS_ARC_MAX_PATH.to_string(), 6 * GI);
    let mut cluster = HostCluster::shadow(env, envelopes());
    cluster.apply(&arc_patch(4 * GI)).unwrap();
    assert!(cluster.env().writes().is_empty(), "shadow mode must not write the host");
}

#[test]
fn live_mode_writes_within_ceiling() {
    let mut cluster = HostCluster::new(MockHostEnv::default(), envelopes(), true);
    cluster.apply(&arc_patch(4 * GI)).unwrap();
    assert_eq!(cluster.env().writes(), vec![(ZFS_ARC_MAX_PATH.to_string(), 4 * GI)]);
}

#[test]
fn the_second_safety_wall_refuses_over_ceiling_and_writes_nothing() {
    let mut cluster = HostCluster::new(MockHostEnv::default(), envelopes(), true);
    let err = cluster.apply(&arc_patch(8 * GI)).unwrap_err();
    assert!(matches!(err, ProviderError::ApiPermanent(_)), "over-ceiling host write must be refused");
    assert!(cluster.env().writes().is_empty(), "a refused write must not touch the host");
}

#[test]
fn cgroup_descriptor_addresses_the_unit_from_the_target() {
    let d = CgroupMemoryDescriptor;
    let t = unit_target("nix-daemon.service");
    match d.layout(&t) {
        LimitLayout::Host(HostKnob::CgroupProperty { unit, property }) => {
            assert_eq!(unit, "nix-daemon.service");
            assert_eq!(property, "MemoryHigh");
        }
        other => panic!("expected a cgroup MemoryHigh lever, got {other:?}"),
    }
    match d.metric_source(&t) {
        MetricSource::Host(HostMetric::CgroupMemoryCurrent { unit }) => {
            assert_eq!(unit, "nix-daemon.service");
        }
        other => panic!("expected cgroup memory.current, got {other:?}"),
    }
}

#[test]
fn unbounded_memory_high_reads_as_the_l2_ceiling() {
    let cluster = HostCluster::shadow(MockHostEnv::default(), envelopes());
    let layout = LimitLayout::Host(HostKnob::CgroupProperty {
        unit: "nix-daemon.service".into(),
        property: "MemoryHigh".into(),
    });
    let cap = cluster.read_limit(&unit_target("nix-daemon.service"), &layout, "memory").unwrap();
    assert_eq!(cap, 12 * GI, "unbounded MemoryHigh ⇒ the unit's L2 envelope");
}

#[test]
fn cgroup_apply_to_a_unit_without_an_envelope_is_refused() {
    let mut cluster = HostCluster::new(MockHostEnv::default(), envelopes(), true);
    let patch = SsaPatch {
        target: unit_target("unknown.service"),
        field_manager: "breathe/cgroup".into(),
        layout: LimitLayout::Host(HostKnob::CgroupProperty {
            unit: "unknown.service".into(),
            property: "MemoryHigh".into(),
        }),
        resource: "memory".into(),
        value: GI,
    };
    assert!(cluster.apply(&patch).is_err());
    assert!(cluster.env().writes().is_empty());
}

#[test]
fn systemctl_invocation_wraps_in_nsenter_when_a_pid_is_set() {
    let (prog, argv) = SystemdSysfsEnv::systemctl_invocation(None, "systemctl", &["show", "x", "--value"]);
    assert_eq!(prog, "systemctl");
    assert_eq!(argv, vec!["show", "x", "--value"]);

    let (prog, argv) = SystemdSysfsEnv::systemctl_invocation(
        Some(1),
        "/run/current-system/sw/bin/systemctl",
        &["set-property", "--runtime", "nix-daemon.service", "MemoryHigh=10G"],
    );
    assert_eq!(prog, "nsenter");
    assert_eq!(
        argv,
        vec![
            "-t", "1", "-m", "-u", "-i", "-n", "-p", "--",
            "/run/current-system/sw/bin/systemctl",
            "set-property", "--runtime", "nix-daemon.service", "MemoryHigh=10G",
        ]
    );
}

#[test]
fn k8s_source_on_host_cluster_is_a_typed_error() {
    let mut cluster = HostCluster::shadow(MockHostEnv::default(), envelopes());
    let err = cluster
        .read_used(
            &MetricSource::PodMetricsMax {
                resource: "memory".into(),
                pod_prefix: "x".into(),
                selector: None,
            },
            0,
        )
        .unwrap_err();
    assert!(matches!(err, ProviderError::ApiPermanent(_)));
}

#[test]
fn cpu_millicores_converts_nsec_delta_over_a_window() {
    assert_eq!(cpu_millicores(1_000_000_000, 1_000_000_000), 1000);
    assert_eq!(cpu_millicores(2_000_000_000, 1_000_000_000), 2000);
    assert_eq!(cpu_millicores(500_000_000, 1_000_000_000), 500);
    assert_eq!(cpu_millicores(1_000_000_000, 0), 0);
}

#[test]
fn cgroup_cpu_rate_warms_up_then_differences_across_ticks() {
    let env = MockHostEnv::default();
    *env.cpu_usage_nsec.lock().unwrap() = [1_000_000_000u64, 2_000_000_000].into();
    let mut cluster = HostCluster::shadow(env, envelopes());
    let src = MetricSource::Host(HostMetric::CgroupCpuUsage { unit: "nix-daemon.service".into() });
    assert!(matches!(cluster.read_used(&src, 5_000_000_000), Err(ProviderError::MetricsMissing)));
    let s = cluster.read_used(&src, 7_000_000_000).unwrap();
    assert_eq!(s.age_secs, 0, "host reads are fresh");
    assert_eq!(s.value, 500, "one second of cpu over two seconds is half a core");
}

#[test]
fn parse_cpu_quota_timespan_to_usec() {
    assert_eq!(parse_cpu_quota_usec("12s"), Ok(Some(12_000_000)));
    assert_eq!(parse_cpu_quota_usec("500ms"), Ok(Some(500_000)));
    assert_eq!(parse_cpu_quota_usec("1s 500ms"), Ok(Some(1_500_000)));
    assert_eq!(parse_cpu_quota_usec("1min 30s"), Ok(Some(90_000_000)));
    assert_eq!(parse_cpu_quota_usec("250us"), Ok(Some(250)));
    assert_eq!(parse_cpu_quota_usec("infinity"), Ok(None));
    assert_eq!(parse_cpu_quota_usec("nonsense"), Err(()));
    assert_eq!(parse_cpu_quota_usec(""), Err(()));
    assert_eq!(parse_cpu_quota_usec("12x"), Err(()));
}

#[test]
fn cgroup_cpu_quota_reads_the_timespan_as_millicores() {
    let layout = LimitLayout::Host(HostKnob::CgroupCpuQuota { unit: "nix-daemon.service".into() });
    let mut up = BTreeMap::new();
    up.insert(
        ("nix-daemon.service".to_string(), "CPUQuotaPerSecUSec".to_string()),
        "1s 500ms".to_string(),
    );
    let cluster = HostCluster::shadow(
        MockHostEnv { unit_property_str: up, ..Default::default() },
        envelopes(),
    );
    assert_eq!(cluster.read_limit(&unit_target("nix-daemon.service"), &layout, "cpu").unwrap(), 1500);
    let mut inf = BTreeMap::new();
    inf.insert(
        ("nix-daemon.service".to_string(), "CPUQuotaPerSecUSec".to_string()),
        "infinity".to_string(),
    );
    let unbounded = HostCluster::shadow(
        MockHostEnv { unit_property_str: inf, ..Default::default() },
        envelopes(),
    );
    assert_eq!(unbounded.read_limit(&unit_target("nix-daemon.service"), &layout, "cpu").unwrap(), 8000);
    let unset = HostCluster::shadow(MockHostEnv::default(), envelopes());
    assert_eq!(unset.read_limit(&unit_target("nix-daemon.service"), &layout, "cpu").unwrap(), 8000);
}

#[test]
fn cgroup_cpu_apply_renders_percent_shadow_safe_and_ceiling_bound() {
    let layout = LimitLayout::Host(HostKnob::CgroupCpuQuota { unit: "nix-daemon.service".into() });
    let patch = |value| SsaPatch {
        target: unit_target("nix-daemon.service"),
        field_manager: "breathe/cgroup-cpu".into(),
        layout: layout.clone(),
        resource: "cpu".into(),
        value,
    };
    let mut live = HostCluster::new(MockHostEnv::default(), envelopes(), true);
    live.apply(&patch(1500)).unwrap();
    assert_eq!(
        live.env().str_writes(),
        vec![("nix-daemon.service:CPUQuota".to_string(), "150%".to_string())]
    );
    assert!(live.env().writes().is_empty(), "cpu quota goes through the STRING set-property");
    let mut over = HostCluster::new(MockHostEnv::default(), envelopes(), true);
    assert!(matches!(over.apply(&patch(9000)).unwrap_err(), ProviderError::ApiPermanent(_)));
    assert!(over.env().str_writes().is_empty(), "a refused cpu write touches nothing");
    let mut shadow = HostCluster::shadow(MockHostEnv::default(), envelopes());
    shadow.apply(&patch(1500)).unwrap();
    assert!(shadow.env().str_writes().is_empty(), "shadow never writes the host");
}

// ─────────────────────── further cases ───────────────────────

#[test]
fn a_number_file_is_trimmed_and_anything_else_is_named() {
    assert_eq!(parse_sysfs_u64("6442450944\n"), Ok(6 * GI));
    assert!(matches!(parse_sysfs_u64("max"), Err(HostError::Parse(_))));
    assert!(matches!(parse_sysfs_u64("18446744073709551616"), Err(HostError::Parse(_))));
}

#[test]
fn a_statistics_row_is_found_by_its_first_word() {
    let text = "13 1 0x01 1 2 3 4\nname type data\nsize_max 4 9\nsize 4 5368709120\n";
    assert_eq!(parse_arcstats_row(text, "size"), Ok(5 * GI));
    assert!(matches!(parse_arcstats_row(text, "dnode_size"), Err(HostError::Parse(_))));
}

#[test]
fn a_memory_report_counts_in_kibibytes() {
    let text = "MemTotal:       16384 kB\nDirty:             12 kB\n";
    assert_eq!(parse_meminfo_field(text, "Dirty"), Ok(12 * 1024));
    assert!(matches!(parse_meminfo_field(text, "Writeback"), Err(HostError::Parse(_))));
}

#[test]
fn a_stall_share_is_found_on_its_line() {
    let text = "some avg10=12.34 avg60=1.00 avg300=0.10 total=5\nfull avg10=0.50 avg60=0.00 avg300=0.00 total=1\n";
    assert_eq!(find_psi_avg10(text, "some"), Ok("12.34".to_string()));
    assert_eq!(find_psi_avg10(text, "full"), Ok("0.50".to_string()));
    assert!(matches!(find_psi_avg10("", "some"), Err(HostError::Parse(_))));
}

#[test]
fn unit_properties_tell_unset_from_a_number() {
    assert_eq!(parse_unit_number("MemoryHigh", "infinity"), Ok(None));
    assert_eq!(parse_unit_number("MemoryHigh", "1024"), Ok(Some(1024)));
    assert!(matches!(parse_unit_number("MemoryHigh", "lots"), Err(HostError::Parse(_))));
    assert_eq!(parse_memory_current("2048\n"), Ok(2048));
    assert_eq!(parse_cpu_usage_nsec("77"), Ok(77));
    assert_eq!(parse_unit_text(""), None);
    assert_eq!(parse_unit_text("1s\n"), Some("1s".to_string()));
}

#[test]
fn settings_choose_root_namespace_and_binary() {
    let plain = SystemdSysfsEnv::from_settings(None, None, None);
    assert_eq!(plain.at("/proc/meminfo"), "/proc/meminfo");
    assert_eq!(plain.invocation(&["show"]).0, "systemctl");
    let pod = SystemdSysfsEnv::from_settings(Some("/host".into()), Some("1".into()), None);
    assert_eq!(pod.at("/proc/meminfo"), "/host/proc/meminfo");
    assert_eq!(pod.invocation(&["show"]).0, "nsenter");
    let rooted = SystemdSysfsEnv::with_root("/fixture");
    assert_eq!(rooted.at("/sys/x"), "/fixture/sys/x");
}

#[test]
fn unit_commands_are_argument_lists() {
    assert_eq!(
        show_args("nix-daemon.service", "MemoryHigh"),
        vec!["show", "nix-daemon.service", "-p", "MemoryHigh", "--value"]
    );
    assert_eq!(
        set_args("nix-daemon.service", "MemoryHigh", "10"),
        vec!["set-property", "--runtime", "nix-daemon.service", "MemoryHigh=10"]
    );
}

#[test]
fn a_command_that_failed_says_what_ran() {
    let argv: Vec<String> = vec!["show".into(), "x".into()];
    assert_eq!(
        finished_command("systemctl", &argv, true, Some(0), " 5\n", ""),
        Ok("5".to_string())
    );
    let e = finished_command("systemctl", &argv, false, Some(1), "", " no such unit\n").unwrap_err();
    let HostError::Command { argv, code, stderr } = &e else { panic!("{e:?}") };
    assert_eq!(argv, "systemctl show x");
    assert_eq!(*code, Some(1));
    assert_eq!(stderr, "no such unit");
    assert!(e.message().contains("systemctl show x"));
}

#[test]
fn host_errors_reach_a_band_as_transient_or_permanent() {
    assert!(matches!(HostError::Io("x".into()).into_provider(), ProviderError::ApiTransient(_)));
    assert!(matches!(
        HostError::NoEnvelope("u".into()).into_provider(),
        ProviderError::ApiPermanent(_)
    ));
}

#[test]
fn a_pods_soft_limit_is_no_lever_of_the_node() {
    let knob = HostKnob::PodCgroupMemoryHigh {
        driver: CgroupDriver::Systemd,
        qos: "Burstable".into(),
        pod_uid: "u-1".into(),
        container_runtime_id: "containerd://x".into(),
    };
    assert_eq!(envelopes().ceiling_for(&knob), Err(HostError::NoEnvelope("u-1".into())));
}

#[test]
fn counters_of_one_unit_stay_apart_from_its_cpu_time() {
    let mut cache = new_cpu_sample_cache();
    let unit = "nix-daemon.service";
    assert_eq!(
        io_sample(&mut cache, unit, IoMaxField::Wbps, Ok(Some(1_000)), 1_000_000_000),
        Err(ProviderError::MetricsMissing)
    );
    assert_eq!(cache.get(unit), None, "the cpu reading is kept under another name");
    assert_eq!(
        io_sample(&mut cache, unit, IoMaxField::Riops, Ok(Some(7)), 1_500_000_000),
        Err(ProviderError::MetricsMissing),
        "another counter of the unit warms up on its own"
    );
    let s = io_sample(&mut cache, unit, IoMaxField::Wbps, Ok(Some(3_000)), 2_000_000_000).unwrap();
    assert_eq!(s.value, 2_000);
}

#[test]
fn a_number_written_to_the_host_reads_back() {
    let mut cluster = HostCluster::new(MockHostEnv::default(), envelopes(), true);
    cluster.apply(&arc_patch(5 * GI)).unwrap();
    let read = cluster
        .read_limit(&node_target(), &LimitLayout::Host(HostKnob::ZfsArcMax), "memory")
        .unwrap();
    assert_eq!(read, 5 * GI);
}

#[test]
fn samples_carry_over_to_the_next_cluster() {
    let env = MockHostEnv::default();
    *env.cpu_usage_nsec.lock().unwrap() = [4_000u64].into();
    let mut first = HostCluster::shadow(env, envelopes());
    let source = CgroupCpuDescriptor.metric_source(&unit_target("nix-daemon.service"));
    assert_eq!(first.read_used(&source, 0), Err(ProviderError::MetricsMissing));
    let env = MockHostEnv::default();
    *env.cpu_usage_nsec.lock().unwrap() = [1_000_004_000u64].into();
    let mut second =
        HostCluster::shadow(env, envelopes()).with_cpu_samples(first.into_cpu_samples());
    assert_eq!(second.read_used(&source, 1_000_000_000).unwrap().value, 1000);
}
