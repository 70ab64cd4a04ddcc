//! What a band addresses: the dimension, the target object, the observed
//! sample, the ownership of a field and the capability of its storage.

use vstd::prelude::*;

use crate::text::same_text;

verus! {

/// The dimension that a band carves.
#[derive(Debug, Clone, Copy, PartialEq, Eq, Hash, Structural)]
pub enum DimensionId {
    /// A workload's memory limit.
    Memory,
    /// A volume's size.
    Storage,
    /// A workload's cpu limit.
    Cpu,
    /// A workload's replica count.
    Replica,
    /// A workload's reservation.
    Request,
    /// The host's ZFS ARC ceiling.
    Arc,
    /// A host unit's memory high-water.
    Cgroup,
    /// A host unit's cpu quota.
    CgroupCpu,
    /// A host kernel or ZFS parameter.
    HostParam,
    /// A field of a custom resource.
    KubeParam,
    /// A knob of an application's runtime.
    AppParam,
}

impl DimensionId {
    /// Every dimension.
    pub const ALL: [DimensionId; 11] = [
        DimensionId::Memory,
        DimensionId::Storage,
        DimensionId::Cpu,
        DimensionId::Replica,
        DimensionId::Request,
        DimensionId::Arc,
        DimensionId::Cgroup,
        DimensionId::CgroupCpu,
        DimensionId::HostParam,
        DimensionId::KubeParam,
        DimensionId::AppParam,
    ];

    /// The name of the dimension.
    pub open spec fn name(self) -> Seq<char> {
        match self {
            DimensionId::Memory => "memory"@,
            DimensionId::Storage => "storage"@,
            DimensionId::Cpu => "cpu"@,
            DimensionId::Replica => "replica"@,
            DimensionId::Request => "request"@,
            DimensionId::Arc => "arc"@,
            DimensionId::Cgroup => "cgroup"@,
            DimensionId::CgroupCpu => "cgroup-cpu"@,
            DimensionId::HostParam => "host-param"@,
            DimensionId::KubeParam => "kube-param"@,
            DimensionId::AppParam => "app-param"@,
        }
    }

    /// The name of the dimension.
    #[must_use]
    pub fn as_str(self) -> (r: &'static str)
        ensures
            r@ == self.name(),
    {
        match self {
            DimensionId::Memory => "memory",
            DimensionId::Storage => "storage",
            DimensionId::Cpu => "cpu",
            DimensionId::Replica => "replica",
            DimensionId::Request => "request",
            DimensionId::Arc => "arc",
            DimensionId::Cgroup => "cgroup",
            DimensionId::CgroupCpu => "cgroup-cpu",
            DimensionId::HostParam => "host-param",
            DimensionId::KubeParam => "kube-param",
            DimensionId::AppParam => "app-param",
        }
    }

    /// Whether the dimension is carved on the host rather than in the cluster.
    #[must_use]
    pub fn is_host(self) -> (r: bool)
        ensures
            r == (self is Arc || self is Cgroup || self is CgroupCpu || self is HostParam),
    {
        match self {
            DimensionId::Arc
            | DimensionId::Cgroup
            | DimensionId::CgroupCpu
            | DimensionId::HostParam => true,
            _ => false,
        }
    }

    /// Whether a band of the dimension still reads `spec.dryRun`.
    pub open spec fn honors_dry_run(self) -> bool {
        self is HostParam || self is KubeParam
    }

    /// Whether a band of the dimension still reads `spec.dryRun`.
    #[must_use]
    pub fn dry_run_is_honored(self) -> (r: bool)
        ensures
            r == self.honors_dry_run(),
    {
        match self {
            DimensionId::HostParam | DimensionId::KubeParam => true,
            _ => false,
        }
    }

    /// The dimension of a name: it is found exactly when a dimension has that name.
    #[must_use]
    pub fn parse(s: &str) -> (r: Option<DimensionId>)
        ensures
            match r {
                Some(d) => d.name() == s@,
                None => forall|d: DimensionId| #[trigger] d.name() != s@,
            },
    {
        let mut i: usize = 0;
        let all = DimensionId::ALL;
        while i < 11
            invariant
                i <= 11,
                all == DimensionId::ALL,
                forall|j: int| 0 <= j < i ==> (#[trigger] all@[j]).name() != s@,
            decreases 11 - i,
        {
            if same_text(all[i].as_str(), s) {
                return Some(all[i]);
            }
            i = i + 1;
        }
        assert forall|d: DimensionId| #[trigger] d.name() != s@ by {
            dimension_is_listed(d);
            let j = choose|j: int| 0 <= j < 11 && all@[j] == d;
            assert(all@[j].name() != s@);
        }
        None
    }
}

/// Every dimension stands in [`DimensionId::ALL`].
pub proof fn dimension_is_listed(d: DimensionId)
    ensures
        exists|j: int| 0 <= j < 11 && (#[trigger] DimensionId::ALL@[j]) == d,
{
    let all = DimensionId::ALL@;
    let j: int = match d {
        DimensionId::Memory => 0,
        DimensionId::Storage => 1,
        DimensionId::Cpu => 2,
        DimensionId::Replica => 3,
        DimensionId::Request => 4,
        DimensionId::Arc => 5,
        DimensionId::Cgroup => 6,
        DimensionId::CgroupCpu => 7,
        DimensionId::HostParam => 8,
        DimensionId::KubeParam => 9,
        DimensionId::AppParam => 10,
    };
    assert(all[j] == d);
}

/// Two dimensions never share a name.
pub proof fn dimension_names_are_distinct(a: DimensionId, b: DimensionId)
    ensures
        a.name() == b.name() ==> a == b,
{
    reveal_strlit("memory");
    reveal_strlit("storage");
    reveal_strlit("cpu");
    reveal_strlit("replica");
    reveal_strlit("request");
    reveal_strlit("arc");
    reveal_strlit("cgroup");
    reveal_strlit("cgroup-cpu");
    reveal_strlit("host-param");
    reveal_strlit("kube-param");
    reveal_strlit("app-param");
    assert(a.name().len() == b.name().len() || a.name() != b.name());
    assert(a.name() == b.name() ==> a.name()[0] == b.name()[0]);
    assert(a.name() == b.name() ==> a.name()[1] == b.name()[1]);
    assert(a.name() == b.name() ==> a.name()[2] == b.name()[2]);
}

/// What a workload asks for beyond what its usage shows, per dimension.
#[derive(Debug, Clone, Copy, PartialEq, Eq, Structural)]
pub enum SuppressedDemand {
    /// The working set presses against the soft limit.
    WorkingSetExceedsSoftLimit,
    /// The kernel throttles the workload's cpu.
    CfsThrottling,
    /// The dimension never shrinks.
    GrowOnly,
    /// The dimension has no such notion.
    NotApplicable,
}

impl SuppressedDemand {
    /// The name of the kind.
    pub open spec fn name(self) -> Seq<char> {
        match self {
            SuppressedDemand::WorkingSetExceedsSoftLimit => "working-set-exceeds-soft-limit"@,
            SuppressedDemand::CfsThrottling => "cfs-throttling"@,
            SuppressedDemand::GrowOnly => "grow-only"@,
            SuppressedDemand::NotApplicable => "not-applicable"@,
        }
    }

    /// The name of the kind.
    #[must_use]
    pub fn as_str(self) -> (r: &'static str)
        ensures
            r@ == self.name(),
    {
        match self {
            SuppressedDemand::WorkingSetExceedsSoftLimit => "working-set-exceeds-soft-limit",
            SuppressedDemand::CfsThrottling => "cfs-throttling",
            SuppressedDemand::GrowOnly => "grow-only",
            SuppressedDemand::NotApplicable => "not-applicable",
        }
    }

    /// Whether the kind is read from a source of its own.
    #[must_use]
    pub fn needs_throttle_source(self) -> (r: bool)
        ensures
            r == (self is CfsThrottling),
    {
        match self {
            SuppressedDemand::CfsThrottling => true,
            _ => false,
        }
    }
}

/// The directions in which a dimension may be carved.
#[derive(Debug, Clone, Copy, PartialEq, Eq, Structural)]
pub enum Directionality {
    /// It grows and shrinks.
    Bidirectional,
    /// It only grows.
    GrowOnly,
    /// It is never carved.
    ObserveOnly,
}

/// The object that a band carves.
#[derive(Debug, PartialEq, Eq)]
pub struct Target {
    /// Its namespace; empty for a host.
    pub namespace: String,
    /// Its name.
    pub name: String,
    /// Its kind.
    pub kind: String,
    /// Its API version; empty where the kind decides it.
    pub api_version: String,
    /// The managed container, where the band names one.
    pub container: Option<String>,
    /// The label selector of a pod group without an owner.
    pub pod_selector: Option<String>,
}

/// A copy of an optional text.
pub fn copy_text(o: &Option<String>) -> (r: Option<String>)
    ensures
        r == *o,
{
    match o {
        Some(s) => Some(s.clone()),
        None => None,
    }
}

impl Clone for Target {
    fn clone(&self) -> (r: Self)
        ensures
            r == *self,
    {
        Target {
            namespace: self.namespace.clone(),
            name: self.name.clone(),
            kind: self.kind.clone(),
            api_version: self.api_version.clone(),
            container: copy_text(&self.container),
            pod_selector: copy_text(&self.pod_selector),
        }
    }
}

/// One reading of a metric.
#[derive(Debug, Clone, Copy, PartialEq, Eq, Structural)]
pub struct Sample {
    /// The value read.
    pub value: u64,
    /// How old it is, in seconds.
    pub age_secs: u64,
}

/// A manager that owns a field of an object.
#[derive(Debug, PartialEq, Eq)]
pub struct FieldOwner {
    /// The manager's name.
    pub manager: String,
    /// The dotted name of the field.
    pub field: String,
}

impl Clone for FieldOwner {
    fn clone(&self) -> (r: Self)
        ensures
            r == *self,
    {
        FieldOwner { manager: self.manager.clone(), field: self.field.clone() }
    }
}

/// What a storage class can do for a band.
#[derive(Debug, PartialEq, Eq)]
pub struct StorageCapability {
    /// It grows a volume in place.
    pub volume_expansion: bool,
    /// It reports usage per volume, not per node.
    pub per_volume_metrics: bool,
    /// Who provisions it.
    pub provisioner: String,
}

impl StorageCapability {
    /// Whether a band can converge on the class: both properties are needed.
    #[must_use]
    pub fn is_supported(&self) -> (r: bool)
        ensures
            r == (self.volume_expansion && self.per_volume_metrics),
    {
        self.volume_expansion && self.per_volume_metrics
    }
}

/// Everything that one tick of a band sees.
#[derive(Debug, PartialEq, Eq)]
pub struct Observation {
    /// The amount in use.
    pub used: u64,
    /// The highest amount in use.
    pub peak_used: u64,
    /// The current limit.
    pub capacity: u64,
    /// Who owns the field.
    pub owners: Vec<FieldOwner>,
    /// How old the usage sample is, in seconds.
    pub staleness_secs: u64,
    /// Whether an in-place shrink restarts nothing.
    pub memory_shrink_restart_free: bool,
    /// For how long the target has been observed, in seconds.
    pub observed_for_secs: u64,
    /// The declared reservation, below which no limit may go.
    pub request_floor: u64,
    /// How strongly the target is throttled.
    pub throttle_signal: u64,
    /// Whether the target restarts or crash-loops.
    pub restarting: bool,
    /// What the storage class can do, where that is known.
    pub storage_capability: Option<StorageCapability>,
}

} // verus!
