//! Where a limit lives and what writing it costs.

use vstd::prelude::*;

use crate::dimension::{copy_text, Directionality, Target};
use crate::text::{debug_quoted, debug_text, same_text};

verus! {

/// A lever of the host.
#[derive(Debug, PartialEq, Eq)]
pub enum HostKnob {
    /// The ZFS ARC ceiling.
    ZfsArcMax,
    /// A numeric property of a systemd unit.
    CgroupProperty { unit: String, property: String },
    /// The cpu quota of a systemd unit.
    CgroupCpuQuota { unit: String },
    /// A kernel parameter, by its dotted key.
    Sysctl { key: String },
    /// A ZFS module parameter.
    ZfsParam { param: String },
    /// A per-device cap on a unit's I/O.
    CgroupIoMax { unit: String, device: String, field: IoMaxField },
    /// The soft memory limit of one live pod's container.
    PodCgroupMemoryHigh {
        driver: CgroupDriver,
        qos: String,
        pod_uid: String,
        container_runtime_id: String,
    },
}

impl Clone for HostKnob {
    fn clone(&self) -> (r: Self)
        ensures
            r == *self,
    {
        match self {
            HostKnob::ZfsArcMax => HostKnob::ZfsArcMax,
            HostKnob::CgroupProperty { unit, property } => HostKnob::CgroupProperty {
                unit: unit.clone(),
                property: property.clone(),
            },
            HostKnob::CgroupCpuQuota { unit } => HostKnob::CgroupCpuQuota { unit: unit.clone() },
            HostKnob::Sysctl { key } => HostKnob::Sysctl { key: key.clone() },
            HostKnob::ZfsParam { param } => HostKnob::ZfsParam { param: param.clone() },
            HostKnob::CgroupIoMax { unit, device, field } => HostKnob::CgroupIoMax {
                unit: unit.clone(),
                device: device.clone(),
                field: *field,
            },
            HostKnob::PodCgroupMemoryHigh { driver, qos, pod_uid, container_runtime_id } => {
                HostKnob::PodCgroupMemoryHigh {
                    driver: *driver,
                    qos: qos.clone(),
                    pod_uid: pod_uid.clone(),
                    container_runtime_id: container_runtime_id.clone(),
                }
            },
        }
    }
}

/// How the kubelet lays out its cgroups.
#[derive(Debug, Clone, Copy, PartialEq, Eq, Structural)]
pub enum CgroupDriver {
    /// As systemd slices and scopes.
    Systemd,
    /// As plain directories.
    Cgroupfs,
}

impl Default for CgroupDriver {
    fn default() -> (r: Self)
        ensures
            r == CgroupDriver::Systemd,
    {
        CgroupDriver::Systemd
    }
}

/// A per-device I/O cap.
#[derive(Debug, Clone, Copy, PartialEq, Eq, Structural)]
pub enum IoMaxField {
    /// Bytes read per second.
    Rbps,
    /// Bytes written per second.
    Wbps,
    /// Reads per second.
    Riops,
    /// Writes per second.
    Wiops,
}

impl IoMaxField {
    /// The unit property that holds the cap.
    pub open spec fn cap_name(self) -> Seq<char> {
        match self {
            IoMaxField::Rbps => "IOReadBandwidthMax"@,
            IoMaxField::Wbps => "IOWriteBandwidthMax"@,
            IoMaxField::Riops => "IOReadIOPSMax"@,
            IoMaxField::Wiops => "IOWriteIOPSMax"@,
        }
    }

    /// The unit property that counts the I/O.
    pub open spec fn counter_name(self) -> Seq<char> {
        match self {
            IoMaxField::Rbps => "IOReadBytes"@,
            IoMaxField::Wbps => "IOWriteBytes"@,
            IoMaxField::Riops => "IOReadOperations"@,
            IoMaxField::Wiops => "IOWriteOperations"@,
        }
    }

    /// The short name of the cap.
    pub open spec fn name(self) -> Seq<char> {
        match self {
            IoMaxField::Rbps => "rbps"@,
            IoMaxField::Wbps => "wbps"@,
            IoMaxField::Riops => "riops"@,
            IoMaxField::Wiops => "wiops"@,
        }
    }

    /// The unit property that holds the cap.
    #[must_use]
    pub fn cap_property(self) -> (r: &'static str)
        ensures
            r@ == self.cap_name(),
    {
        match self {
            IoMaxField::Rbps => "IOReadBandwidthMax",
            IoMaxField::Wbps => "IOWriteBandwidthMax",
            IoMaxField::Riops => "IOReadIOPSMax",
            IoMaxField::Wiops => "IOWriteIOPSMax",
        }
    }

    /// The unit property that counts the I/O.
    #[must_use]
    pub fn counter_property(self) -> (r: &'static str)
        ensures
            r@ == self.counter_name(),
    {
        match self {
            IoMaxField::Rbps => "IOReadBytes",
            IoMaxField::Wbps => "IOWriteBytes",
            IoMaxField::Riops => "IOReadOperations",
            IoMaxField::Wiops => "IOWriteOperations",
        }
    }

    /// The short name of the cap.
    #[must_use]
    pub fn as_str(self) -> (r: &'static str)
        ensures
            r@ == self.name(),
    {
        match self {
            IoMaxField::Rbps => "rbps",
            IoMaxField::Wbps => "wbps",
            IoMaxField::Riops => "riops",
            IoMaxField::Wiops => "wiops",
        }
    }
}

/// A metric of the host.
#[allow(inconsistent_fields)]
#[derive(Debug, PartialEq, Eq)]
pub enum HostMetric {
    /// The size of the ZFS ARC.
    ArcSize,
    /// The memory that a unit holds.
    CgroupMemoryCurrent { unit: String },
    /// The cpu rate of a unit.
    CgroupCpuUsage { unit: String },
    /// A row of the ARC statistics.
    ArcKstat { row: String },
    /// A field of the kernel's memory report.
    MeminfoField { field: String },
    /// The I/O rate of a unit.
    CgroupIoStat { unit: String, field: IoMaxField },
    /// A pressure-stall share.
    Psi { resource: PsiResource, kind: PsiKind },
}

impl Clone for HostMetric {
    fn clone(&self) -> (r: Self)
        ensures
            r == *self,
    {
        match self {
            HostMetric::ArcSize => HostMetric::ArcSize,
            HostMetric::CgroupMemoryCurrent { unit } => HostMetric::CgroupMemoryCurrent {
                unit: unit.clone(),
            },
            HostMetric::CgroupCpuUsage { unit } => HostMetric::CgroupCpuUsage { unit: unit.clone() },
            HostMetric::ArcKstat { row } => HostMetric::ArcKstat { row: row.clone() },
            HostMetric::MeminfoField { field } => HostMetric::MeminfoField { field: field.clone() },
            HostMetric::CgroupIoStat { unit, field } => HostMetric::CgroupIoStat {
                unit: unit.clone(),
                field: *field,
            },
            HostMetric::Psi { resource, kind } => HostMetric::Psi {
                resource: *resource,
                kind: *kind,
            },
        }
    }
}

/// A resource with a pressure-stall report.
#[derive(Debug, Clone, Copy, PartialEq, Eq, Structural)]
pub enum PsiResource {
    /// The cpu.
    Cpu,
    /// The memory.
    Memory,
    /// The I/O.
    Io,
}

impl PsiResource {
    /// The name of the pressure file.
    pub open spec fn name(self) -> Seq<char> {
        match self {
            PsiResource::Cpu => "cpu"@,
            PsiResource::Memory => "memory"@,
            PsiResource::Io => "io"@,
        }
    }

    /// The name of the pressure file.
    #[must_use]
    pub fn as_str(self) -> (r: &'static str)
        ensures
            r@ == self.name(),
    {
        match self {
            PsiResource::Cpu => "cpu",
            PsiResource::Memory => "memory",
            PsiResource::Io => "io",
        }
    }
}

/// A line of a pressure-stall report.
#[derive(Debug, Clone, Copy, PartialEq, Eq, Structural)]
pub enum PsiKind {
    /// Some task stalls.
    SomeTasks,
    /// Every task stalls.
    Full,
}

impl PsiKind {
    /// The first word of the line.
    pub open spec fn name(self) -> Seq<char> {
        match self {
            PsiKind::SomeTasks => "some"@,
            PsiKind::Full => "full"@,
        }
    }

    /// The first word of the line.
    #[must_use]
    pub fn as_str(self) -> (r: &'static str)
        ensures
            r@ == self.name(),
    {
        match self {
            PsiKind::SomeTasks => "some",
            PsiKind::Full => "full",
        }
    }
}

/// Where a limit lives.
#[allow(inconsistent_fields)]
#[derive(Debug, PartialEq, Eq)]
pub enum LimitLayout {
    /// The top-level resources of a database cluster object.
    ClusterTopLevel,
    /// A container of a pod template.
    PodTemplate { container: Option<String> },
    /// The limit of a container of the live pods.
    PodResize { container: Option<String> },
    /// The reservation of a container of the live pods.
    PodRequestResize { container: Option<String> },
    /// The size that a volume claim asks for.
    PvcRequest,
    /// The storage size of a database cluster object.
    ClusterStorage,
    /// A lever of the host.
    Host(HostKnob),
    /// A key of a configuration file.
    ConfigFile { path: String, key: String, reload: ConfigReload },
    /// A command of an application's API.
    ApiCall { endpoint: String, command: String },
    /// A field of a custom resource.
    CrField {
        api_version: String,
        kind: String,
        name: String,
        field_path: String,
        restart_free: bool,
    },
    /// A field of a traffic rule.
    DestinationRuleField { name: String, field_path: String },
    /// A field of a namespace's quota or limit range.
    NamespaceEnvelope { namespace: String, kind: NamespaceEnvelopeKind, field_path: String },
    /// The setpoint of another controller.
    ControllerSetpoint { api_version: String, kind: String, name: String, field_path: String },
    /// The bandwidth of a pod.
    PodNetworkBandwidth { direction: NetDirection, host_tc: bool },
    /// The replica count of a workload.
    Replica { kind: String },
}

impl Clone for LimitLayout {
    fn clone(&self) -> (r: Self)
        ensures
            r == *self,
    {
        match self {
            LimitLayout::ClusterTopLevel => LimitLayout::ClusterTopLevel,
            LimitLayout::PodTemplate { container } => LimitLayout::PodTemplate {
                container: copy_text(container),
            },
            LimitLayout::PodResize { container } => LimitLayout::PodResize {
                container: copy_text(container),
            },
            LimitLayout::PodRequestResize { container } => LimitLayout::PodRequestResize {
                container: copy_text(container),
            },
            LimitLayout::PvcRequest => LimitLayout::PvcRequest,
            LimitLayout::ClusterStorage => LimitLayout::ClusterStorage,
            LimitLayout::Host(knob) => LimitLayout::Host(knob.clone()),
            LimitLayout::ConfigFile { path, key, reload } => LimitLayout::ConfigFile {
                path: path.clone(),
                key: key.clone(),
                reload: *reload,
            },
            LimitLayout::ApiCall { endpoint, command } => LimitLayout::ApiCall {
                endpoint: endpoint.clone(),
                command: command.clone(),
            },
            LimitLayout::CrField { api_version, kind, name, field_path, restart_free } => {
                LimitLayout::CrField {
                    api_version: api_version.clone(),
                    kind: kind.clone(),
                    name: name.clone(),
                    field_path: field_path.clone(),
                    restart_free: *restart_free,
                }
            },
            LimitLayout::DestinationRuleField { name, field_path } => {
                LimitLayout::DestinationRuleField {
                    name: name.clone(),
                    field_path: field_path.clone(),
                }
            },
            LimitLayout::NamespaceEnvelope { namespace, kind, field_path } => {
                LimitLayout::NamespaceEnvelope {
                    namespace: namespace.clone(),
                    kind: *kind,
                    field_path: field_path.clone(),
                }
            },
            LimitLayout::ControllerSetpoint { api_version, kind, name, field_path } => {
                LimitLayout::ControllerSetpoint {
                    api_version: api_version.clone(),
                    kind: kind.clone(),
                    name: name.clone(),
                    field_path: field_path.clone(),
                }
            },
            LimitLayout::PodNetworkBandwidth { direction, host_tc } => {
                LimitLayout::PodNetworkBandwidth { direction: *direction, host_tc: *host_tc }
            },
            LimitLayout::Replica { kind } => LimitLayout::Replica { kind: kind.clone() },
        }
    }
}

/// How a changed configuration file takes effect.
#[derive(Debug, Clone, Copy, PartialEq, Eq, Structural)]
pub enum ConfigReload {
    /// On a signal.
    Sighup,
    /// On a reload request.
    Reload,
    /// On a restart.
    Restart,
}

impl ConfigReload {
    /// What the way of reloading costs.
    pub open spec fn cost(self) -> DisruptionClass {
        if self is Restart {
            DisruptionClass::RestartRequiring
        } else {
            DisruptionClass::RestartFree
        }
    }

    /// What the way of reloading costs.
    #[must_use]
    pub fn disruption_class(self) -> (r: DisruptionClass)
        ensures
            r == self.cost(),
    {
        match self {
            ConfigReload::Sighup | ConfigReload::Reload => DisruptionClass::RestartFree,
            ConfigReload::Restart => DisruptionClass::RestartRequiring,
        }
    }
}

/// The kinds of a namespace's envelope.
#[derive(Debug, Clone, Copy, PartialEq, Eq, Structural)]
pub enum NamespaceEnvelopeKind {
    /// A quota.
    ResourceQuota,
    /// A limit range.
    LimitRange,
}

/// The direction of traffic.
#[derive(Debug, Clone, Copy, PartialEq, Eq, Structural)]
pub enum NetDirection {
    /// Out of the pod.
    Egress,
    /// Into the pod.
    Ingress,
}

/// How a change is applied.
#[derive(Debug, Clone, Copy, PartialEq, Eq, Structural)]
pub enum ApplySemantics {
    /// All or nothing.
    Transactional,
    /// Reconciled again and again.
    ContinuousReconciliation,
    /// In part.
    PartialProgress,
}

/// What a change costs the workload.
#[derive(Debug, Clone, Copy, PartialEq, Eq, Structural)]
pub enum DisruptionClass {
    /// It never restarts.
    RestartFree,
    /// It may restart.
    RestartConditional,
    /// It restarts.
    RestartRequiring,
}

impl DisruptionClass {
    /// Whether the change never restarts the workload.
    #[must_use]
    pub fn is_restart_free(self) -> (r: bool)
        ensures
            r == (self is RestartFree),
    {
        match self {
            DisruptionClass::RestartFree => true,
            _ => false,
        }
    }

    /// Whether the change can restart the workload.
    #[must_use]
    pub fn may_restart(self) -> (r: bool)
        ensures
            r == !(self is RestartFree),
    {
        match self {
            DisruptionClass::RestartFree => false,
            _ => true,
        }
    }

    /// The class once it is known whether a shrink restarts nothing.
    pub open spec fn refined(self, shrink_restart_free: bool) -> DisruptionClass {
        if self is RestartConditional && shrink_restart_free {
            DisruptionClass::RestartFree
        } else {
            self
        }
    }

    /// The class once it is known whether a shrink restarts nothing: only a
    /// conditional restart is refined.
    #[must_use]
    pub fn refined_by_resize_policy(self, shrink_restart_free: bool) -> (r: DisruptionClass)
        ensures
            r == self.refined(shrink_restart_free),
    {
        match self {
            DisruptionClass::RestartConditional => {
                if shrink_restart_free {
                    DisruptionClass::RestartFree
                } else {
                    self
                }
            },
            other => other,
        }
    }

    /// The tier of an edge with this class.
    pub open spec fn tier(self) -> EdgeTier {
        if self is RestartFree {
            EdgeTier::GoldenPreserving
        } else {
            EdgeTier::CeilingCrossing(self)
        }
    }

    /// The tier of an edge with this class.
    #[must_use]
    pub fn edge_tier(self) -> (r: EdgeTier)
        ensures
            r == self.tier(),
    {
        match self {
            DisruptionClass::RestartFree => EdgeTier::GoldenPreserving,
            other => EdgeTier::CeilingCrossing(other),
        }
    }
}

/// Which changes a band may make.
#[derive(Debug, Clone, Copy, PartialEq, Eq, Structural)]
pub enum DisruptionPolicy {
    /// Only those that never restart.
    RestartFreeOnly,
    /// Also those that may restart.
    AllowConditional,
    /// All.
    AllowRestart,
}

impl Default for DisruptionPolicy {
    fn default() -> (r: Self)
        ensures
            r == DisruptionPolicy::RestartFreeOnly,
    {
        DisruptionPolicy::RestartFreeOnly
    }
}

impl DisruptionPolicy {
    /// The policy lets a change of the class through.
    pub open spec fn lets(self, class: DisruptionClass) -> bool {
        match self {
            DisruptionPolicy::RestartFreeOnly => class is RestartFree,
            DisruptionPolicy::AllowConditional => !(class is RestartRequiring),
            DisruptionPolicy::AllowRestart => true,
        }
    }

    /// Whether only changes that never restart pass.
    #[must_use]
    pub fn is_restart_free_only(&self) -> (r: bool)
        ensures
            r == (*self is RestartFreeOnly),
    {
        match self {
            DisruptionPolicy::RestartFreeOnly => true,
            _ => false,
        }
    }

    /// Whether a change of the class passes.
    #[must_use]
    pub fn permits(self, class: DisruptionClass) -> (r: bool)
        ensures
            r == self.lets(class),
    {
        match self {
            DisruptionPolicy::RestartFreeOnly => class == DisruptionClass::RestartFree,
            DisruptionPolicy::AllowConditional => class != DisruptionClass::RestartRequiring,
            DisruptionPolicy::AllowRestart => true,
        }
    }
}

/// A more permissive policy lets everything through that a stricter one does,
/// and every policy lets a restart-free change through.
pub proof fn policies_widen(class: DisruptionClass)
    ensures
        DisruptionPolicy::RestartFreeOnly.lets(class) ==> DisruptionPolicy::AllowConditional.lets(
            class,
        ),
        DisruptionPolicy::AllowConditional.lets(class) ==> DisruptionPolicy::AllowRestart.lets(
            class,
        ),
        class is RestartFree ==> DisruptionPolicy::RestartFreeOnly.lets(class),
{
}

/// How pods should fill nodes.
#[derive(Debug, Clone, Copy, PartialEq, Eq, Structural)]
pub enum FillPolicy {
    /// Few nodes, full ones.
    Pack,
    /// Many nodes, evenly.
    Spread,
}

impl Default for FillPolicy {
    fn default() -> (r: Self)
        ensures
            r == FillPolicy::Pack,
    {
        FillPolicy::Pack
    }
}

impl FillPolicy {
    /// The scheduler's scoring strategy for the policy.
    pub open spec fn scoring(self) -> Seq<char> {
        match self {
            FillPolicy::Pack => "MostAllocated"@,
            FillPolicy::Spread => "LeastAllocated"@,
        }
    }

    /// The name of the policy.
    pub open spec fn name(self) -> Seq<char> {
        match self {
            FillPolicy::Pack => "pack"@,
            FillPolicy::Spread => "spread"@,
        }
    }

    /// The scheduler's scoring strategy for the policy.
    #[must_use]
    pub fn scheduler_scoring(self) -> (r: &'static str)
        ensures
            r@ == self.scoring(),
    {
        match self {
            FillPolicy::Pack => "MostAllocated",
            FillPolicy::Spread => "LeastAllocated",
        }
    }

    /// Whether nodes are packed.
    #[must_use]
    pub fn is_pack(&self) -> (r: bool)
        ensures
            r == (*self is Pack),
    {
        match self {
            FillPolicy::Pack => true,
            FillPolicy::Spread => false,
        }
    }

    /// The policy as a text.
    #[must_use]
    pub fn message(&self) -> (r: String)
        ensures
            r@ == self.name(),
    {
        match self {
            FillPolicy::Pack => "pack".to_owned(),
            FillPolicy::Spread => "spread".to_owned(),
        }
    }
}

/// How long a band rests after a change, by the class of the change.
#[derive(Debug, Clone, Copy, PartialEq, Eq, Structural)]
pub struct ClassCooldowns {
    /// After a change that never restarts, in seconds.
    pub restart_free: u64,
    /// After a change that may restart, in seconds.
    pub restart_conditional: u64,
    /// After a change that restarts, in seconds.
    pub restart_requiring: u64,
}

impl Default for ClassCooldowns {
    fn default() -> (r: Self)
        ensures
            r == (ClassCooldowns {
                restart_free: 15,
                restart_conditional: 120,
                restart_requiring: 600,
            }),
            r.ordered(),
    {
        ClassCooldowns { restart_free: 15, restart_conditional: 120, restart_requiring: 600 }
    }
}

impl ClassCooldowns {
    /// The rest after a change of the class.
    pub open spec fn rest(self, class: DisruptionClass) -> u64 {
        match class {
            DisruptionClass::RestartFree => self.restart_free,
            DisruptionClass::RestartConditional => self.restart_conditional,
            DisruptionClass::RestartRequiring => self.restart_requiring,
        }
    }

    /// A costlier change never rests shorter.
    pub open spec fn ordered(self) -> bool {
        self.restart_free <= self.restart_conditional <= self.restart_requiring
    }

    /// The rest after a change of the class, in seconds.
    #[must_use]
    pub fn for_class(&self, class: DisruptionClass) -> (r: u64)
        ensures
            r == self.rest(class),
    {
        match class {
            DisruptionClass::RestartFree => self.restart_free,
            DisruptionClass::RestartConditional => self.restart_conditional,
            DisruptionClass::RestartRequiring => self.restart_requiring,
        }
    }

    /// Whether a costlier change never rests shorter.
    #[must_use]
    pub fn well_ordered(&self) -> (r: bool)
        ensures
            r == self.ordered(),
    {
        self.restart_free <= self.restart_conditional && self.restart_conditional
            <= self.restart_requiring
    }
}

/// What kind of edge a change walks.
#[derive(Debug, Clone, Copy, PartialEq, Eq, Structural)]
pub enum EdgeTier {
    /// One that never disturbs the workload.
    GoldenPreserving,
    /// One that can.
    CeilingCrossing(DisruptionClass),
}

impl EdgeTier {
    /// Whether the edge never disturbs the workload.
    #[must_use]
    pub fn is_golden(self) -> (r: bool)
        ensures
            r == (self is GoldenPreserving),
    {
        match self {
            EdgeTier::GoldenPreserving => true,
            _ => false,
        }
    }
}

/// The class of a change that holds or fails on a flag alone.
pub open spec fn free_if(free: bool) -> DisruptionClass {
    if free {
        DisruptionClass::RestartFree
    } else {
        DisruptionClass::RestartRequiring
    }
}

impl LimitLayout {
    /// The worst that a change of the layout costs.
    pub open spec fn cost(self) -> DisruptionClass {
        match self {
            LimitLayout::PvcRequest
            | LimitLayout::ClusterStorage
            | LimitLayout::Host(_)
            | LimitLayout::ApiCall { .. }
            | LimitLayout::DestinationRuleField { .. }
            | LimitLayout::NamespaceEnvelope { .. }
            | LimitLayout::ControllerSetpoint { .. } => DisruptionClass::RestartFree,
            LimitLayout::PodResize { .. }
            | LimitLayout::PodRequestResize { .. } => DisruptionClass::RestartConditional,
            LimitLayout::PodTemplate { .. }
            | LimitLayout::ClusterTopLevel
            | LimitLayout::Replica { .. } => DisruptionClass::RestartRequiring,
            LimitLayout::ConfigFile { reload, .. } => reload.cost(),
            LimitLayout::CrField { restart_free, .. } => free_if(restart_free),
            LimitLayout::PodNetworkBandwidth { host_tc, .. } => free_if(host_tc),
        }
    }

    /// What one change costs, by its direction and resource: a live resize
    /// restarts nothing when it grows or carves cpu, and a workload that gains
    /// replicas restarts none.
    pub open spec fn action_cost(self, growing: bool, resource: Seq<char>) -> DisruptionClass {
        match self {
            LimitLayout::PodResize { .. } | LimitLayout::PodRequestResize { .. } => {
                if resource == "cpu"@ || growing {
                    DisruptionClass::RestartFree
                } else {
                    DisruptionClass::RestartConditional
                }
            },
            LimitLayout::Replica { .. } => free_if(growing),
            _ => self.cost(),
        }
    }

    /// The worst that a change of the layout costs.
    #[must_use]
    pub fn disruption_class(&self) -> (r: DisruptionClass)
        ensures
            r == self.cost(),
    {
        match self {
            LimitLayout::PvcRequest
            | LimitLayout::ClusterStorage
            | LimitLayout::Host(_) => DisruptionClass::RestartFree,
            LimitLayout::PodResize { .. }
            | LimitLayout::PodRequestResize { .. } => DisruptionClass::RestartConditional,
            LimitLayout::PodTemplate { .. }
            | LimitLayout::ClusterTopLevel => DisruptionClass::RestartRequiring,
            LimitLayout::ConfigFile { reload, .. } => reload.disruption_class(),
            LimitLayout::ApiCall { .. }
            | LimitLayout::DestinationRuleField { .. }
            | LimitLayout::NamespaceEnvelope { .. }
            | LimitLayout::ControllerSetpoint { .. } => DisruptionClass::RestartFree,
            LimitLayout::CrField { restart_free, .. } => {
                if *restart_free {
                    DisruptionClass::RestartFree
                } else {
                    DisruptionClass::RestartRequiring
                }
            },
            LimitLayout::PodNetworkBandwidth { host_tc, .. } => {
                if *host_tc {
                    DisruptionClass::RestartFree
                } else {
                    DisruptionClass::RestartRequiring
                }
            },
            LimitLayout::Replica { .. } => DisruptionClass::RestartRequiring,
        }
    }

    /// What one change costs, by its direction and resource.
    #[must_use]
    pub fn action_class(&self, growing: bool, resource: &str) -> (r: DisruptionClass)
        ensures
            r == self.action_cost(growing, resource@),
    {
        match self {
            LimitLayout::PvcRequest
            | LimitLayout::ClusterStorage
            | LimitLayout::Host(_) => DisruptionClass::RestartFree,
            LimitLayout::PodResize { .. } | LimitLayout::PodRequestResize { .. } => {
                if same_text(resource, "cpu") || growing {
                    DisruptionClass::RestartFree
                } else {
                    DisruptionClass::RestartConditional
                }
            },
            LimitLayout::PodTemplate { .. }
            | LimitLayout::ClusterTopLevel => DisruptionClass::RestartRequiring,
            LimitLayout::ConfigFile { .. }
            | LimitLayout::ApiCall { .. }
            | LimitLayout::CrField { .. }
            | LimitLayout::DestinationRuleField { .. }
            | LimitLayout::NamespaceEnvelope { .. }
            | LimitLayout::ControllerSetpoint { .. }
            | LimitLayout::PodNetworkBandwidth { .. } => self.disruption_class(),
            LimitLayout::Replica { .. } => {
                if growing {
                    DisruptionClass::RestartFree
                } else {
                    DisruptionClass::RestartRequiring
                }
            },
        }
    }
}

/// One change never costs more than the layout's worst: where the layout is
/// restart-free so is each change, and where it never forces a restart no
/// change does.
pub proof fn an_action_costs_at_most_its_layout(
    layout: LimitLayout,
    growing: bool,
    resource: Seq<char>,
)
    ensures
        layout.cost() is RestartFree ==> layout.action_cost(growing, resource) is RestartFree,
        layout.cost() is RestartConditional ==> !(layout.action_cost(
            growing,
            resource,
        ) is RestartRequiring),
{
}

impl DisruptionClass {
    /// How much the class disturbs: nothing, perhaps, or surely.
    pub open spec fn rank(self) -> nat {
        match self {
            DisruptionClass::RestartFree => 0,
            DisruptionClass::RestartConditional => 1,
            DisruptionClass::RestartRequiring => 2,
        }
    }
}

/// What one change costs: a restart is left open only where a live resize shrinks
/// anything but cpu, growing never costs more than shrinking, a template and a
/// database cluster always restart, volumes and hosts never do, and replicas
/// restart unless they grow.
pub proof fn a_change_costs_by_its_direction(
    layout: LimitLayout,
    growing: bool,
    resource: Seq<char>,
)
    ensures
        layout.action_cost(growing, resource) is RestartConditional <==> (layout is PodResize
            || layout is PodRequestResize) && !growing && resource != "cpu"@,
        layout.action_cost(true, resource).rank() <= layout.action_cost(false, resource).rank(),
        layout is PodTemplate || layout is ClusterTopLevel ==> layout.action_cost(
            growing,
            resource,
        ) is RestartRequiring,
        layout is PvcRequest || layout is ClusterStorage || layout is Host ==> layout.action_cost(
            growing,
            resource,
        ) is RestartFree,
        layout is Replica ==> (layout.action_cost(growing, resource) is RestartFree <==> growing),
{
}

/// Where a metric is read.
#[derive(Debug, PartialEq, Eq)]
pub enum MetricSource {
    /// A query.
    Prometheus(String),
    /// The highest usage over a group of pods.
    PodMetricsMax { resource: String, pod_prefix: String, selector: Option<String> },
    /// A metric of the host.
    Host(HostMetric),
}

impl Clone for MetricSource {
    fn clone(&self) -> (r: Self)
        ensures
            r == *self,
    {
        match self {
            MetricSource::Prometheus(q) => MetricSource::Prometheus(q.clone()),
            MetricSource::PodMetricsMax { resource, pod_prefix, selector } => {
                MetricSource::PodMetricsMax {
                    resource: resource.clone(),
                    pod_prefix: pod_prefix.clone(),
                    selector: copy_text(selector),
                }
            },
            MetricSource::Host(m) => MetricSource::Host(m.clone()),
        }
    }
}

/// One write of a limit.
#[derive(Debug, PartialEq, Eq)]
pub struct SsaPatch {
    /// The object written.
    pub target: Target,
    /// Who writes.
    pub field_manager: String,
    /// Where the limit lives.
    pub layout: LimitLayout,
    /// The resource limited.
    pub resource: String,
    /// The new limit.
    pub value: u64,
}

impl Clone for SsaPatch {
    fn clone(&self) -> (r: Self)
        ensures
            r == *self,
    {
        SsaPatch {
            target: self.target.clone(),
            field_manager: self.field_manager.clone(),
            layout: self.layout.clone(),
            resource: self.resource.clone(),
            value: self.value,
        }
    }
}

/// Whether a band can hold its setpoint without disturbing the workload.
#[derive(Debug, PartialEq, Eq)]
pub enum SetpointReachability {
    /// It can.
    GoldenToSetpoint,
    /// Some change that it needs can disturb.
    RequiresCrossing { ceiling: DisruptionClass, layout: LimitLayout },
}

/// The first change among those that the direction allows, growing before
/// shrinking, that can disturb the workload.
pub open spec fn first_crossing(
    layout: LimitLayout,
    dir: Directionality,
    resource: Seq<char>,
) -> Option<DisruptionClass> {
    let grow = layout.action_cost(true, resource);
    let shrink = layout.action_cost(false, resource);
    match dir {
        Directionality::ObserveOnly => None,
        _ => {
            if !(grow is RestartFree) {
                Some(grow)
            } else if dir is Bidirectional && !(shrink is RestartFree) {
                Some(shrink)
            } else {
                None
            }
        },
    }
}

/// Whether every change that the direction allows leaves the workload alone,
/// and if not, the first that does not.
#[must_use]
pub fn setpoint_reachability(layout: &LimitLayout, dir: Directionality, resource: &str) -> (r:
    SetpointReachability)
    ensures
        match first_crossing(*layout, dir, resource@) {
            None => r is GoldenToSetpoint,
            Some(c) => r == (SetpointReachability::RequiresCrossing {
                ceiling: c,
                layout: *layout,
            }),
        },
{
    match dir {
        Directionality::ObserveOnly => SetpointReachability::GoldenToSetpoint,
        _ => {
            let grow = layout.action_class(true, resource);
            if !grow.edge_tier().is_golden() {
                return SetpointReachability::RequiresCrossing {
                    ceiling: grow,
                    layout: layout.clone(),
                };
            }
            if dir == Directionality::Bidirectional {
                let shrink = layout.action_class(false, resource);
                if !shrink.edge_tier().is_golden() {
                    return SetpointReachability::RequiresCrossing {
                        ceiling: shrink,
                        layout: layout.clone(),
                    };
                }
            }
            SetpointReachability::GoldenToSetpoint
        },
    }
}

/// A dimension that is only observed never crosses, and a layout that is
/// restart-free never does.
pub proof fn golden_layouts_reach_their_setpoint(
    layout: LimitLayout,
    dir: Directionality,
    resource: Seq<char>,
)
    ensures
        dir is ObserveOnly ==> first_crossing(layout, dir, resource) is None,
        layout.cost() is RestartFree ==> first_crossing(layout, dir, resource) is None,
        first_crossing(layout, dir, resource) matches Some(c) ==> !(c is RestartFree),
{
}

// ─────────────────────── debug forms ───────────────────────

/// How a lever is printed for diagnosis.
pub open spec fn knob_words(knob: HostKnob) -> Seq<char> {
    match knob {
        HostKnob::ZfsArcMax => "ZfsArcMax"@,
        HostKnob::CgroupProperty { unit, property } => "CgroupProperty { unit: "@ + debug_quoted(
            unit@,
        ) + ", property: "@ + debug_quoted(property@) + " }"@,
        HostKnob::CgroupCpuQuota { unit } => "CgroupCpuQuota { unit: "@ + debug_quoted(unit@)
            + " }"@,
        HostKnob::Sysctl { key } => "Sysctl { key: "@ + debug_quoted(key@) + " }"@,
        HostKnob::ZfsParam { param } => "ZfsParam { param: "@ + debug_quoted(param@) + " }"@,
        HostKnob::CgroupIoMax { unit, device, field } => "CgroupIoMax { unit: "@ + debug_quoted(
            unit@,
        ) + ", device: "@ + debug_quoted(device@) + ", field: "@ + io_field_words(field) + " }"@,
        HostKnob::PodCgroupMemoryHigh { driver, qos, pod_uid, container_runtime_id } => {
            "PodCgroupMemoryHigh { driver: "@ + driver_words(driver) + ", qos: "@ + debug_quoted(
                qos@,
            ) + ", pod_uid: "@ + debug_quoted(pod_uid@) + ", container_runtime_id: "@
                + debug_quoted(container_runtime_id@) + " }"@
        },
    }
}

/// How a cap is printed for diagnosis.
pub open spec fn io_field_words(field: IoMaxField) -> Seq<char> {
    match field {
        IoMaxField::Rbps => "Rbps"@,
        IoMaxField::Wbps => "Wbps"@,
        IoMaxField::Riops => "Riops"@,
        IoMaxField::Wiops => "Wiops"@,
    }
}

/// How a cgroup driver is printed for diagnosis.
pub open spec fn driver_words(driver: CgroupDriver) -> Seq<char> {
    match driver {
        CgroupDriver::Systemd => "Systemd"@,
        CgroupDriver::Cgroupfs => "Cgroupfs"@,
    }
}

fn io_field_text(field: IoMaxField) -> (r: &'static str)
    ensures
        r@ == io_field_words(field),
{
    match field {
        IoMaxField::Rbps => "Rbps",
        IoMaxField::Wbps => "Wbps",
        IoMaxField::Riops => "Riops",
        IoMaxField::Wiops => "Wiops",
    }
}

/// A lever printed for diagnosis.
pub fn knob_text(knob: &HostKnob) -> (r: String)
    ensures
        r@ == knob_words(*knob),
{
    match knob {
        HostKnob::ZfsArcMax => "ZfsArcMax".to_owned(),
        HostKnob::CgroupProperty { unit, property } => {
            let mut s = "CgroupProperty { unit: ".to_owned();
            s.append(debug_text(unit.as_str()).as_str());
            s.append(", property: ");
            s.append(debug_text(property.as_str()).as_str());
            s.append(" }");
            s
        },
        HostKnob::CgroupCpuQuota { unit } => {
            let mut s = "CgroupCpuQuota { unit: ".to_owned();
            s.append(debug_text(unit.as_str()).as_str());
            s.append(" }");
            s
        },
        HostKnob::Sysctl { key } => {
            let mut s = "Sysctl { key: ".to_owned();
            s.append(debug_text(key.as_str()).as_str());
            s.append(" }");
            s
        },
        HostKnob::ZfsParam { param } => {
            let mut s = "ZfsParam { param: ".to_owned();
            s.append(debug_text(param.as_str()).as_str());
            s.append(" }");
            s
        },
        HostKnob::CgroupIoMax { unit, device, field } => {
            let mut s = "CgroupIoMax { unit: ".to_owned();
            s.append(debug_text(unit.as_str()).as_str());
            s.append(", device: ");
            s.append(debug_text(device.as_str()).as_str());
            s.append(", field: ");
            s.append(io_field_text(*field));
            s.append(" }");
            s
        },
        HostKnob::PodCgroupMemoryHigh { driver, qos, pod_uid, container_runtime_id } => {
            let mut s = "PodCgroupMemoryHigh { driver: ".to_owned();
            match driver {
                CgroupDriver::Systemd => s.append("Systemd"),
                CgroupDriver::Cgroupfs => s.append("Cgroupfs"),
            }
            s.append(", qos: ");
            s.append(debug_text(qos.as_str()).as_str());
            s.append(", pod_uid: ");
            s.append(debug_text(pod_uid.as_str()).as_str());
            s.append(", container_runtime_id: ");
            s.append(debug_text(container_runtime_id.as_str()).as_str());
            s.append(" }");
            s
        },
    }
}

/// How an optional text is printed for diagnosis.
pub open spec fn optional_words(o: Option<String>) -> Seq<char> {
    match o {
        None => "None"@,
        Some(s) => "Some("@ + debug_quoted(s@) + ")"@,
    }
}

/// An optional text printed for diagnosis.
pub fn optional_text(o: &Option<String>) -> (r: String)
    ensures
        r@ == optional_words(*o),
{
    match o {
        None => "None".to_owned(),
        Some(t) => {
            let mut s = "Some(".to_owned();
            s.append(debug_text(t.as_str()).as_str());
            s.append(")");
            s
        },
    }
}

/// How a host metric is printed for diagnosis.
pub open spec fn host_metric_words(m: HostMetric) -> Seq<char> {
    match m {
        HostMetric::ArcSize => "ArcSize"@,
        HostMetric::CgroupMemoryCurrent { unit } => "CgroupMemoryCurrent { unit: "@ + debug_quoted(
            unit@,
        ) + " }"@,
        HostMetric::CgroupCpuUsage { unit } => "CgroupCpuUsage { unit: "@ + debug_quoted(unit@)
            + " }"@,
        HostMetric::ArcKstat { row } => "ArcKstat { row: "@ + debug_quoted(row@) + " }"@,
        HostMetric::MeminfoField { field } => "MeminfoField { field: "@ + debug_quoted(field@)
            + " }"@,
        HostMetric::CgroupIoStat { unit, field } => "CgroupIoStat { unit: "@ + debug_quoted(unit@)
            + ", field: "@ + io_field_words(field) + " }"@,
        HostMetric::Psi { resource, kind } => "Psi { resource: "@ + (match resource {
            PsiResource::Cpu => "Cpu"@,
            PsiResource::Memory => "Memory"@,
            PsiResource::Io => "Io"@,
        }) + ", kind: "@ + (match kind {
            PsiKind::SomeTasks => "Some"@,
            PsiKind::Full => "Full"@,
        }) + " }"@,
    }
}

fn host_metric_text(m: &HostMetric) -> (r: String)
    ensures
        r@ == host_metric_words(*m),
{
    match m {
        HostMetric::ArcSize => "ArcSize".to_owned(),
        HostMetric::CgroupMemoryCurrent { unit } => {
            let mut s = "CgroupMemoryCurrent { unit: ".to_owned();
            s.append(debug_text(unit.as_str()).as_str());
            s.append(" }");
            s
        },
        HostMetric::CgroupCpuUsage { unit } => {
            let mut s = "CgroupCpuUsage { unit: ".to_owned();
            s.append(debug_text(unit.as_str()).as_str());
            s.append(" }");
            s
        },
        HostMetric::ArcKstat { row } => {
            let mut s = "ArcKstat { row: ".to_owned();
            s.append(debug_text(row.as_str()).as_str());
            s.append(" }");
            s
        },
        HostMetric::MeminfoField { field } => {
            let mut s = "MeminfoField { field: ".to_owned();
            s.append(debug_text(field.as_str()).as_str());
            s.append(" }");
            s
        },
        HostMetric::CgroupIoStat { unit, field } => {
            let mut s = "CgroupIoStat { unit: ".to_owned();
            s.append(debug_text(unit.as_str()).as_str());
            s.append(", field: ");
            s.append(io_field_text(*field));
            s.append(" }");
            s
        },
        HostMetric::Psi { resource, kind } => {
            let mut s = "Psi { resource: ".to_owned();
            match resource {
                PsiResource::Cpu => s.append("Cpu"),
                PsiResource::Memory => s.append("Memory"),
                PsiResource::Io => s.append("Io"),
            }
            s.append(", kind: ");
            match kind {
                PsiKind::SomeTasks => s.append("Some"),
                PsiKind::Full => s.append("Full"),
            }
            s.append(" }");
            s
        },
    }
}

/// How a metric source is printed for diagnosis.
pub open spec fn source_words(source: MetricSource) -> Seq<char> {
    match source {
        MetricSource::Prometheus(q) => "Prometheus("@ + debug_quoted(q@) + ")"@,
        MetricSource::PodMetricsMax { resource, pod_prefix, selector } => {
            "PodMetricsMax { resource: "@ + debug_quoted(resource@) + ", pod_prefix: "@
                + debug_quoted(pod_prefix@) + ", selector: "@ + optional_words(selector) + " }"@
        },
        MetricSource::Host(m) => "Host("@ + host_metric_words(m) + ")"@,
    }
}

/// A metric source printed for diagnosis.
pub fn source_text(source: &MetricSource) -> (r: String)
    ensures
        r@ == source_words(*source),
{
    match source {
        MetricSource::Prometheus(q) => {
            let mut s = "Prometheus(".to_owned();
            s.append(debug_text(q.as_str()).as_str());
            s.append(")");
            s
        },
        MetricSource::PodMetricsMax { resource, pod_prefix, selector } => {
            let mut s = "PodMetricsMax { resource: ".to_owned();
            s.append(debug_text(resource.as_str()).as_str());
            s.append(", pod_prefix: ");
            s.append(debug_text(pod_prefix.as_str()).as_str());
            s.append(", selector: ");
            s.append(optional_text(selector).as_str());
            s.append(" }");
            s
        },
        MetricSource::Host(m) => {
            let mut s = "Host(".to_owned();
            s.append(host_metric_text(m).as_str());
            s.append(")");
            s
        },
    }
}

// ─────────────────────── laws ───────────────────────

/// The worst that a layout costs is what shrinking anything but cpu costs there.
pub proof fn a_layout_costs_what_its_worst_change_costs(layout: LimitLayout, resource: Seq<char>)
    requires
        resource != "cpu"@,
    ensures
        layout.cost() == layout.action_cost(false, resource),
        layout.cost().rank() >= layout.action_cost(true, resource).rank(),
{
}

/// What each layout costs at worst: volumes, hosts, calls and the objects that only
/// a controller reads restart nothing; a live resize may; a template, a database
/// cluster and a replica count do. A field, a bandwidth and a file cost what they
/// say of themselves.
pub proof fn a_layout_costs_what_it_says(layout: LimitLayout)
    ensures
        layout is PvcRequest || layout is ClusterStorage || layout is Host || layout is ApiCall
            || layout is DestinationRuleField || layout is NamespaceEnvelope || layout
            is ControllerSetpoint ==> layout.cost() is RestartFree,
        layout is PodResize || layout is PodRequestResize ==> layout.cost() is RestartConditional,
        layout is PodTemplate || layout is ClusterTopLevel || layout is Replica ==> layout.cost()
            is RestartRequiring,
        layout matches LimitLayout::CrField { restart_free, .. } ==> layout.cost()
            == if restart_free {
            DisruptionClass::RestartFree
        } else {
            DisruptionClass::RestartRequiring
        },
        layout matches LimitLayout::PodNetworkBandwidth { host_tc, .. } ==> layout.cost()
            == if host_tc {
            DisruptionClass::RestartFree
        } else {
            DisruptionClass::RestartRequiring
        },
        layout matches LimitLayout::ConfigFile { reload, .. } ==> layout.cost() == match reload {
            ConfigReload::Sighup | ConfigReload::Reload => DisruptionClass::RestartFree,
            ConfigReload::Restart => DisruptionClass::RestartRequiring,
        },
{
}

/// A policy lets through exactly the changes that disturb no more than it allows.
pub proof fn a_policy_lets_through_what_it_allows(class: DisruptionClass)
    ensures
        DisruptionPolicy::RestartFreeOnly.lets(class) <==> class is RestartFree,
        DisruptionPolicy::AllowConditional.lets(class) <==> class is RestartFree || class
            is RestartConditional,
        DisruptionPolicy::AllowRestart.lets(class),
        class.tier() is GoldenPreserving <==> class is RestartFree,
        !(class is RestartFree) ==> class.tier() == EdgeTier::CeilingCrossing(class),
{
}

/// A resize policy settles only a restart that was left open, and only to none.
pub proof fn a_resize_policy_settles_only_an_open_restart(
    class: DisruptionClass,
    shrink_restart_free: bool,
)
    ensures
        class.refined(false) == class,
        class is RestartConditional ==> class.refined(true) is RestartFree,
        !(class is RestartConditional) ==> class.refined(shrink_restart_free) == class,
{
}

/// A band rests after a change as long as the change's own class asks for; where the
/// rests are in order, a costlier change never rests shorter.
pub proof fn a_costlier_change_never_rests_shorter(
    c: ClassCooldowns,
    class: DisruptionClass,
    other: DisruptionClass,
)
    ensures
        class is RestartFree ==> c.rest(class) == c.restart_free,
        class is RestartConditional ==> c.rest(class) == c.restart_conditional,
        class is RestartRequiring ==> c.rest(class) == c.restart_requiring,
        c.ordered() <==> c.restart_free <= c.restart_conditional && c.restart_conditional
            <= c.restart_requiring,
        c.ordered() && class.rank() <= other.rank() ==> c.rest(class) <= c.rest(other),
{
}

/// A setpoint is held without disturbing exactly where no change that the direction
/// allows can disturb; else the first that can is named, growing before shrinking.
pub proof fn a_setpoint_is_held_where_no_allowed_change_disturbs(
    layout: LimitLayout,
    dir: Directionality,
    resource: Seq<char>,
)
    ensures
        ({
            let grow = layout.action_cost(true, resource);
            let shrink = layout.action_cost(false, resource);
            let grows = !(dir is ObserveOnly);
            let shrinks = dir is Bidirectional;
            &&& first_crossing(layout, dir, resource) is None <==> (grows ==> grow is RestartFree)
                && (shrinks ==> shrink is RestartFree)
            &&& grows && !(grow is RestartFree) ==> first_crossing(layout, dir, resource) == Some(
                grow,
            )
            &&& shrinks && grow is RestartFree && !(shrink is RestartFree) ==> first_crossing(
                layout,
                dir,
                resource,
            ) == Some(shrink)
        }),
{
}

/// A cap and its counter belong together: both are of reads or both of writes, both
/// count bytes or both operations, and no two caps share a property.
pub proof fn a_cap_and_its_counter_belong_together(f: IoMaxField, g: IoMaxField)
    ensures
        f is Rbps || f is Riops <==> f.cap_name().take(6) == "IORead"@,
        f is Rbps || f is Riops <==> f.counter_name().take(6) == "IORead"@,
        f is Wbps || f is Wiops <==> f.cap_name().take(7) == "IOWrite"@,
        f is Wbps || f is Wiops <==> f.counter_name().take(7) == "IOWrite"@,
        f is Rbps || f is Wbps <==> f.cap_name().skip(f.cap_name().len() - 12) == "BandwidthMax"@,
        f is Rbps || f is Wbps <==> f.counter_name().skip(f.counter_name().len() - 5) == "Bytes"@,
        f.cap_name() == g.cap_name() ==> f == g,
        f.counter_name() == g.counter_name() ==> f == g,
{
    reveal_strlit("IORead");
    reveal_strlit("IOWrite");
    reveal_strlit("BandwidthMax");
    reveal_strlit("Bytes");
    reveal_strlit("IOReadBandwidthMax");
    reveal_strlit("IOWriteBandwidthMax");
    reveal_strlit("IOReadIOPSMax");
    reveal_strlit("IOWriteIOPSMax");
    reveal_strlit("IOReadBytes");
    reveal_strlit("IOWriteBytes");
    reveal_strlit("IOReadOperations");
    reveal_strlit("IOWriteOperations");
    let cap = f.cap_name();
    let counter = f.counter_name();
    if f is Rbps || f is Riops {
        assert(cap.take(6) =~= "IORead"@);
        assert(counter.take(6) =~= "IORead"@);
        assert(cap.take(7)[2] == 'R' && "IOWrite"@[2] == 'W');
        assert(counter.take(7)[2] == 'R');
    } else {
        assert(cap.take(7) =~= "IOWrite"@);
        assert(counter.take(7) =~= "IOWrite"@);
        assert(cap.take(6)[2] == 'W' && "IORead"@[2] == 'R');
        assert(counter.take(6)[2] == 'W');
    }
    let cap_end = cap.skip(cap.len() - 12);
    let counter_end = counter.skip(counter.len() - 5);
    if f is Rbps || f is Wbps {
        assert(cap_end =~= "BandwidthMax"@);
        assert(counter_end =~= "Bytes"@);
    } else {
        assert(cap_end[8] == 'S' && "BandwidthMax"@[8] == 'h');
        assert(counter_end[4] == 's' && counter_end[3] == 'n' && "Bytes"@[3] == 'e');
    }
    let other = g.cap_name();
    if cap == other {
        assert(cap.len() == other.len());
    }
    if counter == g.counter_name() {
        assert(counter.len() == g.counter_name().len());
    }
}

/// To pack is to score what is most allocated, to spread what is least.
pub proof fn only_packing_scores_what_is_most_allocated(p: FillPolicy)
    ensures
        p.scoring() == "MostAllocated"@ <==> p is Pack,
        p.scoring() == "LeastAllocated"@ <==> p is Spread,
{
    reveal_strlit("MostAllocated");
    reveal_strlit("LeastAllocated");
    assert("MostAllocated"@.len() != "LeastAllocated"@.len());
}

} // verus!
