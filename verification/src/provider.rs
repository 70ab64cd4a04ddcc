//! The provider of a band: its errors and receipts, the description of a
//! dimension, and the two conversations with a cluster, observing and assigning.
//!
//! A conversation is a state machine. The state names the next read or write,
//! the caller performs it and hands the reply back.

use vstd::prelude::*;

use crate::dimension::{
    DimensionId, Directionality, FieldOwner, Observation, Sample, StorageCapability,
    SuppressedDemand, Target,
};
use crate::layout::{
    setpoint_reachability, first_crossing, ApplySemantics, DisruptionClass, LimitLayout,
    MetricSource, SetpointReachability, SsaPatch,
};

verus! {

// ─────────────────────── errors and receipts ───────────────────────

/// Why a provider could not read or write.
#[derive(Debug, PartialEq, Eq)]
pub enum ProviderError {
    /// The target does not exist.
    TargetNotFound,
    /// There is no usable metric.
    MetricsMissing,
    /// The target has no field to carve.
    NoCapacityField,
    /// The label-selected group has no pods.
    NoTargetPods,
    /// A failure that a retry may mend.
    ApiTransient(String),
    /// A failure that no retry mends.
    ApiPermanent(String),
}

/// A provider's error with its text as characters.
pub enum ProviderErrorView {
    /// The target does not exist.
    TargetNotFound,
    /// There is no usable metric.
    MetricsMissing,
    /// The target has no field to carve.
    NoCapacityField,
    /// The label-selected group has no pods.
    NoTargetPods,
    /// A failure that a retry may mend.
    ApiTransient(Seq<char>),
    /// A failure that no retry mends.
    ApiPermanent(Seq<char>),
}

impl View for ProviderError {
    type V = ProviderErrorView;

    open spec fn view(&self) -> ProviderErrorView {
        match *self {
            ProviderError::TargetNotFound => ProviderErrorView::TargetNotFound,
            ProviderError::MetricsMissing => ProviderErrorView::MetricsMissing,
            ProviderError::NoCapacityField => ProviderErrorView::NoCapacityField,
            ProviderError::NoTargetPods => ProviderErrorView::NoTargetPods,
            ProviderError::ApiTransient(m) => ProviderErrorView::ApiTransient(m@),
            ProviderError::ApiPermanent(m) => ProviderErrorView::ApiPermanent(m@),
        }
    }
}

/// A result with its error's text as characters.
pub open spec fn provider_result<T>(r: Result<T, ProviderError>) -> Result<T, ProviderErrorView> {
    match r {
        Ok(v) => Ok(v),
        Err(e) => Err(e@),
    }
}

impl ProviderErrorView {
    /// The error in words.
    pub open spec fn words(self) -> Seq<char> {
        match self {
            ProviderErrorView::TargetNotFound => "target not found"@,
            ProviderErrorView::MetricsMissing => "metrics missing"@,
            ProviderErrorView::NoCapacityField => "no capacity field (no limit set)"@,
            ProviderErrorView::NoTargetPods => "no pods in the label-selected group (dormant)"@,
            ProviderErrorView::ApiTransient(m) => "transient API error: "@ + m,
            ProviderErrorView::ApiPermanent(m) => "permanent API error: "@ + m,
        }
    }
}

impl Clone for ProviderError {
    fn clone(&self) -> (r: Self)
        ensures
            r == *self,
    {
        match self {
            ProviderError::TargetNotFound => ProviderError::TargetNotFound,
            ProviderError::MetricsMissing => ProviderError::MetricsMissing,
            ProviderError::NoCapacityField => ProviderError::NoCapacityField,
            ProviderError::NoTargetPods => ProviderError::NoTargetPods,
            ProviderError::ApiTransient(m) => ProviderError::ApiTransient(m.clone()),
            ProviderError::ApiPermanent(m) => ProviderError::ApiPermanent(m.clone()),
        }
    }
}

impl ProviderError {
    /// The error in words.
    #[must_use]
    pub fn message(&self) -> (r: String)
        ensures
            r@ == self@.words(),
    {
        match self {
            ProviderError::TargetNotFound => "target not found".to_owned(),
            ProviderError::MetricsMissing => "metrics missing".to_owned(),
            ProviderError::NoCapacityField => "no capacity field (no limit set)".to_owned(),
            ProviderError::NoTargetPods => {
                "no pods in the label-selected group (dormant)".to_owned()
            },
            ProviderError::ApiTransient(m) => {
                let mut s = "transient API error: ".to_owned();
                s.append(m.as_str());
                s
            },
            ProviderError::ApiPermanent(m) => {
                let mut s = "permanent API error: ".to_owned();
                s.append(m.as_str());
                s
            },
        }
    }

    /// A permanent failure with the given words.
    pub fn permanent(words: &str) -> (r: Self)
        ensures
            r@ == ProviderErrorView::ApiPermanent(words@),
    {
        ProviderError::ApiPermanent(words.to_owned())
    }

    /// A failure that a retry may mend, with the given words.
    pub fn transient(words: &str) -> (r: Self)
        ensures
            r@ == ProviderErrorView::ApiTransient(words@),
    {
        ProviderError::ApiTransient(words.to_owned())
    }
}

/// The hash of nothing: sixteen zero bytes.
pub open spec fn is_no_hash(h: [u8; 16]) -> bool {
    forall|i: int| 0 <= i < 16 ==> #[trigger] h@[i] == 0
}

/// The hash of nothing.
pub fn no_hash() -> (r: [u8; 16])
    ensures
        is_no_hash(r),
{
    [0u8; 16]
}

/// That a limit was assigned.
#[derive(Debug, PartialEq, Eq)]
pub struct AssignReceipt {
    /// The limit before.
    pub from: u64,
    /// The limit after.
    pub to: u64,
    /// What the write was made from.
    pub source_hash: [u8; 16],
}

/// That a limit was given up.
#[derive(Debug, PartialEq, Eq)]
pub struct ReleaseReceipt {
    /// The limit that it falls back to.
    pub baseline: Option<u64>,
    /// What the write was made from.
    pub source_hash: [u8; 16],
}

/// That a write was applied.
#[derive(Debug, PartialEq, Eq)]
pub struct AppliedReceipt {
    /// What the write was made from.
    pub source_hash: [u8; 16],
}

/// A receipt without a hash.
pub fn blank_receipt() -> (r: AppliedReceipt)
    ensures
        is_no_hash(r.source_hash),
{
    AppliedReceipt { source_hash: no_hash() }
}

/// The field that a provider writes.
#[derive(Debug)]
pub struct OwnedField {
    /// Who writes it.
    pub manager: String,
    /// Its dotted name.
    pub path: String,
}

// ─────────────────────── the description of a dimension ───────────────────────

/// What describes a dimension.
pub trait DimensionDescriptor: Send + Sync + 'static {
    /// The dimension.
    open spec fn dimension(&self) -> DimensionId {
        arbitrary()
    }

    /// The directions in which it is carved.
    open spec fn directions(&self) -> Directionality {
        arbitrary()
    }

    /// Who writes it.
    open spec fn manager(&self) -> Seq<char> {
        arbitrary()
    }

    /// The dotted name of the field.
    open spec fn field(&self) -> Seq<char> {
        arbitrary()
    }

    /// The resource carved.
    open spec fn resource_name(&self) -> Seq<char> {
        arbitrary()
    }

    /// How a change is applied.
    open spec fn application(&self) -> ApplySemantics {
        arbitrary()
    }

    /// `layout` is where the limit of `target` lives.
    open spec fn lives_at(&self, target: Target, layout: LimitLayout) -> bool {
        true
    }

    /// `source` is where the usage of `target` is read.
    open spec fn reads_from(&self, target: Target, source: MetricSource) -> bool {
        true
    }

    /// The dimension.
    fn id(&self) -> (r: DimensionId)
        ensures
            r == self.dimension(),
    ;

    /// The directions in which it is carved.
    fn directionality(&self) -> (r: Directionality)
        ensures
            r == self.directions(),
    ;

    /// Who writes it.
    fn field_manager(&self) -> (r: &'static str)
        ensures
            r@ == self.manager(),
    ;

    /// The dotted name of the field.
    fn logical_field(&self) -> (r: &'static str)
        ensures
            r@ == self.field(),
    ;

    /// The resource carved.
    fn resource(&self) -> (r: &'static str)
        ensures
            r@ == self.resource_name(),
    ;

    /// How a change is applied.
    fn semantics(&self) -> (r: ApplySemantics)
        ensures
            r == self.application(),
    ;

    /// Where the limit of `target` lives.
    fn layout(&self, target: &Target) -> (r: LimitLayout)
        ensures
            self.lives_at(*target, r),
    ;

    /// Where the usage of `target` is read.
    fn metric_source(&self, target: &Target) -> (r: MetricSource)
        ensures
            self.reads_from(*target, r),
    ;

    /// What the workload asks for beyond its usage.
    fn suppressed_demand(&self) -> (r: SuppressedDemand)
        default_ensures
            r == SuppressedDemand::WorkingSetExceedsSoftLimit,
    {
        SuppressedDemand::WorkingSetExceedsSoftLimit
    }

    /// Where throttling is read, where it has a source of its own.
    fn throttle_source(&self, target: &Target) -> (r: Option<MetricSource>)
        default_ensures
            r is None,
    {
        None
    }

    /// The description for a cluster that can or cannot resize pods in place; by
    /// default the capability changes nothing.
    fn with_resize_capability(resize_capable: bool) -> (r: Self) where Self: Sized + Default
        default_ensures
            call_ensures(Self::default, (), r),
    {
        Self::default()
    }
}

/// A provider: one description of a dimension, and the cluster it is carved on.
pub struct BandProvider<C, D: DimensionDescriptor> {
    cluster: C,
    descriptor: D,
}

impl<C, D: DimensionDescriptor> BandProvider<C, D> {
    /// The description of the dimension.
    pub closed spec fn described(&self) -> D {
        self.descriptor
    }

    /// The cluster.
    pub closed spec fn carved_on(&self) -> C {
        self.cluster
    }

    /// A provider of the described dimension on the cluster.
    pub fn new(cluster: C, descriptor: D) -> (r: Self)
        ensures
            r.described() == descriptor,
            r.carved_on() == cluster,
    {
        BandProvider { cluster, descriptor }
    }

    /// The cluster.
    pub fn cluster(&self) -> (r: &C)
        ensures
            *r == self.carved_on(),
    {
        &self.cluster
    }

    /// The cluster, to be worked on.
    pub fn cluster_mut(&mut self) -> (r: &mut C)
        ensures
            *r == old(self).carved_on(),
            final(self).carved_on() == *final(r),
            final(self).described() == old(self).described(),
    {
        &mut self.cluster
    }

    /// The description of the dimension.
    pub fn descriptor(&self) -> (r: &D)
        ensures
            *r == self.described(),
    {
        &self.descriptor
    }

    /// The dimension.
    pub fn id(&self) -> (r: DimensionId)
        ensures
            r == self.described().dimension(),
    {
        self.descriptor.id()
    }

    /// The directions in which it is carved.
    pub fn directionality(&self) -> (r: Directionality)
        ensures
            r == self.described().directions(),
    {
        self.descriptor.directionality()
    }

    /// The field that the provider writes.
    pub fn owned_field(&self) -> (r: OwnedField)
        ensures
            r.manager@ == self.described().manager(),
            r.path@ == self.described().field(),
    {
        OwnedField {
            manager: self.descriptor.field_manager().to_owned(),
            path: self.descriptor.logical_field().to_owned(),
        }
    }

    /// How a change is applied.
    pub fn semantics(&self) -> (r: ApplySemantics)
        ensures
            r == self.described().application(),
    {
        self.descriptor.semantics()
    }

    /// Where the limit of the target lives.
    pub fn layout_for(&self, target: &Target) -> (r: LimitLayout)
        ensures
            self.described().lives_at(*target, r),
    {
        self.descriptor.layout(target)
    }

    /// The resource carved.
    pub fn resource_key(&self) -> (r: &str)
        ensures
            r@ == self.described().resource_name(),
    {
        self.descriptor.resource()
    }

    /// What one change of the target costs.
    pub fn action_class(&self, target: &Target, growing: bool) -> (r: DisruptionClass)
        ensures
            exists|l: LimitLayout|
                #![auto]
                self.described().lives_at(*target, l) && r == l.action_cost(
                    growing,
                    self.described().resource_name(),
                ),
    {
        let l = self.layout_for(target);
        l.action_class(growing, self.resource_key())
    }

    /// Whether the target's setpoint can be held without disturbing it.
    pub fn setpoint_reachability(&self, target: &Target) -> (r: SetpointReachability)
        ensures
            exists|l: LimitLayout|
                #![auto]
                self.described().lives_at(*target, l) && match first_crossing(
                    l,
                    self.described().directions(),
                    self.described().resource_name(),
                ) {
                    None => r is GoldenToSetpoint,
                    Some(c) => r == (SetpointReachability::RequiresCrossing {
                        ceiling: c,
                        layout: l,
                    }),
                },
    {
        let l = self.layout_for(target);
        setpoint_reachability(&l, self.directionality(), self.resource_key())
    }

    /// The start of an observation of the target.
    pub fn observe(&self, target: &Target) -> (r: Observing)
        ensures
            r matches Observing::Used { source, throttle } && self.described().reads_from(
                *target,
                source,
            ) && call_ensures(D::throttle_source, (&self.described(), target), throttle),
    {
        Observing::Used {
            source: self.descriptor.metric_source(target),
            throttle: self.descriptor.throttle_source(target),
        }
    }

    /// The read that an observation of the target awaits, where its limit lives at
    /// the layout.
    pub fn awaited(&self, state: &Observing, target: &Target, layout: &LimitLayout) -> (r: Option<
        ClusterRead,
    >)
        ensures
            match r {
                Some(read) => awaited_read(
                    *state,
                    *target,
                    *layout,
                    self.described().resource_name(),
                    self.described().field(),
                ) == Some(read@),
                None => *state is Done,
            },
    {
        let (target, layout) = (target.clone(), layout.clone());
        let resource = self.descriptor.resource().to_owned();
        match state {
            Observing::Used { source, .. } | Observing::Throttle { source, .. } => Some(
                ClusterRead::Used { source: source.clone() },
            ),
            Observing::Existence | Observing::Limit { .. } => Some(
                ClusterRead::Limit { target, layout, resource },
            ),
            Observing::Owners { .. } => Some(
                ClusterRead::Owners {
                    target,
                    layout,
                    resource,
                    field: self.descriptor.logical_field().to_owned(),
                },
            ),
            Observing::RestartFree { .. } => Some(
                ClusterRead::RestartFree { target, layout, resource },
            ),
            Observing::RequestFloor { .. } => Some(
                ClusterRead::RequestFloor { target, layout, resource },
            ),
            Observing::Restarting { .. } => Some(
                ClusterRead::Restarting { target, layout, resource },
            ),
            Observing::Storage { .. } => Some(ClusterRead::Storage { target, layout }),
            Observing::Done(_) => None,
        }
    }

    /// What to do about assigning a limit, once the current one has been read.
    pub fn assign(
        &self,
        target: &Target,
        to_value: u64,
        limit: Result<u64, ProviderError>,
    ) -> (r: Assigning)
        ensures
            match limit {
                Err(e) => r == Assigning::Done(Err(e)),
                Ok(from) if from == to_value => r matches Assigning::Done(Ok(receipt))
                    && receipt.from == from && receipt.to == to_value && is_no_hash(
                    receipt.source_hash,
                ),
                Ok(from) => r matches Assigning::Apply { from: f, patch } && f == from
                    && patch.target == *target && patch.field_manager@
                    == self.described().manager() && self.described().lives_at(
                    *target,
                    patch.layout,
                ) && patch.resource@ == self.described().resource_name() && patch.value
                    == to_value,
            },
    {
        match limit {
            Err(e) => Assigning::Done(Err(e)),
            Ok(from) => {
                if from == to_value {
                    Assigning::Done(
                        Ok(AssignReceipt { from, to: to_value, source_hash: no_hash() }),
                    )
                } else {
                    Assigning::Apply {
                        from,
                        patch: SsaPatch {
                            target: target.clone(),
                            field_manager: self.descriptor.field_manager().to_owned(),
                            layout: self.descriptor.layout(target),
                            resource: self.descriptor.resource().to_owned(),
                            value: to_value,
                        },
                    }
                }
            },
        }
    }

    /// Giving a limit up changes nothing and falls back to nothing.
    pub fn release(&self, target: &Target) -> (r: ReleaseReceipt)
        ensures
            r.baseline is None,
            is_no_hash(r.source_hash),
    {
        ReleaseReceipt { baseline: None, source_hash: no_hash() }
    }
}

/// An assignment under way.
#[derive(Debug, PartialEq, Eq)]
pub enum Assigning {
    /// The patch is to be applied.
    Apply { from: u64, patch: SsaPatch },
    /// The assignment is over.
    Done(Result<AssignReceipt, ProviderError>),
}

/// The end of an assignment, once its patch has been applied.
pub fn assigned(from: u64, to: u64, applied: Result<AppliedReceipt, ProviderError>) -> (r: Result<
    AssignReceipt,
    ProviderError,
>)
    ensures
        match applied {
            Ok(a) => r == Ok::<AssignReceipt, ProviderError>(
                AssignReceipt { from, to, source_hash: a.source_hash },
            ),
            Err(e) => r == Err::<AssignReceipt, ProviderError>(e),
        },
{
    match applied {
        Ok(a) => Ok(AssignReceipt { from, to, source_hash: a.source_hash }),
        Err(e) => Err(e),
    }
}

// ─────────────────────── observing ───────────────────────

/// An observation under way: each state but the last awaits one reply.
#[derive(Debug, PartialEq, Eq)]
pub enum Observing {
    /// The usage is to be read from `source`.
    Used { source: MetricSource, throttle: Option<MetricSource> },
    /// No pod matched: the limit is to be read, to learn whether the target exists.
    Existence,
    /// The limit is to be read.
    Limit { used: Sample, throttle: Option<MetricSource> },
    /// The owners of the field are to be read.
    Owners { used: Sample, throttle: Option<MetricSource>, capacity: u64 },
    /// Whether a shrink restarts nothing is to be read.
    RestartFree {
        used: Sample,
        throttle: Option<MetricSource>,
        capacity: u64,
        owners: Vec<FieldOwner>,
    },
    /// The declared reservation is to be read.
    RequestFloor {
        used: Sample,
        throttle: Option<MetricSource>,
        capacity: u64,
        owners: Vec<FieldOwner>,
        restart_free: bool,
    },
    /// The throttling is to be read from `source`.
    Throttle {
        used: Sample,
        source: MetricSource,
        capacity: u64,
        owners: Vec<FieldOwner>,
        restart_free: bool,
        request_floor: u64,
    },
    /// Whether the target restarts is to be read.
    Restarting {
        used: Sample,
        capacity: u64,
        owners: Vec<FieldOwner>,
        restart_free: bool,
        request_floor: u64,
        throttle_signal: u64,
    },
    /// What the storage class can do is to be read.
    Storage {
        used: Sample,
        capacity: u64,
        owners: Vec<FieldOwner>,
        restart_free: bool,
        request_floor: u64,
        throttle_signal: u64,
        restarting: bool,
    },
    /// The observation is over.
    Done(Result<Observation, ProviderError>),
}

/// What a cluster answered.
#[derive(Debug, PartialEq, Eq)]
pub enum ClusterReply {
    /// To a read of usage, or of throttling.
    Used(Result<Sample, ProviderError>),
    /// To a read of the limit.
    Limit(Result<u64, ProviderError>),
    /// To a read of the owners.
    Owners(Result<Vec<FieldOwner>, ProviderError>),
    /// To a read of whether a shrink restarts nothing.
    RestartFree(Result<bool, ProviderError>),
    /// To a read of the declared reservation.
    RequestFloor(Result<u64, ProviderError>),
    /// To a read of whether the target restarts.
    Restarting(Result<bool, ProviderError>),
    /// To a read of what the storage class can do.
    Storage(Result<Option<StorageCapability>, ProviderError>),
}

/// One read that a cluster is asked for.
#[derive(Debug, PartialEq, Eq)]
pub enum ClusterRead {
    /// The usage or the throttling, at its source.
    Used { source: MetricSource },
    /// The limit.
    Limit { target: Target, layout: LimitLayout, resource: String },
    /// The owners of the field.
    Owners { target: Target, layout: LimitLayout, resource: String, field: String },
    /// Whether a shrink restarts nothing.
    RestartFree { target: Target, layout: LimitLayout, resource: String },
    /// The declared reservation.
    RequestFloor { target: Target, layout: LimitLayout, resource: String },
    /// Whether the target restarts.
    Restarting { target: Target, layout: LimitLayout, resource: String },
    /// What the storage class can do.
    Storage { target: Target, layout: LimitLayout },
}

/// A read with its names as characters.
pub enum ReadView {
    /// The usage or the throttling, at its source.
    Used { source: MetricSource },
    /// The limit.
    Limit { target: Target, layout: LimitLayout, resource: Seq<char> },
    /// The owners of the field.
    Owners { target: Target, layout: LimitLayout, resource: Seq<char>, field: Seq<char> },
    /// Whether a shrink restarts nothing.
    RestartFree { target: Target, layout: LimitLayout, resource: Seq<char> },
    /// The declared reservation.
    RequestFloor { target: Target, layout: LimitLayout, resource: Seq<char> },
    /// Whether the target restarts.
    Restarting { target: Target, layout: LimitLayout, resource: Seq<char> },
    /// What the storage class can do.
    Storage { target: Target, layout: LimitLayout },
}

impl View for ClusterRead {
    type V = ReadView;

    open spec fn view(&self) -> ReadView {
        match *self {
            ClusterRead::Used { source } => ReadView::Used { source },
            ClusterRead::Limit { target, layout, resource } => ReadView::Limit {
                target,
                layout,
                resource: resource@,
            },
            ClusterRead::Owners { target, layout, resource, field } => ReadView::Owners {
                target,
                layout,
                resource: resource@,
                field: field@,
            },
            ClusterRead::RestartFree { target, layout, resource } => ReadView::RestartFree {
                target,
                layout,
                resource: resource@,
            },
            ClusterRead::RequestFloor { target, layout, resource } => ReadView::RequestFloor {
                target,
                layout,
                resource: resource@,
            },
            ClusterRead::Restarting { target, layout, resource } => ReadView::Restarting {
                target,
                layout,
                resource: resource@,
            },
            ClusterRead::Storage { target, layout } => ReadView::Storage { target, layout },
        }
    }
}

/// The read that a state awaits, of the resource and the field of the target
/// whose limit lives at the layout. A finished observation awaits none.
pub open spec fn awaited_read(
    state: Observing,
    target: Target,
    layout: LimitLayout,
    resource: Seq<char>,
    field: Seq<char>,
) -> Option<ReadView> {
    match state {
        Observing::Used { source, .. } => Some(ReadView::Used { source }),
        Observing::Existence => Some(ReadView::Limit { target, layout, resource }),
        Observing::Limit { .. } => Some(ReadView::Limit { target, layout, resource }),
        Observing::Owners { .. } => Some(ReadView::Owners { target, layout, resource, field }),
        Observing::RestartFree { .. } => Some(ReadView::RestartFree { target, layout, resource }),
        Observing::RequestFloor { .. } => Some(
            ReadView::RequestFloor { target, layout, resource },
        ),
        Observing::Throttle { source, .. } => Some(ReadView::Used { source }),
        Observing::Restarting { .. } => Some(ReadView::Restarting { target, layout, resource }),
        Observing::Storage { .. } => Some(ReadView::Storage { target, layout }),
        Observing::Done(_) => None,
    }
}

/// The reply is one to the read.
pub open spec fn answers(reply: ClusterReply, read: ReadView) -> bool {
    match read {
        ReadView::Used { .. } => reply is Used,
        ReadView::Limit { .. } => reply is Limit,
        ReadView::Owners { .. } => reply is Owners,
        ReadView::RestartFree { .. } => reply is RestartFree,
        ReadView::RequestFloor { .. } => reply is RequestFloor,
        ReadView::Restarting { .. } => reply is Restarting,
        ReadView::Storage { .. } => reply is Storage,
    }
}

/// How many more reads a state may await.
pub open spec fn reads_left(state: Observing) -> nat {
    match state {
        Observing::Used { .. } => 8,
        Observing::Limit { .. } => 7,
        Observing::Owners { .. } => 6,
        Observing::RestartFree { .. } => 5,
        Observing::RequestFloor { .. } => 4,
        Observing::Throttle { .. } => 3,
        Observing::Restarting { .. } => 2,
        Observing::Storage { .. } => 1,
        Observing::Existence => 1,
        Observing::Done(_) => 0,
    }
}

/// The source scans pods by a name prefix, so a missing metric may mean a
/// missing target.
pub open spec fn scans_by_prefix(source: MetricSource) -> bool {
    source matches MetricSource::PodMetricsMax { selector, .. } && selector is None
}

/// The value of a reading, or nothing where it failed.
pub open spec fn value_or_zero(r: Result<Sample, ProviderError>) -> u64 {
    match r {
        Ok(s) => s.value,
        Err(_) => 0,
    }
}

/// One step of an observation. Usage, limit, owners, resize policy and
/// reservation must be read; throttling, restarts and storage are best effort.
pub open spec fn observe_step(state: Observing, reply: ClusterReply) -> Observing {
    match (state, reply) {
        (Observing::Used { source, throttle }, ClusterReply::Used(r)) => match r {
            Ok(used) => Observing::Limit { used, throttle },
            Err(e) => {
                if e is MetricsMissing && scans_by_prefix(source) {
                    Observing::Existence
                } else {
                    Observing::Done(Err(e))
                }
            },
        },
        (Observing::Existence, ClusterReply::Limit(r)) => match r {
            Ok(_) => Observing::Done(Err(ProviderError::MetricsMissing)),
            Err(e) => Observing::Done(Err(e)),
        },
        (Observing::Limit { used, throttle }, ClusterReply::Limit(r)) => match r {
            Ok(capacity) => Observing::Owners { used, throttle, capacity },
            Err(e) => Observing::Done(Err(e)),
        },
        (Observing::Owners { used, throttle, capacity }, ClusterReply::Owners(r)) => match r {
            Ok(owners) => Observing::RestartFree { used, throttle, capacity, owners },
            Err(e) => Observing::Done(Err(e)),
        },
        (
            Observing::RestartFree { used, throttle, capacity, owners },
            ClusterReply::RestartFree(r),
        ) => match r {
            Ok(restart_free) => Observing::RequestFloor {
                used,
                throttle,
                capacity,
                owners,
                restart_free,
            },
            Err(e) => Observing::Done(Err(e)),
        },
        (
            Observing::RequestFloor { used, throttle, capacity, owners, restart_free },
            ClusterReply::RequestFloor(r),
        ) => match r {
            Ok(request_floor) => match throttle {
                Some(source) => Observing::Throttle {
                    used,
                    source,
                    capacity,
                    owners,
                    restart_free,
                    request_floor,
                },
                None => Observing::Restarting {
                    used,
                    capacity,
                    owners,
                    restart_free,
                    request_floor,
                    throttle_signal: 0,
                },
            },
            Err(e) => Observing::Done(Err(e)),
        },
        (
            Observing::Throttle { used, source: _, capacity, owners, restart_free, request_floor },
            ClusterReply::Used(r),
        ) => Observing::Restarting {
            used,
            capacity,
            owners,
            restart_free,
            request_floor,
            throttle_signal: value_or_zero(r),
        },
        (
            Observing::Restarting {
                used,
                capacity,
                owners,
                restart_free,
                request_floor,
                throttle_signal,
            },
            ClusterReply::Restarting(r),
        ) => Observing::Storage {
            used,
            capacity,
            owners,
            restart_free,
            request_floor,
            throttle_signal,
            restarting: r == Ok::<bool, ProviderError>(true),
        },
        (
            Observing::Storage {
                used,
                capacity,
                owners,
                restart_free,
                request_floor,
                throttle_signal,
                restarting,
            },
            ClusterReply::Storage(r),
        ) => Observing::Done(
            Ok(
                Observation {
                    used: used.value,
                    peak_used: used.value,
                    capacity,
                    owners,
                    staleness_secs: used.age_secs,
                    memory_shrink_restart_free: restart_free,
                    observed_for_secs: u64::MAX,
                    request_floor,
                    throttle_signal,
                    restarting,
                    storage_capability: match r {
                        Ok(c) => c,
                        Err(_) => None,
                    },
                },
            ),
        ),
        (s, _) => s,
    }
}

impl Observing {
    /// The state after a reply; a reply that was not asked for changes nothing.
    pub fn advance(self, reply: ClusterReply) -> (r: Observing)
        ensures
            r == observe_step(self, reply),
    {
        match (self, reply) {
            (Observing::Used { source, throttle }, ClusterReply::Used(r)) => match r {
                Ok(used) => Observing::Limit { used, throttle },
                Err(e) => {
                    let missing = match &e {
                        ProviderError::MetricsMissing => true,
                        _ => false,
                    };
                    let by_prefix = match &source {
                        MetricSource::PodMetricsMax { selector, .. } => selector.is_none(),
                        _ => false,
                    };
                    if missing && by_prefix {
                        Observing::Existence
                    } else {
                        Observing::Done(Err(e))
                    }
                },
            },
            (Observing::Existence, ClusterReply::Limit(r)) => match r {
                Ok(_) => Observing::Done(Err(ProviderError::MetricsMissing)),
                Err(e) => Observing::Done(Err(e)),
            },
            (Observing::Limit { used, throttle }, ClusterReply::Limit(r)) => match r {
                Ok(capacity) => Observing::Owners { used, throttle, capacity },
                Err(e) => Observing::Done(Err(e)),
            },
            (Observing::Owners { used, throttle, capacity }, ClusterReply::Owners(r)) => match r {
                Ok(owners) => Observing::RestartFree { used, throttle, capacity, owners },
                Err(e) => Observing::Done(Err(e)),
            },
            (
                Observing::RestartFree { used, throttle, capacity, owners },
                ClusterReply::RestartFree(r),
            ) => match r {
                Ok(restart_free) => Observing::RequestFloor {
                    used,
                    throttle,
                    capacity,
                    owners,
                    restart_free,
                },
                Err(e) => Observing::Done(Err(e)),
            },
            (
                Observing::RequestFloor { used, throttle, capacity, owners, restart_free },
                ClusterReply::RequestFloor(r),
            ) => match r {
                Ok(request_floor) => match throttle {
                    Some(source) => Observing::Throttle {
                        used,
                        source,
                        capacity,
                        owners,
                        restart_free,
                        request_floor,
                    },
                    None => Observing::Restarting {
                        used,
                        capacity,
                        owners,
                        restart_free,
                        request_floor,
                        throttle_signal: 0,
                    },
                },
                Err(e) => Observing::Done(Err(e)),
            },
            (
                Observing::Throttle {
                    used,
                    source: _,
                    capacity,
                    owners,
                    restart_free,
                    request_floor,
                },
                ClusterReply::Used(r),
            ) => {
                let throttle_signal: u64 = match r {
                    Ok(s) => s.value,
                    Err(_) => 0,
                };
                Observing::Restarting {
                    used,
                    capacity,
                    owners,
                    restart_free,
                    request_floor,
                    throttle_signal,
                }
            },
            (
                Observing::Restarting {
                    used,
                    capacity,
                    owners,
                    restart_free,
                    request_floor,
                    throttle_signal,
                },
                ClusterReply::Restarting(r),
            ) => {
                let restarting: bool = match r {
                    Ok(b) => b,
                    Err(_) => false,
                };
                Observing::Storage {
                    used,
                    capacity,
                    owners,
                    restart_free,
                    request_floor,
                    throttle_signal,
                    restarting,
                }
            },
            (
                Observing::Storage {
                    used,
                    capacity,
                    owners,
                    restart_free,
                    request_floor,
                    throttle_signal,
                    restarting,
                },
                ClusterReply::Storage(r),
            ) => {
                let storage_capability = match r {
                    Ok(c) => c,
                    Err(_) => None,
                };
                Observing::Done(
                    Ok(
                        Observation {
                            used: used.value,
                            peak_used: used.value,
                            capacity,
                            owners,
                            staleness_secs: used.age_secs,
                            memory_shrink_restart_free: restart_free,
                            observed_for_secs: u64::MAX,
                            request_floor,
                            throttle_signal,
                            restarting,
                            storage_capability,
                        },
                    ),
                )
            },
            (s, _) => s,
        }
    }
}

/// The state after a run of replies.
pub open spec fn observe_run(state: Observing, replies: Seq<ClusterReply>) -> Observing
    decreases replies.len(),
{
    if replies.len() == 0 {
        state
    } else {
        observe_run(observe_step(state, replies[0]), replies.drop_first())
    }
}

/// Once the five needed reads have succeeded, the observation succeeds whatever
/// the best-effort reads say, and a best-effort read that failed counts as no
/// throttling, no restart and an unknown storage class.
pub proof fn best_effort_reads_never_fail_an_observation(
    source: MetricSource,
    throttle: MetricSource,
    used: Sample,
    capacity: u64,
    owners: Vec<FieldOwner>,
    restart_free: bool,
    request_floor: u64,
    throttled: Result<Sample, ProviderError>,
    restarting: Result<bool, ProviderError>,
    storage: Result<Option<StorageCapability>, ProviderError>,
)
    ensures
        observe_run(
            Observing::Used { source, throttle: Some(throttle) },
            seq![
                ClusterReply::Used(Ok(used)),
                ClusterReply::Limit(Ok(capacity)),
                ClusterReply::Owners(Ok(owners)),
                ClusterReply::RestartFree(Ok(restart_free)),
                ClusterReply::RequestFloor(Ok(request_floor)),
                ClusterReply::Used(throttled),
                ClusterReply::Restarting(restarting),
                ClusterReply::Storage(storage),
            ],
        ) == Observing::Done(
            Ok(
                Observation {
                    used: used.value,
                    peak_used: used.value,
                    capacity,
                    owners,
                    staleness_secs: used.age_secs,
                    memory_shrink_restart_free: restart_free,
                    observed_for_secs: u64::MAX,
                    request_floor,
                    throttle_signal: value_or_zero(throttled),
                    restarting: restarting == Ok::<bool, ProviderError>(true),
                    storage_capability: match storage {
                        Ok(c) => c,
                        Err(_) => None,
                    },
                },
            ),
        ),
{
    reveal_with_fuel(observe_run, 9);
}

/// A metric that is missing because no pod matched a name prefix is reported as
/// the target's own error where the target cannot be read, and as a missing
/// metric where it can.
pub proof fn a_missing_target_is_not_a_missing_metric(
    source: MetricSource,
    throttle: Option<MetricSource>,
    limit: Result<u64, ProviderError>,
)
    requires
        scans_by_prefix(source),
    ensures
        observe_run(
            Observing::Used { source, throttle },
            seq![
                ClusterReply::Used(Err(ProviderError::MetricsMissing)),
                ClusterReply::Limit(limit),
            ],
        ) == Observing::Done(
            Err(
                match limit {
                    Ok(_) => ProviderError::MetricsMissing,
                    Err(e) => e,
                },
            ),
        ),
{
    reveal_with_fuel(observe_run, 3);
}

/// An observation that gets an answer to the read it awaits moves on, and is over
/// after at most eight of them.
pub proof fn an_answered_observation_moves_on(
    state: Observing,
    reply: ClusterReply,
    target: Target,
    layout: LimitLayout,
    resource: Seq<char>,
    field: Seq<char>,
)
    requires
        awaited_read(state, target, layout, resource, field) matches Some(read) && answers(
            reply,
            read,
        ),
    ensures
        reads_left(observe_step(state, reply)) < reads_left(state) <= 8,
        reads_left(observe_step(state, reply)) == 0 <==> observe_step(state, reply) is Done,
{
}

/// An observation that is over stays as it is.
pub proof fn a_finished_observation_stays(
    outcome: Result<Observation, ProviderError>,
    replies: Seq<ClusterReply>,
)
    ensures
        observe_run(Observing::Done(outcome), replies) == Observing::Done(outcome),
    decreases replies.len(),
{
    if replies.len() > 0 {
        a_finished_observation_stays(outcome, replies.drop_first());
    }
}

/// A needed read that fails ends the observation with its own error: the usage, the
/// limit, the owners, the resize policy, the reservation. Only a metric that is
/// missing where pods were scanned by a prefix is looked into first.
pub proof fn a_needed_read_that_fails_ends_the_observation(
    source: MetricSource,
    throttle: Option<MetricSource>,
    used: Sample,
    capacity: u64,
    owners: Vec<FieldOwner>,
    restart_free: bool,
    e: ProviderError,
)
    ensures
        !(e is MetricsMissing) || !(source is PodMetricsMax) || (
        source matches MetricSource::PodMetricsMax { selector, .. } && selector is Some)
            ==> observe_step(
            Observing::Used { source, throttle },
            ClusterReply::Used(Err(e)),
        ) == Observing::Done(Err(e)),
        observe_step(Observing::Limit { used, throttle }, ClusterReply::Limit(Err(e)))
            == Observing::Done(Err(e)),
        observe_step(Observing::Owners { used, throttle, capacity }, ClusterReply::Owners(Err(e)))
            == Observing::Done(Err(e)),
        observe_step(
            Observing::RestartFree { used, throttle, capacity, owners },
            ClusterReply::RestartFree(Err(e)),
        ) == Observing::Done(Err(e)),
        observe_step(
            Observing::RequestFloor { used, throttle, capacity, owners, restart_free },
            ClusterReply::RequestFloor(Err(e)),
        ) == Observing::Done(Err(e)),
        source matches MetricSource::PodMetricsMax { selector, .. } && selector is None
            ==> observe_step(
            Observing::Used { source, throttle },
            ClusterReply::Used(Err(ProviderError::MetricsMissing)),
        ) is Existence,
{
}

/// A band without a source of throttling is observed without one, and counts as
/// unthrottled: the observation is made of the readings alone.
pub proof fn an_observation_is_made_of_its_readings(
    source: MetricSource,
    used: Sample,
    capacity: u64,
    owners: Vec<FieldOwner>,
    restart_free: bool,
    request_floor: u64,
    restarting: bool,
    storage: Option<StorageCapability>,
)
    ensures
        observe_run(
            Observing::Used { source, throttle: None },
            seq![
                ClusterReply::Used(Ok(used)),
                ClusterReply::Limit(Ok(capacity)),
                ClusterReply::Owners(Ok(owners)),
                ClusterReply::RestartFree(Ok(restart_free)),
                ClusterReply::RequestFloor(Ok(request_floor)),
                ClusterReply::Restarting(Ok(restarting)),
                ClusterReply::Storage(Ok(storage)),
            ],
        ) == Observing::Done(
            Ok(
                Observation {
                    used: used.value,
                    peak_used: used.value,
                    capacity,
                    owners,
                    staleness_secs: used.age_secs,
                    memory_shrink_restart_free: restart_free,
                    observed_for_secs: u64::MAX,
                    request_floor,
                    throttle_signal: 0,
                    restarting,
                    storage_capability: storage,
                },
            ),
        ),
{
    reveal_with_fuel(observe_run, 8);
}

/// A best-effort read counts for its value where it succeeds, and for nothing where
/// it fails.
pub proof fn a_best_effort_read_counts_for_its_value(
    used: Sample,
    source: MetricSource,
    capacity: u64,
    owners: Vec<FieldOwner>,
    restart_free: bool,
    request_floor: u64,
    s: Sample,
    e: ProviderError,
)
    ensures
        ({
            let throttled = Observing::Throttle {
                used,
                source,
                capacity,
                owners,
                restart_free,
                request_floor,
            };
            let with = |signal: u64|
                Observing::Restarting {
                    used,
                    capacity,
                    owners,
                    restart_free,
                    request_floor,
                    throttle_signal: signal,
                };
            &&& observe_step(throttled, ClusterReply::Used(Ok(s))) == with(s.value)
            &&& observe_step(throttled, ClusterReply::Used(Err(e))) == with(0)
        }),
{
}

/// An observation reads the target's own usage and throttling at their sources, and
/// everything else of the target where its limit lives, of its own resource.
pub proof fn an_observation_reads_its_own_target(
    state: Observing,
    target: Target,
    layout: LimitLayout,
    resource: Seq<char>,
    field: Seq<char>,
)
    ensures
        ({
            let read = awaited_read(state, target, layout, resource, field);
            &&& state matches Observing::Used { source, .. } ==> read == Some(
                ReadView::Used { source },
            )
            &&& state matches Observing::Throttle { source, .. } ==> read == Some(
                ReadView::Used { source },
            )
            &&& state is Existence || state is Limit ==> read == Some(
                ReadView::Limit { target, layout, resource },
            )
            &&& state is Owners ==> read == Some(
                ReadView::Owners { target, layout, resource, field },
            )
            &&& state is RestartFree ==> read == Some(
                ReadView::RestartFree { target, layout, resource },
            )
            &&& state is RequestFloor ==> read == Some(
                ReadView::RequestFloor { target, layout, resource },
            )
            &&& state is Restarting ==> read == Some(
                ReadView::Restarting { target, layout, resource },
            )
            &&& state is Storage ==> read == Some(ReadView::Storage { target, layout })
            &&& state is Done ==> read is None
        }),
{
}

/// A reply that was not asked for changes nothing.
pub proof fn a_reply_that_was_not_asked_for_changes_nothing(
    state: Observing,
    reply: ClusterReply,
)
    requires
        match state {
            Observing::Used { .. } | Observing::Throttle { .. } => !(reply is Used),
            Observing::Existence | Observing::Limit { .. } => !(reply is Limit),
            Observing::Owners { .. } => !(reply is Owners),
            Observing::RestartFree { .. } => !(reply is RestartFree),
            Observing::RequestFloor { .. } => !(reply is RequestFloor),
            Observing::Restarting { .. } => !(reply is Restarting),
            Observing::Storage { .. } => !(reply is Storage),
            Observing::Done(_) => true,
        },
    ensures
        observe_step(state, reply) == state,
{
}

} // verus!
