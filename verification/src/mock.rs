//! A cluster held in memory: its answers are set beforehand, and the patches it
//! is given are kept.

use vstd::prelude::*;

use crate::dimension::{FieldOwner, Sample, StorageCapability, Target};
use crate::layout::{HostMetric, LimitLayout, MetricSource, SsaPatch};
use crate::provider::{blank_receipt, AppliedReceipt, ProviderError};
use crate::text::same_text;

verus! {

// ─────────────────────── sources compared ───────────────────────

/// The two optional texts are the same.
pub open spec fn optional_alike(a: Option<String>, b: Option<String>) -> bool {
    match (a, b) {
        (None, None) => true,
        (Some(x), Some(y)) => x@ == y@,
        _ => false,
    }
}

fn same_optional(a: &Option<String>, b: &Option<String>) -> (r: bool)
    ensures
        r == optional_alike(*a, *b),
{
    match (a, b) {
        (None, None) => true,
        (Some(x), Some(y)) => same_text(x.as_str(), y.as_str()),
        _ => false,
    }
}

/// The two metrics of a host are the same.
pub open spec fn metric_alike(a: HostMetric, b: HostMetric) -> bool {
    match (a, b) {
        (HostMetric::ArcSize, HostMetric::ArcSize) => true,
        (
            HostMetric::CgroupMemoryCurrent { unit: x },
            HostMetric::CgroupMemoryCurrent { unit: y },
        ) => x@ == y@,
        (HostMetric::CgroupCpuUsage { unit: x }, HostMetric::CgroupCpuUsage { unit: y }) => x@
            == y@,
        (HostMetric::ArcKstat { row: x }, HostMetric::ArcKstat { row: y }) => x@ == y@,
        (HostMetric::MeminfoField { field: x }, HostMetric::MeminfoField { field: y }) => x@
            == y@,
        (
            HostMetric::CgroupIoStat { unit: x, field: f },
            HostMetric::CgroupIoStat { unit: y, field: g },
        ) => x@ == y@ && f == g,
        (
            HostMetric::Psi { resource: x, kind: f },
            HostMetric::Psi { resource: y, kind: g },
        ) => x == y && f == g,
        _ => false,
    }
}

fn same_metric(a: &HostMetric, b: &HostMetric) -> (r: bool)
    ensures
        r == metric_alike(*a, *b),
{
    match (a, b) {
        (HostMetric::ArcSize, HostMetric::ArcSize) => true,
        (
            HostMetric::CgroupMemoryCurrent { unit: x },
            HostMetric::CgroupMemoryCurrent { unit: y },
        ) => same_text(x.as_str(), y.as_str()),
        (HostMetric::CgroupCpuUsage { unit: x }, HostMetric::CgroupCpuUsage { unit: y }) => {
            same_text(x.as_str(), y.as_str())
        },
        (HostMetric::ArcKstat { row: x }, HostMetric::ArcKstat { row: y }) => same_text(
            x.as_str(),
            y.as_str(),
        ),
        (HostMetric::MeminfoField { field: x }, HostMetric::MeminfoField { field: y }) => {
            same_text(x.as_str(), y.as_str())
        },
        (
            HostMetric::CgroupIoStat { unit: x, field: f },
            HostMetric::CgroupIoStat { unit: y, field: g },
        ) => same_text(x.as_str(), y.as_str()) && *f == *g,
        (
            HostMetric::Psi { resource: x, kind: f },
            HostMetric::Psi { resource: y, kind: g },
        ) => *x == *y && *f == *g,
        _ => false,
    }
}

/// The two sources are the same.
pub open spec fn source_alike(a: MetricSource, b: MetricSource) -> bool {
    match (a, b) {
        (MetricSource::Prometheus(x), MetricSource::Prometheus(y)) => x@ == y@,
        (
            MetricSource::PodMetricsMax { resource: x, pod_prefix: p, selector: s },
            MetricSource::PodMetricsMax { resource: y, pod_prefix: q, selector: t },
        ) => x@ == y@ && p@ == q@ && optional_alike(s, t),
        (MetricSource::Host(x), MetricSource::Host(y)) => metric_alike(x, y),
        _ => false,
    }
}

fn same_source(a: &MetricSource, b: &MetricSource) -> (r: bool)
    ensures
        r == source_alike(*a, *b),
{
    match (a, b) {
        (MetricSource::Prometheus(x), MetricSource::Prometheus(y)) => same_text(
            x.as_str(),
            y.as_str(),
        ),
        (
            MetricSource::PodMetricsMax { resource: x, pod_prefix: p, selector: s },
            MetricSource::PodMetricsMax { resource: y, pod_prefix: q, selector: t },
        ) => same_text(x.as_str(), y.as_str()) && same_text(p.as_str(), q.as_str())
            && same_optional(s, t),
        (MetricSource::Host(x), MetricSource::Host(y)) => same_metric(x, y),
        _ => false,
    }
}

// ─────────────────────── the cluster ───────────────────────

/// A cluster held in memory.
#[derive(Debug)]
pub struct MockCluster {
    /// The usage.
    pub used: Sample,
    /// The limit.
    pub limit: u64,
    /// The owners of the field.
    pub owners: Vec<FieldOwner>,
    /// Whether a shrink restarts nothing.
    pub resize_restart_free: bool,
    /// Why the usage cannot be read, where it cannot.
    pub read_used_error: Option<ProviderError>,
    /// Why the limit cannot be read, where it cannot.
    pub read_limit_error: Option<ProviderError>,
    /// The declared reservation.
    pub request_floor: u64,
    /// The throttling, at its own source.
    pub throttle_signal: u64,
    /// Whether the target restarts.
    pub restarting: bool,
    /// Where throttling is read, where it has a source of its own.
    pub throttle_source: Option<MetricSource>,
    /// What the storage class can do, where that is known.
    pub storage_capability: Option<StorageCapability>,
    /// The patches given, in order.
    pub applied: Vec<SsaPatch>,
}

impl MockCluster {
    /// A stable cluster with the usage, limit and owners.
    #[must_use]
    pub fn new(used: u64, age_secs: u64, limit: u64, owners: Vec<FieldOwner>) -> (r: Self)
        ensures
            r.applied@ == Seq::<SsaPatch>::empty(),
            r == (MockCluster {
                used: Sample { value: used, age_secs },
                limit,
                owners,
                resize_restart_free: false,
                read_used_error: None,
                read_limit_error: None,
                request_floor: 0,
                throttle_signal: 0,
                restarting: false,
                throttle_source: None,
                storage_capability: None,
                applied: r.applied,
            }),
    {
        MockCluster {
            used: Sample { value: used, age_secs },
            limit,
            owners,
            resize_restart_free: false,
            read_used_error: None,
            read_limit_error: None,
            request_floor: 0,
            throttle_signal: 0,
            restarting: false,
            throttle_source: None,
            storage_capability: None,
            applied: Vec::new(),
        }
    }

    /// The cluster with a throttled workload, at the source set for it or else at
    /// the query `throttle`.
    #[must_use]
    pub fn with_throttle(self, signal: u64) -> (r: Self)
        ensures
            r.throttle_source matches Some(s) && match self.throttle_source {
                Some(kept) => s == kept,
                None => s matches MetricSource::Prometheus(q) && q@ == "throttle"@,
            },
            r == (MockCluster {
                throttle_signal: signal,
                throttle_source: r.throttle_source,
                ..self
            }),
    {
        let mut s = self;
        s.throttle_signal = signal;
        if s.throttle_source.is_none() {
            s.throttle_source = Some(MetricSource::Prometheus("throttle".to_owned()));
        }
        s
    }

    /// The cluster with throttling read at the source.
    #[must_use]
    pub fn with_throttle_source(self, src: MetricSource) -> (r: Self)
        ensures
            r == (MockCluster { throttle_source: Some(src), ..self }),
    {
        let mut s = self;
        s.throttle_source = Some(src);
        s
    }

    /// The cluster with a target that restarts, or not.
    #[must_use]
    pub fn with_restarting(self, v: bool) -> (r: Self)
        ensures
            r == (MockCluster { restarting: v, ..self }),
    {
        let mut s = self;
        s.restarting = v;
        s
    }

    /// The cluster with a shrink that restarts nothing, or may.
    #[must_use]
    pub fn with_resize_restart_free(self, v: bool) -> (r: Self)
        ensures
            r == (MockCluster { resize_restart_free: v, ..self }),
    {
        let mut s = self;
        s.resize_restart_free = v;
        s
    }

    /// The cluster with a declared reservation.
    #[must_use]
    pub fn with_request_floor(self, v: u64) -> (r: Self)
        ensures
            r == (MockCluster { request_floor: v, ..self }),
    {
        let mut s = self;
        s.request_floor = v;
        s
    }

    /// The cluster with a usage that cannot be read.
    #[must_use]
    pub fn with_read_used_error(self, e: ProviderError) -> (r: Self)
        ensures
            r == (MockCluster { read_used_error: Some(e), ..self }),
    {
        let mut s = self;
        s.read_used_error = Some(e);
        s
    }

    /// The cluster with a limit that cannot be read.
    #[must_use]
    pub fn with_read_limit_error(self, e: ProviderError) -> (r: Self)
        ensures
            r == (MockCluster { read_limit_error: Some(e), ..self }),
    {
        let mut s = self;
        s.read_limit_error = Some(e);
        s
    }

    /// The cluster with a storage class.
    #[must_use]
    pub fn with_storage_capability(self, cap: Option<StorageCapability>) -> (r: Self)
        ensures
            r == (MockCluster { storage_capability: cap, ..self }),
    {
        let mut s = self;
        s.storage_capability = cap;
        s
    }

    /// The patches given, in order.
    #[must_use]
    pub fn applied(&self) -> (r: Vec<SsaPatch>)
        ensures
            r@ == self.applied@,
    {
        let mut out: Vec<SsaPatch> = Vec::new();
        let mut i: usize = 0;
        while i < self.applied.len()
            invariant
                i <= self.applied@.len(),
                out@ == self.applied@.take(i as int),
            decreases self.applied@.len() - i,
        {
            out.push(self.applied[i].clone());
            i = i + 1;
            assert(out@ =~= self.applied@.take(i as int));
        }
        assert(out@ =~= self.applied@);
        out
    }

    /// The usage, or the throttling where the source is the one set for it. Only
    /// the usage can fail.
    pub fn read_used(&self, source: &MetricSource) -> (r: Result<Sample, ProviderError>)
        ensures
            match (self.throttle_source, self.read_used_error) {
                (Some(t), _) if source_alike(*source, t) => r == Ok::<Sample, ProviderError>(
                    Sample { value: self.throttle_signal, age_secs: 0 },
                ),
                (_, Some(e)) => r == Err::<Sample, ProviderError>(e),
                (_, None) => r == Ok::<Sample, ProviderError>(self.used),
            },
    {
        let throttled = match &self.throttle_source {
            Some(t) => same_source(source, t),
            None => false,
        };
        if throttled {
            return Ok(Sample { value: self.throttle_signal, age_secs: 0 });
        }
        match &self.read_used_error {
            Some(e) => Err(e.clone()),
            None => Ok(self.used),
        }
    }

    /// The limit, whatever it is asked of.
    pub fn read_limit(&self, target: &Target, layout: &LimitLayout, resource: &str) -> (r: Result<
        u64,
        ProviderError,
    >)
        ensures
            r == match self.read_limit_error {
                Some(e) => Err::<u64, ProviderError>(e),
                None => Ok::<u64, ProviderError>(self.limit),
            },
    {
        match &self.read_limit_error {
            Some(e) => Err(e.clone()),
            None => Ok(self.limit),
        }
    }

    /// The owners, whatever they are asked of.
    pub fn field_owners(
        &self,
        target: &Target,
        layout: &LimitLayout,
        resource: &str,
        logical_field: &str,
    ) -> (r: Result<Vec<FieldOwner>, ProviderError>)
        ensures
            r matches Ok(owners) && owners@ == self.owners@,
    {
        let mut out: Vec<FieldOwner> = Vec::new();
        let mut i: usize = 0;
        while i < self.owners.len()
            invariant
                i <= self.owners@.len(),
                out@ == self.owners@.take(i as int),
            decreases self.owners@.len() - i,
        {
            out.push(self.owners[i].clone());
            i = i + 1;
            assert(out@ =~= self.owners@.take(i as int));
        }
        assert(out@ =~= self.owners@);
        Ok(out)
    }

    /// Keeps the patch, and changes no answer.
    pub fn apply(&mut self, patch: &SsaPatch) -> (r: Result<AppliedReceipt, ProviderError>)
        ensures
            final(self).applied@ == old(self).applied@.push(*patch),
            *final(self) == (MockCluster { applied: final(self).applied, ..*old(self) }),
            r matches Ok(receipt) && crate::provider::is_no_hash(receipt.source_hash),
    {
        self.applied.push(patch.clone());
        Ok(blank_receipt())
    }

    /// Whether a shrink restarts nothing, whatever it is asked of.
    pub fn read_resize_restart_free(
        &self,
        target: &Target,
        layout: &LimitLayout,
        resource: &str,
    ) -> (r: Result<bool, ProviderError>)
        ensures
            r == Ok::<bool, ProviderError>(self.resize_restart_free),
    {
        Ok(self.resize_restart_free)
    }

    /// The declared reservation, whatever it is asked of.
    pub fn read_request_floor(
        &self,
        target: &Target,
        layout: &LimitLayout,
        resource: &str,
    ) -> (r: Result<u64, ProviderError>)
        ensures
            r == Ok::<u64, ProviderError>(self.request_floor),
    {
        Ok(self.request_floor)
    }

    /// Whether the target restarts, whatever it is asked of.
    pub fn read_restarting(
        &self,
        target: &Target,
        layout: &LimitLayout,
        resource: &str,
    ) -> (r: Result<bool, ProviderError>)
        ensures
            r == Ok::<bool, ProviderError>(self.restarting),
    {
        Ok(self.restarting)
    }

    /// What the storage class can do, whatever it is asked of.
    pub fn read_storage_capability(&self, target: &Target, layout: &LimitLayout) -> (r: Result<
        Option<StorageCapability>,
        ProviderError,
    >)
        ensures
            r == Ok::<Option<StorageCapability>, ProviderError>(self.storage_capability),
    {
        match &self.storage_capability {
            Some(c) => Ok(
                Some(
                    StorageCapability {
                        volume_expansion: c.volume_expansion,
                        per_volume_metrics: c.per_volume_metrics,
                        provisioner: c.provisioner.clone(),
                    },
                ),
            ),
            None => Ok(None),
        }
    }
}

/// A source is found by what it reads: two sources are alike exactly where they
/// read the same thing, so that each is like itself, and likeness goes both ways.
pub proof fn alike_sources_read_the_same(a: MetricSource, b: MetricSource, c: MetricSource)
    ensures
        source_alike(a, a),
        source_alike(a, b) == source_alike(b, a),
        source_alike(a, b) && source_alike(b, c) ==> source_alike(a, c),
        (a matches MetricSource::Prometheus(x) && (b matches MetricSource::Prometheus(y)
            && x@ != y@)) ==> !source_alike(a, b),
        source_alike(a, b) ==> (a is Prometheus == b is Prometheus) && (a is PodMetricsMax
            == b is PodMetricsMax) && (a is Host == b is Host),
        a is PodMetricsMax && b is PodMetricsMax ==> (source_alike(a, b) <==> a->resource@
            == b->resource@ && a->pod_prefix@ == b->pod_prefix@ && optional_view(a->selector)
            == optional_view(b->selector)),
{
}

/// The text of an optional string.
pub open spec fn optional_view(o: Option<String>) -> Option<Seq<char>> {
    match o {
        Some(s) => Some(s@),
        None => None,
    }
}

} // verus!
