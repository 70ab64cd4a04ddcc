//! The host as a cluster: what a band reads of it, and what it may write.
//!
//! Every read and write goes through [`HostEnvironment`]. What is decided from
//! the answers stands in functions of its own, which take them as arguments.

use vstd::prelude::*;

use crate::dimension::{DimensionId, Directionality, FieldOwner, Sample, Target};
use crate::host::{
    cpu_millicores, io_rate_per_sec, parse_cpu_quota_usec, parse_io_max_for_device, sysctl_path,
    zfs_param_path, HostError, HostErrorView, ZFS_ARC_MAX_PATH,
};
use crate::layout::{
    knob_text, ApplySemantics, HostKnob, HostMetric, IoMaxField, LimitLayout, MetricSource,
    SsaPatch,
};
use crate::provider::{
    blank_receipt, AppliedReceipt, DimensionDescriptor, ProviderError, ProviderErrorView,
};
use crate::text::{debug_text, decimal_text};
use crate::text_map::TextMap;

verus! {

// ─────────────────────── the environment ───────────────────────

/// A read of the host.
pub enum HostRead {
    /// The size of the ZFS ARC.
    ArcSize,
    /// A row of the ARC statistics.
    ArcRow { row: Seq<char> },
    /// A field of the kernel's memory report.
    Meminfo { field: Seq<char> },
    /// A file that holds one number.
    Sysfs { path: Seq<char> },
    /// The memory that a unit holds.
    MemoryCurrent { unit: Seq<char> },
    /// A unit's accumulated cpu time.
    CpuUsage { unit: Seq<char> },
    /// A property of a unit.
    Property { unit: Seq<char>, property: Seq<char> },
    /// A pressure-stall share.
    Psi { resource: Seq<char>, kind: Seq<char> },
}

/// A write to the host.
#[derive(Debug, PartialEq, Eq)]
#[allow(inconsistent_fields)]
pub enum HostWrite {
    /// Of a file that holds one number.
    Sysfs { path: String, value: u64 },
    /// Of a numeric property of a unit.
    PropertyNumber { unit: String, property: String, value: u64 },
    /// Of a property of a unit.
    PropertyText { unit: String, property: String, value: String },
}

/// A write with its texts as characters.
#[allow(inconsistent_fields)]
pub enum HostWriteView {
    /// Of a file that holds one number.
    Sysfs { path: Seq<char>, value: u64 },
    /// Of a numeric property of a unit.
    PropertyNumber { unit: Seq<char>, property: Seq<char>, value: u64 },
    /// Of a property of a unit.
    PropertyText { unit: Seq<char>, property: Seq<char>, value: Seq<char> },
}

impl View for HostWrite {
    type V = HostWriteView;

    open spec fn view(&self) -> HostWriteView {
        match *self {
            HostWrite::Sysfs { path, value } => HostWriteView::Sysfs { path: path@, value },
            HostWrite::PropertyNumber { unit, property, value } => HostWriteView::PropertyNumber {
                unit: unit@,
                property: property@,
                value,
            },
            HostWrite::PropertyText { unit, property, value } => HostWriteView::PropertyText {
                unit: unit@,
                property: property@,
                value: value@,
            },
        }
    }
}

/// Everything that is read of the host and written to it.
pub trait HostEnvironment: Sized + Send + Sync {
    /// The host may answer the read with the number.
    open spec fn gives(&self, read: HostRead, r: Result<u64, HostError>) -> bool {
        true
    }

    /// The host may answer the read with the optional number.
    open spec fn gives_optional(&self, read: HostRead, r: Result<Option<u64>, HostError>) -> bool {
        true
    }

    /// The host may answer the read with the optional text.
    open spec fn gives_text(&self, read: HostRead, r: Result<Option<String>, HostError>) -> bool {
        true
    }

    /// The host may answer the write so, and become `after`.
    open spec fn takes(&self, write: HostWriteView, r: Result<(), HostError>, after: &Self) -> bool {
        true
    }

    /// The size of the ZFS ARC, in bytes.
    fn read_arcstats_size(&self) -> (r: Result<u64, HostError>)
        ensures
            self.gives(HostRead::ArcSize, r),
    ;

    /// A file that holds one number.
    fn read_sysfs_u64(&self, path: &str) -> (r: Result<u64, HostError>)
        ensures
            self.gives(HostRead::Sysfs { path: path@ }, r),
    ;

    /// Writes a file that holds one number.
    fn write_sysfs_u64(&mut self, path: &str, value: u64) -> (r: Result<(), HostError>)
        ensures
            old(self).takes(HostWriteView::Sysfs { path: path@, value }, r, final(self)),
    ;

    /// The memory that a unit holds, in bytes.
    fn read_cgroup_memory_current(&self, unit: &str) -> (r: Result<u64, HostError>)
        ensures
            self.gives(HostRead::MemoryCurrent { unit: unit@ }, r),
    ;

    /// A numeric property of a unit; nothing where it is unbounded.
    fn read_unit_property_u64(&self, unit: &str, property: &str) -> (r: Result<
        Option<u64>,
        HostError,
    >)
        ensures
            self.gives_optional(HostRead::Property { unit: unit@, property: property@ }, r),
    ;

    /// Sets a numeric property of a unit.
    fn set_unit_property_u64(&mut self, unit: &str, property: &str, value: u64) -> (r: Result<
        (),
        HostError,
    >)
        ensures
            old(self).takes(
                HostWriteView::PropertyNumber { unit: unit@, property: property@, value },
                r,
                final(self),
            ),
    ;

    /// A unit's accumulated cpu time, in nanoseconds.
    fn read_cpu_usage_nsec(&self, unit: &str) -> (r: Result<u64, HostError>)
        ensures
            self.gives(HostRead::CpuUsage { unit: unit@ }, r),
    ;

    /// A property of a unit as it is printed; nothing where it is unset.
    fn read_unit_property_str(&self, unit: &str, property: &str) -> (r: Result<
        Option<String>,
        HostError,
    >)
        ensures
            self.gives_text(HostRead::Property { unit: unit@, property: property@ }, r),
    ;

    /// Sets a property of a unit.
    fn set_unit_property_str(&mut self, unit: &str, property: &str, value: &str) -> (r: Result<
        (),
        HostError,
    >)
        ensures
            old(self).takes(
                HostWriteView::PropertyText { unit: unit@, property: property@, value: value@ },
                r,
                final(self),
            ),
    ;

    /// A row of the ARC statistics, in bytes.
    fn read_arcstats_row(&self, row: &str) -> (r: Result<u64, HostError>)
        ensures
            self.gives(HostRead::ArcRow { row: row@ }, r),
    ;

    /// A field of the kernel's memory report, in bytes.
    fn read_meminfo_field(&self, field: &str) -> (r: Result<u64, HostError>)
        ensures
            self.gives(HostRead::Meminfo { field: field@ }, r),
    ;

    /// A ten-second stall share, in hundredths of a percent.
    fn read_psi_avg10(&self, resource: &str, kind: &str) -> (r: Result<u64, HostError>)
        ensures
            self.gives(HostRead::Psi { resource: resource@, kind: kind@ }, r),
    ;
}

// ─────────────────────── the static ceilings ───────────────────────

/// The static ceilings of a node's levers.
#[derive(Debug)]
pub struct NodeEnvelopes {
    /// Of the ZFS ARC, in bytes.
    pub arc_max_bytes: u64,
    /// Of each unit's memory, in bytes.
    pub cgroup_max_bytes: TextMap<u64>,
    /// Of each unit's cpu, in thousandths of a core.
    pub cgroup_cpu_max_millicores: TextMap<u64>,
}

impl Default for NodeEnvelopes {
    fn default() -> (r: Self)
        ensures
            r.arc_max_bytes == 0,
            r.cgroup_max_bytes@ == Map::<Seq<char>, u64>::empty(),
            r.cgroup_cpu_max_millicores@ == Map::<Seq<char>, u64>::empty(),
    {
        NodeEnvelopes {
            arc_max_bytes: 0,
            cgroup_max_bytes: TextMap::new(),
            cgroup_cpu_max_millicores: TextMap::new(),
        }
    }
}

impl Clone for NodeEnvelopes {
    fn clone(&self) -> (r: Self)
        ensures
            r@ == self@,
    {
        NodeEnvelopes {
            arc_max_bytes: self.arc_max_bytes,
            cgroup_max_bytes: self.cgroup_max_bytes.clone(),
            cgroup_cpu_max_millicores: self.cgroup_cpu_max_millicores.clone(),
        }
    }
}

/// The static ceilings as maps.
pub struct EnvelopesView {
    /// Of the ZFS ARC, in bytes.
    pub arc: u64,
    /// Of each unit's memory, in bytes.
    pub memory: Map<Seq<char>, u64>,
    /// Of each unit's cpu, in thousandths of a core.
    pub cpu: Map<Seq<char>, u64>,
}

impl View for NodeEnvelopes {
    type V = EnvelopesView;

    open spec fn view(&self) -> EnvelopesView {
        EnvelopesView {
            arc: self.arc_max_bytes,
            memory: self.cgroup_max_bytes@,
            cpu: self.cgroup_cpu_max_millicores@,
        }
    }
}

/// The ceiling that a unit has in a map of ceilings.
pub open spec fn unit_ceiling(ceilings: Map<Seq<char>, u64>, unit: Seq<char>) -> Result<
    u64,
    HostErrorView,
> {
    if ceilings.dom().contains(unit) {
        Ok(ceilings[unit])
    } else {
        Err(HostErrorView::NoEnvelope(unit))
    }
}

impl EnvelopesView {
    /// The value that a lever may never exceed. A parameter of the whole host
    /// and an I/O cap have no static ceiling; a pod's soft limit is no lever of
    /// the node, and has none declared.
    pub open spec fn ceiling(self, knob: HostKnob) -> Result<u64, HostErrorView> {
        match knob {
            HostKnob::ZfsArcMax => Ok(self.arc),
            HostKnob::CgroupProperty { unit, .. } => unit_ceiling(self.memory, unit@),
            HostKnob::CgroupCpuQuota { unit } => unit_ceiling(self.cpu, unit@),
            HostKnob::Sysctl { .. }
            | HostKnob::ZfsParam { .. }
            | HostKnob::CgroupIoMax { .. } => Ok(u64::MAX),
            HostKnob::PodCgroupMemoryHigh { pod_uid, .. } => Err(
                HostErrorView::NoEnvelope(pod_uid@),
            ),
        }
    }
}

fn ceiling_in(ceilings: &TextMap<u64>, unit: &String) -> (r: Result<u64, HostError>)
    ensures
        crate::host::host_result(r) == unit_ceiling(ceilings@, unit@),
{
    match ceilings.get(unit.as_str()) {
        Some(c) => Ok(c),
        None => Err(HostError::NoEnvelope(unit.clone())),
    }
}

impl NodeEnvelopes {
    /// The value that a lever may never exceed.
    pub fn ceiling_for(&self, knob: &HostKnob) -> (r: Result<u64, HostError>)
        ensures
            crate::host::host_result(r) == self@.ceiling(*knob),
    {
        match knob {
            HostKnob::ZfsArcMax => Ok(self.arc_max_bytes),
            HostKnob::CgroupProperty { unit, .. } => ceiling_in(&self.cgroup_max_bytes, unit),
            HostKnob::CgroupCpuQuota { unit } => ceiling_in(&self.cgroup_cpu_max_millicores, unit),
            HostKnob::Sysctl { .. }
            | HostKnob::ZfsParam { .. }
            | HostKnob::CgroupIoMax { .. } => Ok(u64::MAX),
            HostKnob::PodCgroupMemoryHigh { pod_uid, .. } => Err(
                HostError::NoEnvelope(pod_uid.clone()),
            ),
        }
    }
}

// ─────────────────────── rates over ticks ───────────────────────

/// The last reading of each accumulated counter, with its time in nanoseconds
/// on a clock that never goes back.
pub type CpuSampleCache = TextMap<(u64, u128)>;

/// No readings yet.
#[must_use]
pub fn new_cpu_sample_cache() -> (r: CpuSampleCache)
    ensures
        r@ == Map::<Seq<char>, (u64, u128)>::empty(),
{
    TextMap::new()
}

/// The difference, or nothing where it would be negative.
pub open spec fn minus(a: nat, b: nat) -> nat {
    if a >= b {
        (a - b) as nat
    } else {
        0
    }
}

/// The rate of a counter since its last reading; the first reading has none.
pub open spec fn rate_since(
    samples: Map<Seq<char>, (u64, u128)>,
    key: Seq<char>,
    counter: u64,
    now: u128,
    scale: nat,
) -> Result<Sample, ProviderErrorView> {
    if samples.dom().contains(key) {
        Ok(
            Sample {
                value: crate::host::rate_of(
                    minus(counter as nat, samples[key].0 as nat) as u64,
                    scale,
                    minus(now as nat, samples[key].1 as nat) as u128,
                ),
                age_secs: 0,
            },
        )
    } else {
        Err(ProviderErrorView::MetricsMissing)
    }
}

/// The reading that was replaced, against the new one: how far the counter
/// went, and in how long.
fn progress(was: (u64, u128), counter: u64, now: u128) -> (r: (u64, u128))
    ensures
        r.0 == minus(counter as nat, was.0 as nat),
        r.1 == minus(now as nat, was.1 as nat),
{
    (counter.saturating_sub(was.0), now.saturating_sub(was.1))
}

/// `r` is the outcome of a rate that is taken of a counter, and `after` what is
/// kept: a counter that was read is kept for the next reading, one that was not
/// changes nothing.
pub open spec fn rated(
    read: Result<u64, HostErrorView>,
    key: Seq<char>,
    now: u128,
    scale: nat,
    before: Map<Seq<char>, (u64, u128)>,
    after: Map<Seq<char>, (u64, u128)>,
    r: Result<Sample, ProviderErrorView>,
) -> bool {
    match read {
        Err(e) => r == Err::<Sample, ProviderErrorView>(e.to_provider()) && after == before,
        Ok(counter) => r == rate_since(before, key, counter, now, scale) && after == before.insert(
            key,
            (counter, now),
        ),
    }
}

/// A unit's cpu rate from its accumulated cpu time.
pub fn cpu_sample(
    samples: &mut CpuSampleCache,
    unit: &str,
    read: Result<u64, HostError>,
    now: u128,
) -> (r: Result<Sample, ProviderError>)
    ensures
        rated(
            crate::host::host_result(read),
            unit@,
            now,
            1000,
            old(samples)@,
            final(samples)@,
            crate::provider::provider_result(r),
        ),
{
    match read {
        Err(e) => Err(e.into_provider()),
        Ok(nsec) => match samples.insert(unit.to_owned(), (nsec, now)) {
            None => Err(ProviderError::MetricsMissing),
            Some(was) => {
                let (delta, window) = progress(was, nsec, now);
                Ok(Sample { value: cpu_millicores(delta, window), age_secs: 0 })
            },
        },
    }
}

/// The key of a unit's I/O counter.
pub open spec fn io_key(unit: Seq<char>, field: IoMaxField) -> Seq<char> {
    "io:"@ + unit + ":"@ + field.name()
}

/// An unset counter counts as nothing.
pub open spec fn or_nothing(read: Result<Option<u64>, HostErrorView>) -> Result<
    u64,
    HostErrorView,
> {
    match read {
        Err(e) => Err(e),
        Ok(Some(n)) => Ok(n),
        Ok(None) => Ok(0),
    }
}

/// A unit's I/O rate from its accumulated counter.
pub fn io_sample(
    samples: &mut CpuSampleCache,
    unit: &str,
    field: IoMaxField,
    read: Result<Option<u64>, HostError>,
    now: u128,
) -> (r: Result<Sample, ProviderError>)
    ensures
        rated(
            or_nothing(crate::host::host_result(read)),
            io_key(unit@, field),
            now,
            1_000_000_000,
            old(samples)@,
            final(samples)@,
            crate::provider::provider_result(r),
        ),
{
    match read {
        Err(e) => Err(e.into_provider()),
        Ok(c) => {
            let counter: u64 = match c {
                Some(n) => n,
                None => 0,
            };
            let mut key = "io:".to_owned();
            key.append(unit);
            key.append(":");
            key.append(field.as_str());
            match samples.insert(key, (counter, now)) {
                None => Err(ProviderError::MetricsMissing),
                Some(was) => {
                    let (delta, window) = progress(was, counter, now);
                    Ok(Sample { value: io_rate_per_sec(delta, window), age_secs: 0 })
                },
            }
        },
    }
}

/// Readings of cpu time and of I/O never share a key, unless a unit's own name
/// starts as an I/O key does.
pub proof fn cpu_and_io_readings_stay_apart(unit: Seq<char>, other: Seq<char>, field: IoMaxField)
    requires
        !crate::text::starts(unit, "io:"@),
    ensures
        unit != io_key(other, field),
{
    assert(io_key(other, field).take("io:"@.len() as int) =~= "io:"@);
}

/// Readings of I/O share a key only where the unit and the counter are the same.
pub proof fn io_readings_stay_apart(
    unit: Seq<char>,
    field: IoMaxField,
    other: Seq<char>,
    other_field: IoMaxField,
)
    requires
        io_key(unit, field) == io_key(other, other_field),
    ensures
        unit == other,
        field == other_field,
{
    reveal_strlit("io:");
    reveal_strlit(":");
    reveal_strlit("rbps");
    reveal_strlit("wbps");
    reveal_strlit("riops");
    reveal_strlit("wiops");
    let a = io_key(unit, field);
    let b = io_key(other, other_field);
    let n = a.len() as int;
    assert(a[n - 1] == field.name()[field.name().len() - 1]);
    assert(a[n - 4] == field.name()[field.name().len() - 4]);
    assert(a[n - 5] == if field.name().len() == 4 {
        ':'
    } else {
        field.name()[0]
    });
    assert(b[n - 4] == other_field.name()[other_field.name().len() - 4]);
    assert(b[n - 5] == if other_field.name().len() == 4 {
        ':'
    } else {
        other_field.name()[0]
    });
    assert(field == other_field);
    assert(unit =~= a.subrange(3, 3 + unit.len() as int));
    assert(other =~= b.subrange(3, 3 + other.len() as int));
}

// ─────────────────────── deciding from the answers ───────────────────────

/// A reading of the moment.
pub open spec fn fresh(read: Result<u64, HostErrorView>) -> Result<Sample, ProviderErrorView> {
    match read {
        Ok(value) => Ok(Sample { value, age_secs: 0 }),
        Err(e) => Err(e.to_provider()),
    }
}

/// A reading of the moment.
pub fn fresh_sample(read: Result<u64, HostError>) -> (r: Result<Sample, ProviderError>)
    ensures
        crate::provider::provider_result(r) == fresh(crate::host::host_result(read)),
{
    match read {
        Ok(value) => Ok(Sample { value, age_secs: 0 }),
        Err(e) => Err(e.into_provider()),
    }
}

/// A host result as a provider sees it.
pub open spec fn as_provider<T>(r: Result<T, HostErrorView>) -> Result<T, ProviderErrorView> {
    match r {
        Ok(v) => Ok(v),
        Err(e) => Err(e.to_provider()),
    }
}

fn for_provider(r: Result<u64, HostError>) -> (p: Result<u64, ProviderError>)
    ensures
        crate::provider::provider_result(p) == as_provider(crate::host::host_result(r)),
{
    match r {
        Ok(v) => Ok(v),
        Err(e) => Err(e.into_provider()),
    }
}

/// The ARC's limit from its file: where the host sizes the ARC itself, the
/// ceiling.
pub open spec fn arc_limit_of(env: EnvelopesView, read: Result<u64, HostErrorView>) -> Result<
    u64,
    ProviderErrorView,
> {
    match read {
        Err(e) => Err(e.to_provider()),
        Ok(v) => if v == 0 {
            as_provider(env.ceiling(HostKnob::ZfsArcMax))
        } else {
            Ok(v)
        },
    }
}

/// The ARC's limit from its file.
pub fn arc_limit(envelopes: &NodeEnvelopes, read: Result<u64, HostError>) -> (r: Result<
    u64,
    ProviderError,
>)
    ensures
        crate::provider::provider_result(r) == arc_limit_of(
            envelopes@,
            crate::host::host_result(read),
        ),
{
    match read {
        Err(e) => Err(e.into_provider()),
        Ok(v) => {
            if v == 0 {
                for_provider(envelopes.ceiling_for(&HostKnob::ZfsArcMax))
            } else {
                Ok(v)
            }
        },
    }
}

/// A unit's limit from its property: where it is unbounded, the ceiling.
pub open spec fn property_limit_of(
    env: EnvelopesView,
    knob: HostKnob,
    read: Result<Option<u64>, HostErrorView>,
) -> Result<u64, ProviderErrorView> {
    match read {
        Err(e) => Err(e.to_provider()),
        Ok(Some(v)) => Ok(v),
        Ok(None) => as_provider(env.ceiling(knob)),
    }
}

/// A unit's limit from its property.
pub fn property_limit(
    envelopes: &NodeEnvelopes,
    knob: &HostKnob,
    read: Result<Option<u64>, HostError>,
) -> (r: Result<u64, ProviderError>)
    ensures
        crate::provider::provider_result(r) == property_limit_of(
            envelopes@,
            *knob,
            crate::host::host_result(read),
        ),
{
    match read {
        Err(e) => Err(e.into_provider()),
        Ok(Some(v)) => Ok(v),
        Ok(None) => for_provider(envelopes.ceiling_for(knob)),
    }
}

/// A host result with its text as characters.
pub open spec fn text_result(r: Result<Option<String>, HostError>) -> Result<
    Option<Seq<char>>,
    HostErrorView,
> {
    match r {
        Ok(Some(s)) => Ok(Some(s@)),
        Ok(None) => Ok(None),
        Err(e) => Err(e@),
    }
}

/// A unit's cpu limit, in thousandths of a core, from its quota of cpu time per
/// second: where it is unset or unbounded, the ceiling.
pub open spec fn quota_limit_of(
    env: EnvelopesView,
    knob: HostKnob,
    unit: Seq<char>,
    read: Result<Option<Seq<char>>, HostErrorView>,
) -> Result<u64, ProviderErrorView> {
    match read {
        Err(e) => Err(e.to_provider()),
        Ok(None) => as_provider(env.ceiling(knob)),
        Ok(Some(raw)) => match crate::host::quota_usec(raw) {
            Ok(Some(usec)) => Ok(usec / 1000),
            Ok(None) => as_provider(env.ceiling(knob)),
            Err(_) => Err(
                ProviderErrorView::ApiPermanent(
                    "unparseable CPUQuotaPerSecUSec "@ + crate::text::debug_quoted(raw) + " for "@
                        + unit,
                ),
            ),
        },
    }
}

/// A unit's cpu limit from its quota of cpu time per second.
pub fn quota_limit(
    envelopes: &NodeEnvelopes,
    knob: &HostKnob,
    unit: &str,
    read: Result<Option<String>, HostError>,
) -> (r: Result<u64, ProviderError>)
    ensures
        crate::provider::provider_result(r) == quota_limit_of(
            envelopes@,
            *knob,
            unit@,
            text_result(read),
        ),
{
    match read {
        Err(e) => Err(e.into_provider()),
        Ok(None) => for_provider(envelopes.ceiling_for(knob)),
        Ok(Some(raw)) => match parse_cpu_quota_usec(raw.as_str()) {
            Ok(Some(usec)) => Ok(usec / 1000),
            Ok(None) => for_provider(envelopes.ceiling_for(knob)),
            Err(_) => {
                let mut s = "unparseable CPUQuotaPerSecUSec ".to_owned();
                s.append(debug_text(raw.as_str()).as_str());
                s.append(" for ");
                s.append(unit);
                Err(ProviderError::ApiPermanent(s))
            },
        },
    }
}

/// A device's I/O cap from the unit's property: without one, the largest number.
pub open spec fn io_limit_of(
    device: Seq<char>,
    read: Result<Option<Seq<char>>, HostErrorView>,
) -> Result<u64, ProviderErrorView> {
    match read {
        Err(e) => Err(e.to_provider()),
        Ok(None) => Ok(u64::MAX),
        Ok(Some(raw)) => match crate::host::device_cap(crate::text::words(raw), device) {
            Some(v) => Ok(v),
            None => Ok(u64::MAX),
        },
    }
}

/// A device's I/O cap from the unit's property.
pub fn io_limit(device: &str, read: Result<Option<String>, HostError>) -> (r: Result<
    u64,
    ProviderError,
>)
    ensures
        crate::provider::provider_result(r) == io_limit_of(device@, text_result(read)),
{
    match read {
        Err(e) => Err(e.into_provider()),
        Ok(None) => Ok(u64::MAX),
        Ok(Some(raw)) => match parse_io_max_for_device(raw.as_str(), device) {
            Some(v) => Ok(v),
            None => Ok(u64::MAX),
        },
    }
}

/// The write that sets a lever: cpu is set in percent of a core, an I/O cap by
/// its device. A pod's soft limit has no write here.
pub open spec fn write_of(knob: HostKnob, value: u64) -> Option<HostWriteView> {
    match knob {
        HostKnob::ZfsArcMax => Some(HostWriteView::Sysfs { path: ZFS_ARC_MAX_PATH@, value }),
        HostKnob::CgroupProperty { unit, property } => Some(
            HostWriteView::PropertyNumber { unit: unit@, property: property@, value },
        ),
        HostKnob::CgroupCpuQuota { unit } => Some(
            HostWriteView::PropertyText {
                unit: unit@,
                property: "CPUQuota"@,
                value: crate::text::decimal((value / 10) as nat) + "%"@,
            },
        ),
        HostKnob::Sysctl { key } => Some(
            HostWriteView::Sysfs { path: "/proc/sys/"@ + crate::host::slashed(key@), value },
        ),
        HostKnob::ZfsParam { param } => Some(
            HostWriteView::Sysfs { path: crate::host::ZFS_PARAM_DIR@ + param@, value },
        ),
        HostKnob::CgroupIoMax { unit, device, field } => Some(
            HostWriteView::PropertyText {
                unit: unit@,
                property: field.cap_name(),
                value: device@ + " "@ + crate::text::decimal(value as nat),
            },
        ),
        HostKnob::PodCgroupMemoryHigh { .. } => None,
    }
}

/// The write that a patch comes to: none in shadow mode, and an error where the
/// layout is no lever of the host, where the lever has no ceiling, or where the
/// value is above it.
pub open spec fn planned_write(env: EnvelopesView, write_enabled: bool, patch: SsaPatch) -> Result<
    Option<HostWriteView>,
    ProviderErrorView,
> {
    match patch.layout {
        LimitLayout::Host(knob) => match env.ceiling(knob) {
            Err(e) => Err(e.to_provider()),
            Ok(ceiling) => if patch.value > ceiling {
                Err(
                    ProviderErrorView::ApiPermanent(
                        "host value "@ + crate::text::decimal(patch.value as nat)
                            + " exceeds L2 ceiling "@ + crate::text::decimal(ceiling as nat)
                            + " for "@ + crate::layout::knob_words(knob) + " — refused"@,
                    ),
                )
            } else if write_enabled {
                Ok(write_of(knob, patch.value))
            } else {
                Ok(None)
            },
        },
        _ => Err(
            ProviderErrorView::ApiPermanent(
                "k8s layout on HostCluster apply (route k8s dimensions to KubeCluster)"@,
            ),
        ),
    }
}

/// A planned write with its texts as characters.
pub open spec fn plan_result(r: Result<Option<HostWrite>, ProviderError>) -> Result<
    Option<HostWriteView>,
    ProviderErrorView,
> {
    match r {
        Ok(Some(w)) => Ok(Some(w@)),
        Ok(None) => Ok(None),
        Err(e) => Err(e@),
    }
}

fn lever_write(knob: &HostKnob, value: u64) -> (r: Option<HostWrite>)
    ensures
        match r {
            Some(w) => write_of(*knob, value) == Some(w@),
            None => write_of(*knob, value) is None,
        },
{
    match knob {
        HostKnob::ZfsArcMax => Some(
            HostWrite::Sysfs { path: ZFS_ARC_MAX_PATH.to_owned(), value },
        ),
        HostKnob::CgroupProperty { unit, property } => Some(
            HostWrite::PropertyNumber { unit: unit.clone(), property: property.clone(), value },
        ),
        HostKnob::CgroupCpuQuota { unit } => {
            let mut percent = decimal_text(value / 10);
            percent.append("%");
            Some(
                HostWrite::PropertyText {
                    unit: unit.clone(),
                    property: "CPUQuota".to_owned(),
                    value: percent,
                },
            )
        },
        HostKnob::Sysctl { key } => Some(
            HostWrite::Sysfs { path: sysctl_path(key.as_str()), value },
        ),
        HostKnob::ZfsParam { param } => Some(
            HostWrite::Sysfs { path: zfs_param_path(param.as_str()), value },
        ),
        HostKnob::CgroupIoMax { unit, device, field } => {
            let mut cap = device.clone();
            cap.append(" ");
            cap.append(decimal_text(value).as_str());
            Some(
                HostWrite::PropertyText {
                    unit: unit.clone(),
                    property: field.cap_property().to_owned(),
                    value: cap,
                },
            )
        },
        HostKnob::PodCgroupMemoryHigh { .. } => None,
    }
}

/// The write that a patch comes to.
pub fn plan_write(envelopes: &NodeEnvelopes, write_enabled: bool, patch: &SsaPatch) -> (r: Result<
    Option<HostWrite>,
    ProviderError,
>)
    ensures
        plan_result(r) == planned_write(envelopes@, write_enabled, *patch),
{
    match &patch.layout {
        LimitLayout::Host(knob) => {
            let ceiling: u64 = match envelopes.ceiling_for(knob) {
                Ok(c) => c,
                Err(e) => {
                    return Err(e.into_provider());
                },
            };
            if patch.value > ceiling {
                let mut s = "host value ".to_owned();
                s.append(decimal_text(patch.value).as_str());
                s.append(" exceeds L2 ceiling ");
                s.append(decimal_text(ceiling).as_str());
                s.append(" for ");
                s.append(knob_text(knob).as_str());
                s.append(" — refused");
                return Err(ProviderError::ApiPermanent(s));
            }
            if write_enabled {
                Ok(lever_write(knob, patch.value))
            } else {
                Ok(None)
            }
        },
        _ => Err(
            ProviderError::permanent(
                "k8s layout on HostCluster apply (route k8s dimensions to KubeCluster)",
            ),
        ),
    }
}

/// Whatever is written stays within the lever's static ceiling, and is the
/// value asked for on the lever asked for.
pub proof fn no_write_exceeds_its_ceiling(
    env: EnvelopesView,
    write_enabled: bool,
    patch: SsaPatch,
    write: HostWriteView,
)
    requires
        planned_write(env, write_enabled, patch) == Ok::<Option<HostWriteView>, ProviderErrorView>(
            Some(write),
        ),
    ensures
        patch.layout matches LimitLayout::Host(knob) && (env.ceiling(knob) matches Ok(c)
            && patch.value <= c) && write_of(knob, patch.value) == Some(write),
{
}

/// In shadow mode nothing is ever written, and what is refused is refused as
/// in live mode.
pub proof fn shadow_decides_and_never_writes(env: EnvelopesView, patch: SsaPatch)
    ensures
        planned_write(env, false, patch) matches Ok(w) ==> w is None,
        planned_write(env, false, patch) is Err <==> planned_write(env, true, patch) is Err,
        planned_write(env, false, patch) matches Err(e) ==> planned_write(env, true, patch)
            == Err::<Option<HostWriteView>, ProviderErrorView>(e),
        planned_write(env, true, patch) is Ok ==> planned_write(env, true, patch)->Ok_0 is Some,
{
}

/// A number written to a file reads back.
pub proof fn a_written_number_reads_back(value: u64)
    ensures
        crate::host::number_of(crate::text::trimmed(crate::text::decimal(value as nat))) == Ok::<
            u64,
            HostErrorView,
        >(value),
{
    crate::text::lemma_decimal_is_solid(value as nat);
    crate::text::lemma_solid_is_trimmed(crate::text::decimal(value as nat));
    crate::text::a_number_reads_back_from_its_numeral(value);
}

/// An I/O cap written for a device reads back as that device's cap.
pub proof fn a_written_io_cap_reads_back(
    unit: String,
    device: String,
    field: IoMaxField,
    value: u64,
    write: HostWriteView,
    text: Seq<char>,
)
    requires
        device@.len() > 0,
        crate::text::solid(device@),
        write_of(HostKnob::CgroupIoMax { unit, device, field }, value) == Some(write),
        write matches HostWriteView::PropertyText { value: t, .. } && t == text,
    ensures
        io_limit_of(device@, Ok::<Option<Seq<char>>, HostErrorView>(Some(text))) == Ok::<
            u64,
            ProviderErrorView,
        >(value),
{
    crate::text::lemma_decimal_is_solid(value as nat);
    crate::text::lemma_two_words(device@, crate::text::decimal(value as nat));
    crate::text::a_number_reads_back_from_its_numeral(value);
}

// ─────────────────────── the cluster ───────────────────────

/// The host as a cluster. Without leave to write it is in shadow mode: it reads
/// and decides, and writes nothing.
pub struct HostCluster<H: HostEnvironment> {
    env: H,
    envelopes: NodeEnvelopes,
    write_enabled: bool,
    cpu_samples: CpuSampleCache,
}

/// The read that a metric of the moment takes.
pub open spec fn metric_read(metric: HostMetric) -> HostRead {
    match metric {
        HostMetric::ArcSize => HostRead::ArcSize,
        HostMetric::ArcKstat { row } => HostRead::ArcRow { row: row@ },
        HostMetric::MeminfoField { field } => HostRead::Meminfo { field: field@ },
        HostMetric::CgroupMemoryCurrent { unit } => HostRead::MemoryCurrent { unit: unit@ },
        HostMetric::CgroupCpuUsage { unit } => HostRead::CpuUsage { unit: unit@ },
        HostMetric::CgroupIoStat { unit, field } => HostRead::Property {
            unit: unit@,
            property: field.counter_name(),
        },
        HostMetric::Psi { resource, kind } => HostRead::Psi {
            resource: resource.name(),
            kind: kind.name(),
        },
    }
}

/// `r` is the outcome of reading the source on a host that keeps `before` of
/// earlier readings, and `after` of this one.
pub open spec fn used_outcome<H: HostEnvironment>(
    env: H,
    source: MetricSource,
    now: u128,
    before: Map<Seq<char>, (u64, u128)>,
    after: Map<Seq<char>, (u64, u128)>,
    r: Result<Sample, ProviderErrorView>,
) -> bool {
    match source {
        MetricSource::Host(metric) => match metric {
            HostMetric::CgroupCpuUsage { unit } => exists|x: Result<u64, HostError>|
                #[trigger] env.gives(metric_read(metric), x) && rated(
                    crate::host::host_result(x),
                    unit@,
                    now,
                    1000,
                    before,
                    after,
                    r,
                ),
            HostMetric::CgroupIoStat { unit, field } => exists|
                x: Result<Option<u64>, HostError>,
            |
                #[trigger] env.gives_optional(metric_read(metric), x) && rated(
                    or_nothing(crate::host::host_result(x)),
                    io_key(unit@, field),
                    now,
                    1_000_000_000,
                    before,
                    after,
                    r,
                ),
            _ => after == before && exists|x: Result<u64, HostError>|
                #[trigger] env.gives(metric_read(metric), x) && r == fresh(
                    crate::host::host_result(x),
                ),
        },
        _ => after == before && r == Err::<Sample, ProviderErrorView>(
            ProviderErrorView::ApiPermanent(
                "k8s metric source on HostCluster (route k8s dimensions to KubeCluster)"@,
            ),
        ),
    }
}

/// `r` is the outcome of reading the limit of the layout on the host.
pub open spec fn limit_outcome<H: HostEnvironment>(
    env: H,
    envelopes: EnvelopesView,
    layout: LimitLayout,
    r: Result<u64, ProviderErrorView>,
) -> bool {
    let elsewhere = r == Err::<u64, ProviderErrorView>(
        ProviderErrorView::ApiPermanent(
            "k8s layout on HostCluster (route k8s dimensions to KubeCluster)"@,
        ),
    );
    match layout {
        LimitLayout::Host(knob) => match knob {
            HostKnob::ZfsArcMax => exists|x: Result<u64, HostError>|
                #[trigger] env.gives(HostRead::Sysfs { path: ZFS_ARC_MAX_PATH@ }, x) && r
                    == arc_limit_of(envelopes, crate::host::host_result(x)),
            HostKnob::CgroupProperty { unit, property } => exists|
                x: Result<Option<u64>, HostError>,
            |
                #[trigger] env.gives_optional(
                    HostRead::Property { unit: unit@, property: property@ },
                    x,
                ) && r == property_limit_of(envelopes, knob, crate::host::host_result(x)),
            HostKnob::CgroupCpuQuota { unit } => exists|x: Result<Option<String>, HostError>|
                #[trigger] env.gives_text(
                    HostRead::Property { unit: unit@, property: "CPUQuotaPerSecUSec"@ },
                    x,
                ) && r == quota_limit_of(envelopes, knob, unit@, text_result(x)),
            HostKnob::Sysctl { key } => exists|x: Result<u64, HostError>|
                #[trigger] env.gives(
                    HostRead::Sysfs { path: "/proc/sys/"@ + crate::host::slashed(key@) },
                    x,
                ) && r == as_provider(crate::host::host_result(x)),
            HostKnob::ZfsParam { param } => exists|x: Result<u64, HostError>|
                #[trigger] env.gives(
                    HostRead::Sysfs { path: crate::host::ZFS_PARAM_DIR@ + param@ },
                    x,
                ) && r == as_provider(crate::host::host_result(x)),
            HostKnob::CgroupIoMax { unit, device, field } => exists|
                x: Result<Option<String>, HostError>,
            |
                #[trigger] env.gives_text(
                    HostRead::Property { unit: unit@, property: field.cap_name() },
                    x,
                ) && r == io_limit_of(device@, text_result(x)),
            HostKnob::PodCgroupMemoryHigh { .. } => elsewhere,
        },
        _ => elsewhere,
    }
}

impl<H: HostEnvironment> HostCluster<H> {
    /// The environment.
    pub closed spec fn environment(&self) -> H {
        self.env
    }

    /// The static ceilings.
    pub closed spec fn ceilings(&self) -> EnvelopesView {
        self.envelopes@
    }

    /// Whether it has leave to write.
    pub closed spec fn live(&self) -> bool {
        self.write_enabled
    }

    /// The readings kept from earlier ticks.
    pub closed spec fn samples(&self) -> Map<Seq<char>, (u64, u128)> {
        self.cpu_samples@
    }

    /// The host within its ceilings, without earlier readings.
    pub fn new(env: H, envelopes: NodeEnvelopes, write_enabled: bool) -> (r: Self)
        ensures
            r.environment() == env,
            r.ceilings() == envelopes@,
            r.live() == write_enabled,
            r.samples() == Map::<Seq<char>, (u64, u128)>::empty(),
    {
        HostCluster { env, envelopes, write_enabled, cpu_samples: new_cpu_sample_cache() }
    }

    /// The host in shadow mode.
    pub fn shadow(env: H, envelopes: NodeEnvelopes) -> (r: Self)
        ensures
            r.environment() == env,
            r.ceilings() == envelopes@,
            !r.live(),
            r.samples() == Map::<Seq<char>, (u64, u128)>::empty(),
    {
        Self::new(env, envelopes, false)
    }

    /// The host with the readings of earlier ticks.
    #[must_use]
    pub fn with_cpu_samples(self, cache: CpuSampleCache) -> (r: Self)
        ensures
            r.environment() == self.environment(),
            r.ceilings() == self.ceilings(),
            r.live() == self.live(),
            r.samples() == cache@,
    {
        HostCluster {
            env: self.env,
            envelopes: self.envelopes,
            write_enabled: self.write_enabled,
            cpu_samples: cache,
        }
    }

    /// The readings, to be handed to the next tick.
    #[must_use]
    pub fn into_cpu_samples(self) -> (r: CpuSampleCache)
        ensures
            r@ == self.samples(),
    {
        self.cpu_samples
    }

    /// The environment.
    pub fn env(&self) -> (r: &H)
        ensures
            *r == self.environment(),
    {
        &self.env
    }

    /// Whether it has leave to write.
    pub fn writes_enabled(&self) -> (r: bool)
        ensures
            r == self.live(),
    {
        self.write_enabled
    }

    /// The usage at a source. `now` is the time in nanoseconds on a clock that
    /// never goes back; rates are taken against the last reading.
    pub fn read_used(&mut self, source: &MetricSource, now: u128) -> (r: Result<
        Sample,
        ProviderError,
    >)
        ensures
            final(self).environment() == old(self).environment(),
            final(self).ceilings() == old(self).ceilings(),
            final(self).live() == old(self).live(),
            used_outcome(
                old(self).environment(),
                *source,
                now,
                old(self).samples(),
                final(self).samples(),
                crate::provider::provider_result(r),
            ),
    {
        let metric = match source {
            MetricSource::Host(metric) => metric,
            _ => {
                return Err(
                    ProviderError::permanent(
                        "k8s metric source on HostCluster (route k8s dimensions to KubeCluster)",
                    ),
                );
            },
        };
        match metric {
            HostMetric::ArcSize => fresh_sample(self.env.read_arcstats_size()),
            HostMetric::ArcKstat { row } => fresh_sample(self.env.read_arcstats_row(row.as_str())),
            HostMetric::MeminfoField { field } => fresh_sample(
                self.env.read_meminfo_field(field.as_str()),
            ),
            HostMetric::CgroupMemoryCurrent { unit } => fresh_sample(
                self.env.read_cgroup_memory_current(unit.as_str()),
            ),
            HostMetric::CgroupCpuUsage { unit } => {
                let read = self.env.read_cpu_usage_nsec(unit.as_str());
                cpu_sample(&mut self.cpu_samples, unit.as_str(), read, now)
            },
            HostMetric::CgroupIoStat { unit, field } => {
                let read = self.env.read_unit_property_u64(unit.as_str(), field.counter_property());
                io_sample(&mut self.cpu_samples, unit.as_str(), *field, read, now)
            },
            HostMetric::Psi { resource, kind } => fresh_sample(
                self.env.read_psi_avg10(resource.as_str(), kind.as_str()),
            ),
        }
    }

    /// The limit that a layout holds.
    pub fn read_limit(&self, target: &Target, layout: &LimitLayout, resource: &str) -> (r: Result<
        u64,
        ProviderError,
    >)
        ensures
            limit_outcome(
                self.environment(),
                self.ceilings(),
                *layout,
                crate::provider::provider_result(r),
            ),
    {
        match layout {
            LimitLayout::Host(knob) => match knob {
                HostKnob::ZfsArcMax => arc_limit(
                    &self.envelopes,
                    self.env.read_sysfs_u64(ZFS_ARC_MAX_PATH),
                ),
                HostKnob::CgroupProperty { unit, property } => property_limit(
                    &self.envelopes,
                    knob,
                    self.env.read_unit_property_u64(unit.as_str(), property.as_str()),
                ),
                HostKnob::CgroupCpuQuota { unit } => quota_limit(
                    &self.envelopes,
                    knob,
                    unit.as_str(),
                    self.env.read_unit_property_str(unit.as_str(), "CPUQuotaPerSecUSec"),
                ),
                HostKnob::Sysctl { key } => for_provider(
                    self.env.read_sysfs_u64(sysctl_path(key.as_str()).as_str()),
                ),
                HostKnob::ZfsParam { param } => for_provider(
                    self.env.read_sysfs_u64(zfs_param_path(param.as_str()).as_str()),
                ),
                HostKnob::CgroupIoMax { unit, device, field } => io_limit(
                    device.as_str(),
                    self.env.read_unit_property_str(unit.as_str(), field.cap_property()),
                ),
                HostKnob::PodCgroupMemoryHigh { .. } => Err(
                    ProviderError::permanent(
                        "k8s layout on HostCluster (route k8s dimensions to KubeCluster)",
                    ),
                ),
            },
            _ => Err(
                ProviderError::permanent(
                    "k8s layout on HostCluster (route k8s dimensions to KubeCluster)",
                ),
            ),
        }
    }

    /// Who owns a lever's field: a lever of the host has no owners.
    pub fn field_owners(
        &self,
        target: &Target,
        layout: &LimitLayout,
        resource: &str,
        logical_field: &str,
    ) -> (r: Result<Vec<FieldOwner>, ProviderError>)
        ensures
            r matches Ok(owners) && owners@.len() == 0,
    {
        Ok(Vec::new())
    }

    /// Applies a patch: what is written is what [`planned_write`] says, and
    /// where that is nothing the host stays as it is.
    pub fn apply(&mut self, patch: &SsaPatch) -> (r: Result<AppliedReceipt, ProviderError>)
        ensures
            final(self).ceilings() == old(self).ceilings(),
            final(self).live() == old(self).live(),
            final(self).samples() == old(self).samples(),
            match planned_write(old(self).ceilings(), old(self).live(), *patch) {
                Err(e) => (r matches Err(x) && x@ == e) && final(self).environment() == old(
                    self,
                ).environment(),
                Ok(None) => (r matches Ok(receipt) && crate::provider::is_no_hash(
                    receipt.source_hash,
                )) && final(self).environment() == old(self).environment(),
                Ok(Some(write)) => exists|x: Result<(), HostError>|
                    #[trigger] old(self).environment().takes(
                        write,
                        x,
                        &final(self).environment(),
                    ) && match x {
                        Ok(_) => r matches Ok(receipt) && crate::provider::is_no_hash(
                            receipt.source_hash,
                        ),
                        Err(e) => r matches Err(p) && p@ == e@.to_provider(),
                    },
            },
    {
        let write = match plan_write(&self.envelopes, self.write_enabled, patch) {
            Err(e) => {
                return Err(e);
            },
            Ok(None) => {
                return Ok(blank_receipt());
            },
            Ok(Some(w)) => w,
        };
        let done = match &write {
            HostWrite::Sysfs { path, value } => self.env.write_sysfs_u64(path.as_str(), *value),
            HostWrite::PropertyNumber { unit, property, value } => self.env.set_unit_property_u64(
                unit.as_str(),
                property.as_str(),
                *value,
            ),
            HostWrite::PropertyText { unit, property, value } => self.env.set_unit_property_str(
                unit.as_str(),
                property.as_str(),
                value.as_str(),
            ),
        };
        assert(old(self).environment().takes(write@, done, &self.environment()));
        match done {
            Ok(_) => Ok(blank_receipt()),
            Err(e) => Err(e.into_provider()),
        }
    }
}

// ─────────────────────── the dimensions of the host ───────────────────────

/// The ZFS ARC, carved by its ceiling.
#[derive(Debug, Default)]
pub struct ArcDescriptor;

impl DimensionDescriptor for ArcDescriptor {
    open spec fn dimension(&self) -> DimensionId {
        DimensionId::Arc
    }

    open spec fn directions(&self) -> Directionality {
        Directionality::Bidirectional
    }

    open spec fn manager(&self) -> Seq<char> {
        "breathe/arc"@
    }

    open spec fn field(&self) -> Seq<char> {
        "host.zfs.arc_max"@
    }

    open spec fn resource_name(&self) -> Seq<char> {
        "memory"@
    }

    open spec fn application(&self) -> ApplySemantics {
        ApplySemantics::ContinuousReconciliation
    }

    open spec fn lives_at(&self, target: Target, layout: LimitLayout) -> bool {
        layout == LimitLayout::Host(HostKnob::ZfsArcMax)
    }

    open spec fn reads_from(&self, target: Target, source: MetricSource) -> bool {
        source == MetricSource::Host(HostMetric::ArcSize)
    }

    fn id(&self) -> DimensionId {
        DimensionId::Arc
    }

    fn directionality(&self) -> Directionality {
        Directionality::Bidirectional
    }

    fn field_manager(&self) -> &'static str {
        "breathe/arc"
    }

    fn logical_field(&self) -> &'static str {
        "host.zfs.arc_max"
    }

    fn resource(&self) -> &'static str {
        "memory"
    }

    fn semantics(&self) -> ApplySemantics {
        ApplySemantics::ContinuousReconciliation
    }

    fn layout(&self, target: &Target) -> LimitLayout {
        LimitLayout::Host(HostKnob::ZfsArcMax)
    }

    fn metric_source(&self, target: &Target) -> MetricSource {
        MetricSource::Host(HostMetric::ArcSize)
    }
}

/// The memory of the unit that the target names, carved by its high-water mark.
#[derive(Debug, Default)]
pub struct CgroupMemoryDescriptor;

impl DimensionDescriptor for CgroupMemoryDescriptor {
    open spec fn dimension(&self) -> DimensionId {
        DimensionId::Cgroup
    }

    open spec fn directions(&self) -> Directionality {
        Directionality::Bidirectional
    }

    open spec fn manager(&self) -> Seq<char> {
        "breathe/cgroup"@
    }

    open spec fn field(&self) -> Seq<char> {
        "host.cgroup.memory_high"@
    }

    open spec fn resource_name(&self) -> Seq<char> {
        "memory"@
    }

    open spec fn application(&self) -> ApplySemantics {
        ApplySemantics::ContinuousReconciliation
    }

    open spec fn lives_at(&self, target: Target, layout: LimitLayout) -> bool {
        layout matches LimitLayout::Host(HostKnob::CgroupProperty { unit, property }) && unit
            == target.name && property@ == "MemoryHigh"@
    }

    open spec fn reads_from(&self, target: Target, source: MetricSource) -> bool {
        source == MetricSource::Host(HostMetric::CgroupMemoryCurrent { unit: target.name })
    }

    fn id(&self) -> DimensionId {
        DimensionId::Cgroup
    }

    fn directionality(&self) -> Directionality {
        Directionality::Bidirectional
    }

    fn field_manager(&self) -> &'static str {
        "breathe/cgroup"
    }

    fn logical_field(&self) -> &'static str {
        "host.cgroup.memory_high"
    }

    fn resource(&self) -> &'static str {
        "memory"
    }

    fn semantics(&self) -> ApplySemantics {
        ApplySemantics::ContinuousReconciliation
    }

    fn layout(&self, target: &Target) -> LimitLayout {
        LimitLayout::Host(
            HostKnob::CgroupProperty {
                unit: target.name.clone(),
                property: "MemoryHigh".to_owned(),
            },
        )
    }

    fn metric_source(&self, target: &Target) -> MetricSource {
        MetricSource::Host(HostMetric::CgroupMemoryCurrent { unit: target.name.clone() })
    }
}

/// The cpu of the unit that the target names, carved by its quota.
#[derive(Debug, Default)]
pub struct CgroupCpuDescriptor;

impl DimensionDescriptor for CgroupCpuDescriptor {
    open spec fn dimension(&self) -> DimensionId {
        DimensionId::CgroupCpu
    }

    open spec fn directions(&self) -> Directionality {
        Directionality::Bidirectional
    }

    open spec fn manager(&self) -> Seq<char> {
        "breathe/cgroup-cpu"@
    }

    open spec fn field(&self) -> Seq<char> {
        "host.cgroup.cpu_quota"@
    }

    open spec fn resource_name(&self) -> Seq<char> {
        "cpu"@
    }

    open spec fn application(&self) -> ApplySemantics {
        ApplySemantics::ContinuousReconciliation
    }

    open spec fn lives_at(&self, target: Target, layout: LimitLayout) -> bool {
        layout == LimitLayout::Host(HostKnob::CgroupCpuQuota { unit: target.name })
    }

    open spec fn reads_from(&self, target: Target, source: MetricSource) -> bool {
        source == MetricSource::Host(HostMetric::CgroupCpuUsage { unit: target.name })
    }

    fn id(&self) -> DimensionId {
        DimensionId::CgroupCpu
    }

    fn directionality(&self) -> Directionality {
        Directionality::Bidirectional
    }

    fn field_manager(&self) -> &'static str {
        "breathe/cgroup-cpu"
    }

    fn logical_field(&self) -> &'static str {
        "host.cgroup.cpu_quota"
    }

    fn resource(&self) -> &'static str {
        "cpu"
    }

    fn semantics(&self) -> ApplySemantics {
        ApplySemantics::ContinuousReconciliation
    }

    fn layout(&self, target: &Target) -> LimitLayout {
        LimitLayout::Host(HostKnob::CgroupCpuQuota { unit: target.name.clone() })
    }

    fn metric_source(&self, target: &Target) -> MetricSource {
        MetricSource::Host(HostMetric::CgroupCpuUsage { unit: target.name.clone() })
    }
}

/// A parameter of the host: lever, metric and directions are data.
#[derive(Debug)]
pub struct HostParamDescriptor {
    /// The lever.
    pub knob: HostKnob,
    /// The metric of its usage.
    pub metric: HostMetric,
    /// The directions in which it is carved.
    pub dir: Directionality,
}

impl HostParamDescriptor {
    /// A kernel parameter, by its dotted key, used as a field of the kernel's
    /// memory report says.
    #[must_use]
    pub fn sysctl(key: &str, meminfo_field: &str, dir: Directionality) -> (r: Self)
        ensures
            r.knob matches HostKnob::Sysctl { key: k } && k@ == key@,
            r.metric matches HostMetric::MeminfoField { field } && field@ == meminfo_field@,
            r.dir == dir,
    {
        HostParamDescriptor {
            knob: HostKnob::Sysctl { key: key.to_owned() },
            metric: HostMetric::MeminfoField { field: meminfo_field.to_owned() },
            dir,
        }
    }

    /// A ZFS module parameter, used as a row of the ARC statistics says.
    #[must_use]
    pub fn zfs_param(param: &str, arcstats_row: &str, dir: Directionality) -> (r: Self)
        ensures
            r.knob matches HostKnob::ZfsParam { param: p } && p@ == param@,
            r.metric matches HostMetric::ArcKstat { row } && row@ == arcstats_row@,
            r.dir == dir,
    {
        HostParamDescriptor {
            knob: HostKnob::ZfsParam { param: param.to_owned() },
            metric: HostMetric::ArcKstat { row: arcstats_row.to_owned() },
            dir,
        }
    }
}

impl DimensionDescriptor for HostParamDescriptor {
    open spec fn dimension(&self) -> DimensionId {
        DimensionId::HostParam
    }

    open spec fn directions(&self) -> Directionality {
        self.dir
    }

    open spec fn manager(&self) -> Seq<char> {
        "breathe/host-param"@
    }

    open spec fn field(&self) -> Seq<char> {
        "host.param"@
    }

    open spec fn resource_name(&self) -> Seq<char> {
        "memory"@
    }

    open spec fn application(&self) -> ApplySemantics {
        ApplySemantics::ContinuousReconciliation
    }

    open spec fn lives_at(&self, target: Target, layout: LimitLayout) -> bool {
        layout == LimitLayout::Host(self.knob)
    }

    open spec fn reads_from(&self, target: Target, source: MetricSource) -> bool {
        source == MetricSource::Host(self.metric)
    }

    fn id(&self) -> DimensionId {
        DimensionId::HostParam
    }

    fn directionality(&self) -> Directionality {
        self.dir
    }

    fn field_manager(&self) -> &'static str {
        "breathe/host-param"
    }

    fn logical_field(&self) -> &'static str {
        "host.param"
    }

    fn resource(&self) -> &'static str {
        "memory"
    }

    fn semantics(&self) -> ApplySemantics {
        ApplySemantics::ContinuousReconciliation
    }

    fn layout(&self, target: &Target) -> LimitLayout {
        LimitLayout::Host(self.knob.clone())
    }

    fn metric_source(&self, target: &Target) -> MetricSource {
        MetricSource::Host(self.metric.clone())
    }
}

} // verus!
