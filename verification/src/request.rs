//! The reservation of a workload: the QoS class that it decides, the witness
//! that a carve leaves the class alone, and the plan of a carve.
//!
//! Kubernetes ranks a pod for eviction by its QoS class, and the class is a
//! function of the requests and limits of every container. A request is carved
//! in place only within the class. Leaving the class needs a changed manifest,
//! and is proposed, never written.

use vstd::prelude::*;

use crate::dimension::Target;
use crate::json::{joined, join_texts, json_quoted, optional_number, optional_number_text, quote_json};
use crate::layout::{LimitLayout, SsaPatch};
use crate::text::{
    debug_quoted, debug_text, decimal, decimal_text, lemma_texts_push, same_text, texts,
};

verus! {

// ─────────────────────── outside functions ───────────────────────

/// The BLAKE3 digest of a sequence of bytes.
pub uninterp spec fn blake3_digest(bytes: Seq<u8>) -> Seq<u8>;

/// `blake3::hash`: the digest depends on the bytes alone, and is called
/// [`blake3_digest`] of them.
#[verifier::external_body]
fn blake3_of(bytes: &[u8]) -> (r: [u8; 32])
    ensures
        r@ == blake3_digest(bytes@),
{
    *blake3::hash(bytes).as_bytes()
}

// ─────────────────────── resources ───────────────────────

/// A resource that a container reserves.
#[derive(Debug, Clone, Copy, PartialEq, Eq, Hash, Structural)]
pub enum RequestResource {
    /// Memory, in bytes.
    Memory,
    /// Cpu, in millicores.
    Cpu,
}

impl RequestResource {
    /// Every resource.
    pub const ALL: [RequestResource; 2] = [RequestResource::Memory, RequestResource::Cpu];

    /// The name of the resource.
    pub open spec fn name(self) -> Seq<char> {
        match self {
            RequestResource::Memory => "memory"@,
            RequestResource::Cpu => "cpu"@,
        }
    }

    /// The name of the resource.
    #[must_use]
    pub fn as_str(self) -> (r: &'static str)
        ensures
            r@ == self.name(),
    {
        match self {
            RequestResource::Memory => "memory",
            RequestResource::Cpu => "cpu",
        }
    }
}

/// The class by which a pod is ranked for eviction.
#[derive(Debug, Clone, Copy, PartialEq, Eq, Hash, Structural)]
pub enum QosClass {
    /// Nothing is declared.
    BestEffort,
    /// Something is.
    Burstable,
    /// Every container's requests are its limits.
    Guaranteed,
}

impl QosClass {
    /// The name of the class.
    pub open spec fn name(self) -> Seq<char> {
        match self {
            QosClass::BestEffort => "BestEffort"@,
            QosClass::Burstable => "Burstable"@,
            QosClass::Guaranteed => "Guaranteed"@,
        }
    }

    /// The name of the class.
    #[must_use]
    pub fn as_str(self) -> (r: &'static str)
        ensures
            r@ == self.name(),
    {
        match self {
            QosClass::BestEffort => "BestEffort",
            QosClass::Burstable => "Burstable",
            QosClass::Guaranteed => "Guaranteed",
        }
    }

    /// How strongly the class seals a workload against eviction.
    pub open spec fn rank(self) -> u8 {
        match self {
            QosClass::BestEffort => 0,
            QosClass::Burstable => 1,
            QosClass::Guaranteed => 2,
        }
    }
}

fn seal_rank(q: QosClass) -> (r: u8)
    ensures
        r == q.rank(),
{
    match q {
        QosClass::BestEffort => 0,
        QosClass::Burstable => 1,
        QosClass::Guaranteed => 2,
    }
}

/// What one container declares.
#[derive(Debug, PartialEq, Eq, Default)]
pub struct ContainerResources {
    /// Its name.
    pub name: String,
    /// Its cpu request, in millicores.
    pub cpu_request: Option<u64>,
    /// Its cpu limit, in millicores.
    pub cpu_limit: Option<u64>,
    /// Its memory request, in bytes.
    pub memory_request: Option<u64>,
    /// Its memory limit, in bytes.
    pub memory_limit: Option<u64>,
}

impl Clone for ContainerResources {
    fn clone(&self) -> (r: Self)
        ensures
            r == *self,
    {
        ContainerResources {
            name: self.name.clone(),
            cpu_request: self.cpu_request,
            cpu_limit: self.cpu_limit,
            memory_request: self.memory_request,
            memory_limit: self.memory_limit,
        }
    }
}

/// A quantity of zero declares nothing.
pub open spec fn declared(v: Option<u64>) -> Option<u64> {
    if v == Some(0u64) {
        None
    } else {
        v
    }
}

impl ContainerResources {
    /// What the container requests of the resource.
    pub open spec fn requested(self, r: RequestResource) -> Option<u64> {
        declared(
            match r {
                RequestResource::Memory => self.memory_request,
                RequestResource::Cpu => self.cpu_request,
            },
        )
    }

    /// What the container is limited to of the resource.
    pub open spec fn limited(self, r: RequestResource) -> Option<u64> {
        declared(
            match r {
                RequestResource::Memory => self.memory_limit,
                RequestResource::Cpu => self.cpu_limit,
            },
        )
    }

    /// The container with another request of the resource.
    pub open spec fn requesting(self, r: RequestResource, v: u64) -> ContainerResources {
        match r {
            RequestResource::Memory => ContainerResources { memory_request: Some(v), ..self },
            RequestResource::Cpu => ContainerResources { cpu_request: Some(v), ..self },
        }
    }

    /// The container is limited in both resources.
    pub open spec fn fully_limited(self) -> bool {
        self.limited(RequestResource::Cpu) is Some && self.limited(RequestResource::Memory) is Some
    }

    fn effective(v: Option<u64>) -> (r: Option<u64>)
        ensures
            r == declared(v),
    {
        match v {
            Some(n) => {
                if n == 0 {
                    None
                } else {
                    Some(n)
                }
            },
            None => None,
        }
    }

    /// What the container requests of the resource.
    #[must_use]
    pub fn request(&self, r: RequestResource) -> (res: Option<u64>)
        ensures
            res == self.requested(r),
    {
        match r {
            RequestResource::Memory => Self::effective(self.memory_request),
            RequestResource::Cpu => Self::effective(self.cpu_request),
        }
    }

    /// What the container is limited to of the resource.
    #[must_use]
    pub fn limit(&self, r: RequestResource) -> (res: Option<u64>)
        ensures
            res == self.limited(r),
    {
        match r {
            RequestResource::Memory => Self::effective(self.memory_limit),
            RequestResource::Cpu => Self::effective(self.cpu_limit),
        }
    }

    /// The container with another request of the resource.
    #[must_use]
    pub fn with_request(&self, r: RequestResource, v: u64) -> (res: Self)
        ensures
            res == self.requesting(r, v),
    {
        let mut next = self.clone();
        match r {
            RequestResource::Memory => {
                next.memory_request = Some(v);
            },
            RequestResource::Cpu => {
                next.cpu_request = Some(v);
            },
        }
        next
    }

    fn has_both_limits(&self) -> (res: bool)
        ensures
            res == self.fully_limited(),
    {
        self.limit(RequestResource::Cpu).is_some() && self.limit(
            RequestResource::Memory,
        ).is_some()
    }
}

/// What every container of a pod declares.
#[derive(Debug, PartialEq, Eq, Default)]
pub struct PodResources {
    /// The containers, in order.
    pub containers: Vec<ContainerResources>,
}

/// Where the first container with the name stands.
pub open spec fn first_named(cs: Seq<ContainerResources>, name: Seq<char>) -> Option<int>
    decreases cs.len(),
{
    if cs.len() == 0 {
        None
    } else {
        match first_named(cs.drop_last(), name) {
            Some(i) => Some(i),
            None => if cs.last().name@ == name {
                Some(cs.len() - 1)
            } else {
                None
            },
        }
    }
}

/// `first_named` finds the first container with the name, where there is one.
pub proof fn lemma_first_named(cs: Seq<ContainerResources>, name: Seq<char>)
    ensures
        first_named(cs, name) matches Some(i) ==> 0 <= i < cs.len() && cs[i].name@ == name
            && forall|j: int| 0 <= j < i ==> (#[trigger] cs[j]).name@ != name,
        first_named(cs, name) is None ==> forall|j: int|
            0 <= j < cs.len() ==> (#[trigger] cs[j]).name@ != name,
    decreases cs.len(),
{
    if cs.len() > 0 {
        lemma_first_named(cs.drop_last(), name);
        assert forall|j: int| 0 <= j < cs.len() - 1 implies cs.drop_last()[j] == #[trigger] cs[j] by {}
    }
}

/// What a container requests of a resource, or is limited to.
pub open spec fn amount(c: ContainerResources, r: RequestResource, limits: bool) -> Option<u64> {
    if limits {
        c.limited(r)
    } else {
        c.requested(r)
    }
}

/// Some container declares the resource.
pub open spec fn any_declares(
    cs: Seq<ContainerResources>,
    r: RequestResource,
    limits: bool,
) -> bool {
    exists|i: int| 0 <= i < cs.len() && amount(#[trigger] cs[i], r, limits) is Some
}

/// What the containers declare of the resource, together.
pub open spec fn sum_of(cs: Seq<ContainerResources>, r: RequestResource, limits: bool) -> nat
    decreases cs.len(),
{
    if cs.len() == 0 {
        0
    } else {
        sum_of(cs.drop_last(), r, limits) + match amount(cs.last(), r, limits) {
            Some(v) => v as nat,
            None => 0,
        }
    }
}

/// The pod's total of the resource, where some container declares it. A total
/// beyond the machine's numbers stays at the largest of them.
pub open spec fn total(cs: Seq<ContainerResources>, r: RequestResource, limits: bool) -> Option<
    u64,
> {
    if any_declares(cs, r, limits) {
        let s = sum_of(cs, r, limits);
        Some(if s <= u64::MAX {
            s as u64
        } else {
            u64::MAX
        })
    } else {
        None
    }
}

/// Every container is limited in both resources.
pub open spec fn all_limited(cs: Seq<ContainerResources>) -> bool {
    forall|i: int| 0 <= i < cs.len() ==> (#[trigger] cs[i]).fully_limited()
}

/// The requests of a resource are none, or are its limits.
pub open spec fn request_matches(cs: Seq<ContainerResources>, r: RequestResource) -> bool {
    total(cs, r, false) is Some ==> total(cs, r, false) == total(cs, r, true)
}

/// How many of the two resources have a total.
pub open spec fn totals(cs: Seq<ContainerResources>, limits: bool) -> int {
    (if total(cs, RequestResource::Cpu, limits) is Some {
        1int
    } else {
        0
    }) + (if total(cs, RequestResource::Memory, limits) is Some {
        1int
    } else {
        0
    })
}

/// The class of a pod: `BestEffort` where nothing is declared, `Guaranteed`
/// where every container is limited in both resources and the pod's requests
/// are its limits, `Burstable` otherwise.
pub open spec fn qos_of(cs: Seq<ContainerResources>) -> QosClass {
    if totals(cs, false) == 0 && totals(cs, true) == 0 {
        QosClass::BestEffort
    } else if all_limited(cs) && request_matches(cs, RequestResource::Cpu) && request_matches(
        cs,
        RequestResource::Memory,
    ) && totals(cs, false) == totals(cs, true) {
        QosClass::Guaranteed
    } else {
        QosClass::Burstable
    }
}

proof fn lemma_total_step(cs: Seq<ContainerResources>, i: int, r: RequestResource, limits: bool)
    requires
        0 <= i < cs.len(),
    ensures
        total(cs.take(i + 1), r, limits) == (match (
            total(cs.take(i), r, limits),
            amount(cs[i], r, limits),
        ) {
            (t, None) => t,
            (None, Some(v)) => Some(v),
            (Some(t), Some(v)) => Some(
                if t + v <= u64::MAX {
                    (t + v) as u64
                } else {
                    u64::MAX
                },
            ),
        }),
{
    let now = cs.take(i + 1);
    let before = cs.take(i);
    assert(now.drop_last() =~= before);
    assert(now.last() == cs[i]);
    assert forall|k: int| 0 <= k < before.len() implies before[k] == #[trigger] now[k] by {}
    if any_declares(before, r, limits) {
        let k = choose|k: int| 0 <= k < before.len() && amount(#[trigger] before[k], r, limits) is Some;
        assert(amount(now[k], r, limits) is Some);
    } else {
        lemma_sum_of_undeclared(before, r, limits);
        if any_declares(now, r, limits) {
            let k = choose|k: int| 0 <= k < now.len() && amount(#[trigger] now[k], r, limits) is Some;
            if k < before.len() {
                assert(amount(before[k], r, limits) is Some);
            }
            assert(k == i);
        }
    }
    if amount(cs[i], r, limits) is Some {
        assert(amount(now[i], r, limits) is Some);
    }
}

proof fn lemma_sum_of_undeclared(cs: Seq<ContainerResources>, r: RequestResource, limits: bool)
    requires
        !any_declares(cs, r, limits),
    ensures
        sum_of(cs, r, limits) == 0,
    decreases cs.len(),
{
    if cs.len() > 0 {
        let init = cs.drop_last();
        assert(!any_declares(init, r, limits)) by {
            if any_declares(init, r, limits) {
                let k = choose|k: int|
                    0 <= k < init.len() && amount(#[trigger] init[k], r, limits) is Some;
                assert(amount(cs[k], r, limits) is Some);
            }
        }
        lemma_sum_of_undeclared(init, r, limits);
        assert(amount(cs[cs.len() - 1], r, limits) is None);
    }
}

fn add_declared(sum: Option<u64>, v: Option<u64>) -> (r: Option<u64>)
    ensures
        r == (match (sum, v) {
            (t, None) => t,
            (None, Some(v)) => Some(v),
            (Some(t), Some(v)) => Some(
                if t + v <= u64::MAX {
                    (t + v) as u64
                } else {
                    u64::MAX
                },
            ),
        }),
{
    match v {
        Some(v) => match sum {
            Some(t) => Some(t.saturating_add(v)),
            None => Some(v),
        },
        None => sum,
    }
}

fn matched(request: Option<u64>, limit: Option<u64>) -> (r: bool)
    ensures
        r == (request is Some ==> request == limit),
{
    match request {
        None => true,
        Some(rv) => match limit {
            Some(lv) => rv == lv,
            None => false,
        },
    }
}

fn copy_containers(cs: &Vec<ContainerResources>) -> (r: Vec<ContainerResources>)
    ensures
        r@ == cs@,
{
    let mut r: Vec<ContainerResources> = Vec::new();
    let mut i: usize = 0;
    while i < cs.len()
        invariant
            i <= cs.len(),
            r@ == cs@.take(i as int),
        decreases cs.len() - i,
    {
        r.push(cs[i].clone());
        assert(r@ =~= cs@.take(i + 1));
        i = i + 1;
    }
    assert(cs@.take(cs.len() as int) =~= cs@);
    r
}

fn find_named(cs: &Vec<ContainerResources>, name: &str) -> (r: Option<usize>)
    ensures
        match r {
            Some(i) => first_named(cs@, name@) == Some(i as int) && i < cs.len(),
            None => first_named(cs@, name@) is None,
        },
{
    let mut i: usize = 0;
    while i < cs.len()
        invariant
            i <= cs.len(),
            first_named(cs@.take(i as int), name@) is None,
        decreases cs.len() - i,
    {
        assert(cs@.take(i + 1).drop_last() =~= cs@.take(i as int));
        assert(cs@.take(i + 1).last() == cs@[i as int]);
        if same_text(cs[i].name.as_str(), name) {
            proof {
                lemma_first_named_extends(cs@, name@, i + 1);
            }
            return Some(i);
        }
        i = i + 1;
    }
    assert(cs@.take(cs.len() as int) =~= cs@);
    None
}

proof fn lemma_first_named_extends(cs: Seq<ContainerResources>, name: Seq<char>, n: int)
    requires
        0 <= n <= cs.len(),
        first_named(cs.take(n), name) is Some,
    ensures
        first_named(cs, name) == first_named(cs.take(n), name),
    decreases cs.len() - n,
{
    if n < cs.len() {
        assert(cs.take(n + 1).drop_last() =~= cs.take(n));
        lemma_first_named_extends(cs, name, n + 1);
    } else {
        assert(cs.take(n) =~= cs);
    }
}

/// The containers with another request of the resource in the first that has
/// the name.
pub open spec fn with_named_request(
    cs: Seq<ContainerResources>,
    name: Seq<char>,
    r: RequestResource,
    v: u64,
) -> Option<Seq<ContainerResources>> {
    match first_named(cs, name) {
        Some(i) => Some(cs.update(i, cs[i].requesting(r, v))),
        None => None,
    }
}

impl PodResources {
    /// The declarations of the containers.
    #[must_use]
    pub fn new(containers: Vec<ContainerResources>) -> (r: Self)
        ensures
            r.containers == containers,
    {
        PodResources { containers }
    }

    /// The pod with another request of the resource in the named container.
    #[must_use]
    pub fn with_request(&self, container_name: &str, r: RequestResource, v: u64) -> (res: Option<
        Self,
    >)
        ensures
            match with_named_request(self.containers@, container_name@, r, v) {
                Some(cs) => res matches Some(p) && p.containers@ == cs,
                None => res is None,
            },
    {
        match find_named(&self.containers, container_name) {
            Some(i) => {
                let mut next = copy_containers(&self.containers);
                let changed = next[i].with_request(r, v);
                next.set(i, changed);
                Some(PodResources { containers: next })
            },
            None => None,
        }
    }

    /// The class of the pod.
    #[must_use]
    pub fn qos_class(&self) -> (r: QosClass)
        ensures
            r == qos_of(self.containers@),
    {
        let cs = &self.containers;
        let mut is_guaranteed = true;
        let mut req_cpu: Option<u64> = None;
        let mut req_mem: Option<u64> = None;
        let mut lim_cpu: Option<u64> = None;
        let mut lim_mem: Option<u64> = None;
        let mut i: usize = 0;
        while i < cs.len()
            invariant
                i <= cs.len(),
                req_cpu == total(cs@.take(i as int), RequestResource::Cpu, false),
                req_mem == total(cs@.take(i as int), RequestResource::Memory, false),
                lim_cpu == total(cs@.take(i as int), RequestResource::Cpu, true),
                lim_mem == total(cs@.take(i as int), RequestResource::Memory, true),
                is_guaranteed == all_limited(cs@.take(i as int)),
            decreases cs.len() - i,
        {
            proof {
                lemma_total_step(cs@, i as int, RequestResource::Cpu, false);
                lemma_total_step(cs@, i as int, RequestResource::Memory, false);
                lemma_total_step(cs@, i as int, RequestResource::Cpu, true);
                lemma_total_step(cs@, i as int, RequestResource::Memory, true);
                let now = cs@.take(i + 1);
                let before = cs@.take(i as int);
                assert forall|k: int| 0 <= k < before.len() implies before[k] == #[trigger] now[k] by {}
                assert(now[i as int] == cs@[i as int]);
                assert(all_limited(now) ==> all_limited(before)) by {
                    if all_limited(now) {
                        assert forall|k: int| 0 <= k < before.len() implies (
                        #[trigger] before[k]).fully_limited() by {
                            assert(now[k].fully_limited());
                        }
                    }
                }
                assert(all_limited(now) == (all_limited(before) && cs@[i as int].fully_limited()));
            }
            req_cpu = add_declared(req_cpu, cs[i].request(RequestResource::Cpu));
            req_mem = add_declared(req_mem, cs[i].request(RequestResource::Memory));
            lim_cpu = add_declared(lim_cpu, cs[i].limit(RequestResource::Cpu));
            lim_mem = add_declared(lim_mem, cs[i].limit(RequestResource::Memory));
            if !cs[i].has_both_limits() {
                is_guaranteed = false;
            }
            i = i + 1;
        }
        assert(cs@.take(cs.len() as int) =~= cs@);
        let mut n_req: u8 = 0;
        if req_cpu.is_some() {
            n_req = n_req + 1;
        }
        if req_mem.is_some() {
            n_req = n_req + 1;
        }
        let mut n_lim: u8 = 0;
        if lim_cpu.is_some() {
            n_lim = n_lim + 1;
        }
        if lim_mem.is_some() {
            n_lim = n_lim + 1;
        }
        if n_req == 0 && n_lim == 0 {
            return QosClass::BestEffort;
        }
        if is_guaranteed && matched(req_cpu, lim_cpu) && matched(req_mem, lim_mem) && n_req
            == n_lim {
            return QosClass::Guaranteed;
        }
        QosClass::Burstable
    }
}

// ─────────────────────── the witness of a preserved class ───────────────────────

#[derive(Debug, PartialEq, Eq)]
struct Preserved {
    class: QosClass,
    container: String,
    resource: RequestResource,
    from: Option<u64>,
    to: u64,
}

/// The proof that one carve leaves the pod's class alone. It is made only by
/// [`ClassPreserved::check`].
#[derive(Debug, PartialEq, Eq)]
pub struct ClassPreserved(Preserved);

/// What a witness proves.
pub struct PreservedView {
    /// The class that stays.
    pub class: QosClass,
    /// The container carved.
    pub container: Seq<char>,
    /// The resource carved.
    pub resource: RequestResource,
    /// The request before.
    pub from: Option<u64>,
    /// The request after.
    pub to: u64,
}

impl View for ClassPreserved {
    type V = PreservedView;

    closed spec fn view(&self) -> PreservedView {
        PreservedView {
            class: self.0.class,
            container: self.0.container@,
            resource: self.0.resource,
            from: self.0.from,
            to: self.0.to,
        }
    }
}

impl Clone for ClassPreserved {
    fn clone(&self) -> (r: Self)
        ensures
            r == *self,
    {
        ClassPreserved(
            Preserved {
                class: self.0.class,
                container: self.0.container.clone(),
                resource: self.0.resource,
                from: self.0.from,
                to: self.0.to,
            },
        )
    }
}

/// A carve that would move the class.
#[derive(Debug, PartialEq, Eq)]
pub struct ClassWouldChange {
    /// The class before.
    pub from: QosClass,
    /// The class after.
    pub to: QosClass,
    /// The container carved.
    pub container: String,
    /// The resource carved.
    pub resource: RequestResource,
}

impl ClassWouldChange {
    /// The refusal in words.
    pub open spec fn words(self) -> Seq<char> {
        "carving "@ + self.container@ + ".requests."@ + self.resource.name()
            + " would move the pod QoS class "@ + self.from.name() + " → "@ + self.to.name()
            + "; a class transition has no in-place path (k8s ValidatePodResize)"@
    }

    /// The refusal in words.
    #[must_use]
    pub fn message(&self) -> (r: String)
        ensures
            r@ == self.words(),
    {
        let mut s = "carving ".to_owned();
        s.append(self.container.as_str());
        s.append(".requests.");
        s.append(self.resource.as_str());
        s.append(" would move the pod QoS class ");
        s.append(self.from.as_str());
        s.append(" → ");
        s.append(self.to.as_str());
        s.append("; a class transition has no in-place path (k8s ValidatePodResize)");
        s
    }
}

/// A container that the observed pod does not have.
#[derive(Debug, PartialEq, Eq)]
pub struct NoSuchContainer {
    /// Its name.
    pub container: String,
}

/// The words for a container that the observed pod does not have.
pub open spec fn no_such_container_words(container: Seq<char>) -> Seq<char> {
    "no container named "@ + debug_quoted(container) + " in the observed pod"@
}

fn no_such_container_text(container: &str) -> (r: String)
    ensures
        r@ == no_such_container_words(container@),
{
    let mut s = "no container named ".to_owned();
    s.append(debug_text(container).as_str());
    s.append(" in the observed pod");
    s
}

impl NoSuchContainer {
    /// The refusal in words.
    #[must_use]
    pub fn message(&self) -> (r: String)
        ensures
            r@ == no_such_container_words(self.container@),
    {
        no_such_container_text(self.container.as_str())
    }
}

/// Why a carve has no witness.
#[derive(Debug, PartialEq, Eq)]
pub enum PreserveError {
    /// It would move the class.
    ClassWouldChange(ClassWouldChange),
    /// The container is not there.
    NoSuchContainer(NoSuchContainer),
}

impl PreserveError {
    /// The refusal in words.
    pub open spec fn words(self) -> Seq<char> {
        match self {
            PreserveError::ClassWouldChange(e) => e.words(),
            PreserveError::NoSuchContainer(e) => no_such_container_words(e.container@),
        }
    }

    /// The refusal in words.
    #[must_use]
    pub fn message(&self) -> (r: String)
        ensures
            r@ == self.words(),
    {
        match self {
            PreserveError::ClassWouldChange(e) => e.message(),
            PreserveError::NoSuchContainer(e) => e.message(),
        }
    }
}

impl ClassPreserved {
    /// Decides whether a carve leaves the class of the whole pod alone, by
    /// comparing the class before with the class after.
    pub fn check(
        observed: &PodResources,
        container: &str,
        resource: RequestResource,
        to: u64,
    ) -> (r: Result<Self, PreserveError>)
        ensures
            match with_named_request(observed.containers@, container@, resource, to) {
                None => r matches Err(PreserveError::NoSuchContainer(e)) && e.container@
                    == container@,
                Some(after) => if qos_of(observed.containers@) != qos_of(after) {
                    r matches Err(PreserveError::ClassWouldChange(e)) && e.from == qos_of(
                        observed.containers@,
                    ) && e.to == qos_of(after) && e.container@ == container@ && e.resource
                        == resource
                } else {
                    r matches Ok(w) && w@ == (PreservedView {
                        class: qos_of(observed.containers@),
                        container: container@,
                        resource,
                        from: observed.containers@[first_named(
                            observed.containers@,
                            container@,
                        )->0].requested(resource),
                        to,
                    })
                },
            },
    {
        let index: usize = match find_named(&observed.containers, container) {
            Some(i) => i,
            None => {
                return Err(
                    PreserveError::NoSuchContainer(
                        NoSuchContainer { container: container.to_owned() },
                    ),
                );
            },
        };
        let candidate = match observed.with_request(container, resource, to) {
            Some(c) => c,
            None => {
                return Err(
                    PreserveError::NoSuchContainer(
                        NoSuchContainer { container: container.to_owned() },
                    ),
                );
            },
        };
        let before = observed.qos_class();
        let after = candidate.qos_class();
        if before != after {
            return Err(
                PreserveError::ClassWouldChange(
                    ClassWouldChange {
                        from: before,
                        to: after,
                        container: container.to_owned(),
                        resource,
                    },
                ),
            );
        }
        let from = observed.containers[index].request(resource);
        Ok(
            ClassPreserved(
                Preserved { class: before, container: container.to_owned(), resource, from, to },
            ),
        )
    }

    /// The class that stays.
    #[must_use]
    pub fn class(&self) -> (r: QosClass)
        ensures
            r == self@.class,
    {
        self.0.class
    }

    /// The container carved.
    #[must_use]
    pub fn container(&self) -> (r: &str)
        ensures
            r@ == self@.container,
    {
        self.0.container.as_str()
    }

    /// The resource carved.
    #[must_use]
    pub fn resource(&self) -> (r: RequestResource)
        ensures
            r == self@.resource,
    {
        self.0.resource
    }

    /// The request after.
    #[must_use]
    pub fn to(&self) -> (r: u64)
        ensures
            r == self@.to,
    {
        self.0.to
    }

    /// The request before.
    #[must_use]
    pub fn from(&self) -> (r: Option<u64>)
        ensures
            r == self@.from,
    {
        self.0.from
    }
}

// ─────────────────────── bounds ───────────────────────

/// A request that is at most the live limit.
#[derive(Debug, Clone, Copy, PartialEq, Eq, PartialOrd, Ord)]
pub struct RequestTarget(u64);

/// A request above the live limit.
#[derive(Debug, Clone, Copy, PartialEq, Eq, Structural)]
pub struct AboveLimit {
    /// The request.
    pub proposed: u64,
    /// The limit.
    pub live_limit: u64,
}

impl AboveLimit {
    /// The refusal in words.
    pub open spec fn words(self) -> Seq<char> {
        "request "@ + decimal(self.proposed as nat) + " exceeds the live limit "@ + decimal(
            self.live_limit as nat,
        )
    }

    /// The refusal in words.
    #[must_use]
    pub fn message(&self) -> (r: String)
        ensures
            r@ == self.words(),
    {
        let mut s = "request ".to_owned();
        s.append(decimal_text(self.proposed).as_str());
        s.append(" exceeds the live limit ");
        s.append(decimal_text(self.live_limit).as_str());
        s
    }
}

impl RequestTarget {
    /// The value of the request.
    pub closed spec fn value(self) -> u64 {
        self.0
    }

    /// A request that is at most the live limit.
    pub fn new(value: u64, live_limit: u64) -> (r: Result<Self, AboveLimit>)
        ensures
            if value > live_limit {
                r == Err::<RequestTarget, AboveLimit>(AboveLimit { proposed: value, live_limit })
            } else {
                r matches Ok(t) && t.value() == value
            },
    {
        if value > live_limit {
            return Err(AboveLimit { proposed: value, live_limit });
        }
        Ok(RequestTarget(value))
    }

    /// The value of the request.
    #[must_use]
    pub fn get(self) -> (r: u64)
        ensures
            r == self.value(),
    {
        self.0
    }
}

/// What one node of the workload's class can still take.
#[derive(Debug, Clone, Copy, PartialEq, Eq, Structural)]
pub struct AllocatableHeadroom {
    /// What one node can still take.
    pub per_node: u64,
    /// When that was observed.
    pub observed_at_epoch: i64,
}

/// A request that no node can take.
#[derive(Debug, Clone, Copy, PartialEq, Eq, Structural)]
pub struct WouldNotSchedule {
    /// The request.
    pub proposed: u64,
    /// What one node can still take.
    pub per_node_headroom: u64,
    /// How many replicas would ask for it.
    pub replicas: u32,
}

impl WouldNotSchedule {
    /// The refusal in words.
    pub open spec fn words(self) -> Seq<char> {
        "request "@ + decimal(self.proposed as nat) + " × "@ + decimal(self.replicas as nat)
            + " replica(s) does not fit "@ + decimal(self.per_node_headroom as nat)
            + " per-node allocatable headroom"@
    }

    /// The refusal in words.
    #[must_use]
    pub fn message(&self) -> (r: String)
        ensures
            r@ == self.words(),
    {
        let mut s = "request ".to_owned();
        s.append(decimal_text(self.proposed).as_str());
        s.append(" × ");
        s.append(decimal_text(self.replicas as u64).as_str());
        s.append(" replica(s) does not fit ");
        s.append(decimal_text(self.per_node_headroom).as_str());
        s.append(" per-node allocatable headroom");
        s
    }
}

/// A request that a node can take.
#[derive(Debug, Clone, Copy, PartialEq, Eq)]
pub struct AdmittedRequest(u64);

impl AdmittedRequest {
    /// The value of the request.
    pub closed spec fn value(self) -> u64 {
        self.0
    }

    /// The value of the request.
    #[must_use]
    pub fn get(self) -> (r: u64)
        ensures
            r == self.value(),
    {
        self.0
    }
}

impl AllocatableHeadroom {
    /// Admits a request that a node can take.
    pub fn admit_target(self, target: RequestTarget, replicas: u32) -> (r: Result<
        AdmittedRequest,
        WouldNotSchedule,
    >)
        ensures
            if target.value() > self.per_node {
                r == Err::<AdmittedRequest, WouldNotSchedule>(
                    WouldNotSchedule {
                        proposed: target.value(),
                        per_node_headroom: self.per_node,
                        replicas,
                    },
                )
            } else {
                r matches Ok(a) && a.value() == target.value()
            },
    {
        if target.get() > self.per_node {
            return Err(
                WouldNotSchedule {
                    proposed: target.get(),
                    per_node_headroom: self.per_node,
                    replicas,
                },
            );
        }
        Ok(AdmittedRequest(target.get()))
    }
}

/// The evidence that would allow a reservation to be lowered. There is none:
/// nothing constructs a value, and its invariant keeps verified code from it.
#[derive(Debug)]
pub struct RequestShrinkEvidence {
    sealed: bool,
}

impl RequestShrinkEvidence {
    #[verifier::type_invariant]
    spec fn is_evidence(self) -> bool {
        self.sealed != self.sealed
    }
}

/// How long a carved value is meant to last.
#[derive(Debug, Clone, Copy, PartialEq, Eq, Structural)]
pub enum Durability {
    /// Until the pod is replaced.
    Ephemeral,
    /// Beyond that.
    Committed,
}

impl Default for Durability {
    fn default() -> (r: Self)
        ensures
            r == Durability::Committed,
    {
        Durability::Committed
    }
}

// ─────────────────────── content addresses ───────────────────────

/// The address of a content: its BLAKE3 digest.
#[derive(Debug, Clone, Copy, PartialEq, Eq, Hash)]
pub struct ContentAddr([u8; 32]);

/// The character of a hexadecimal digit.
pub open spec fn hex_char(d: int) -> char {
    if d < 10 {
        (48 + d) as char
    } else {
        (87 + d) as char
    }
}

/// Each byte as two hexadecimal digits.
pub open spec fn hex_of(bytes: Seq<u8>) -> Seq<char>
    decreases bytes.len(),
{
    if bytes.len() == 0 {
        Seq::empty()
    } else {
        hex_of(bytes.drop_last()).push(hex_char(bytes.last() as int / 16)).push(
            hex_char(bytes.last() as int % 16),
        )
    }
}

fn hex_digit(d: u8) -> (r: char)
    requires
        d < 16,
    ensures
        r == hex_char(d as int),
{
    if d < 10 {
        (48 + d) as char
    } else {
        (87 + d) as char
    }
}

impl View for ContentAddr {
    type V = Seq<u8>;

    closed spec fn view(&self) -> Seq<u8> {
        self.0@
    }
}

impl ContentAddr {
    /// The address of the bytes.
    #[must_use]
    pub fn of(bytes: &[u8]) -> (r: Self)
        ensures
            r@ == blake3_digest(bytes@),
    {
        ContentAddr(blake3_of(bytes))
    }

    /// The bytes of the address.
    #[must_use]
    pub fn as_bytes(&self) -> (r: &[u8; 32])
        ensures
            r@ == self@,
    {
        &self.0
    }

    /// The address in hexadecimal.
    #[must_use]
    pub fn message(&self) -> (r: String)
        ensures
            r@ == hex_of(self@),
    {
        let mut s = String::new();
        let mut i: usize = 0;
        let ghost all = self@;
        while i < 32
            invariant
                i <= 32,
                all == self.0@,
                s@ == hex_of(all.take(i as int)),
            decreases 32 - i,
        {
            let b: u8 = self.0[i];
            s.push(hex_digit(b / 16));
            s.push(hex_digit(b % 16));
            assert(all.take(i + 1).drop_last() =~= all.take(i as int));
            assert(all.take(i + 1).last() == b);
            i = i + 1;
        }
        assert(all.take(32) =~= all);
        s
    }
}

/// The canonical text of one container's declaration.
pub open spec fn container_json(c: ContainerResources) -> Seq<char> {
    "{\"name\":"@ + json_quoted(c.name@) + ",\"cpuRequest\":"@ + optional_number(c.cpu_request)
        + ",\"cpuLimit\":"@ + optional_number(c.cpu_limit) + ",\"memoryRequest\":"@
        + optional_number(c.memory_request) + ",\"memoryLimit\":"@ + optional_number(
        c.memory_limit,
    ) + "}"@
}

/// The canonical text of a pod's declarations.
pub open spec fn block_json(cs: Seq<ContainerResources>) -> Seq<char> {
    "{\"containers\":["@ + joined(
        cs.map_values(|c: ContainerResources| container_json(c)),
        ","@,
    ) + "]}"@
}

fn container_json_text(c: &ContainerResources) -> (r: String)
    ensures
        r@ == container_json(*c),
{
    let mut s = "{\"name\":".to_owned();
    s.append(quote_json(c.name.as_str()).as_str());
    s.append(",\"cpuRequest\":");
    s.append(optional_number_text(c.cpu_request).as_str());
    s.append(",\"cpuLimit\":");
    s.append(optional_number_text(c.cpu_limit).as_str());
    s.append(",\"memoryRequest\":");
    s.append(optional_number_text(c.memory_request).as_str());
    s.append(",\"memoryLimit\":");
    s.append(optional_number_text(c.memory_limit).as_str());
    s.append("}");
    s
}

/// The canonical text of the pod's declarations.
pub fn block_json_text(block: &PodResources) -> (r: String)
    ensures
        r@ == block_json(block.containers@),
{
    let cs = &block.containers;
    let mut parts: Vec<String> = Vec::new();
    let mut i: usize = 0;
    let ghost all = cs@.map_values(|c: ContainerResources| container_json(c));
    assert(texts(parts@) =~= all.take(0));
    while i < cs.len()
        invariant
            i <= cs.len(),
            all == cs@.map_values(|c: ContainerResources| container_json(c)),
            texts(parts@) == all.take(i as int),
        decreases cs.len() - i,
    {
        broadcast use lemma_texts_push;

        parts.push(container_json_text(&cs[i]));
        assert(all.take(i as int).push(all[i as int]) =~= all.take(i + 1));
        i = i + 1;
    }
    assert(all.take(cs.len() as int) =~= all);
    let mut s = "{\"containers\":[".to_owned();
    s.append(join_texts(&parts, ",").as_str());
    s.append("]}");
    s
}

/// The address of a pod's declarations.
pub open spec fn block_addr(cs: Seq<ContainerResources>) -> Seq<u8> {
    blake3_digest(vstd::utf8::encode_utf8(block_json(cs)))
}

// ─────────────────────── transitions of the class ───────────────────────

/// A proposed change of a workload's class. It is committed to a manifest,
/// never written in place.
#[derive(Debug, PartialEq, Eq)]
pub struct ClassTransitionProposal {
    /// The workload.
    pub target: Target,
    /// The class before.
    pub from: QosClass,
    /// The class after.
    pub to: QosClass,
    /// The declarations after.
    pub block: PodResources,
    /// The address of those.
    pub addr: ContentAddr,
}

/// A proposal that would leave the class as it is.
#[derive(Debug, Clone, Copy, PartialEq, Eq, Structural)]
pub struct SameClass {
    /// The class.
    pub class: QosClass,
}

impl SameClass {
    /// The refusal in words.
    pub open spec fn words(self) -> Seq<char> {
        "proposed block is already "@ + self.class.name() + " — not a transition"@
    }

    /// The refusal in words.
    #[must_use]
    pub fn message(&self) -> (r: String)
        ensures
            r@ == self.words(),
    {
        let mut s = "proposed block is already ".to_owned();
        s.append(self.class.as_str());
        s.append(" — not a transition");
        s
    }
}

impl ClassTransitionProposal {
    /// A proposal of declarations that change the class.
    pub fn new(target: Target, observed: &PodResources, block: PodResources) -> (r: Result<
        Self,
        SameClass,
    >)
        ensures
            if qos_of(observed.containers@) == qos_of(block.containers@) {
                r == Err::<ClassTransitionProposal, SameClass>(
                    SameClass { class: qos_of(observed.containers@) },
                )
            } else {
                r matches Ok(p) && p.target == target && p.from == qos_of(observed.containers@)
                    && p.to == qos_of(block.containers@) && p.block == block && p.addr@
                    == block_addr(block.containers@)
            },
    {
        let from = observed.qos_class();
        let to = block.qos_class();
        if from == to {
            return Err(SameClass { class: from });
        }
        let rendered = block_json_text(&block);
        let addr = ContentAddr::of(rendered.as_str().as_bytes());
        Ok(ClassTransitionProposal { target, from, to, block, addr })
    }
}

/// Why a change of class cannot go through.
#[derive(Debug, PartialEq, Eq)]
pub enum ClassTransitionBlocked {
    /// An ephemeral band commits nothing.
    EphemeralCannotTransition,
    /// There is no writer of manifests.
    NoWriterConfigured,
    /// The band names no manifest.
    NoManifestCoordinate,
    /// The manifest lacks markers.
    CoordinateGap { missing: Vec<String> },
    /// The class cannot be reached from what is observed.
    UnreachableFromObserved { detail: String },
}

/// A block with its texts as characters.
pub enum TransitionBlockedView {
    /// An ephemeral band commits nothing.
    EphemeralCannotTransition,
    /// There is no writer of manifests.
    NoWriterConfigured,
    /// The band names no manifest.
    NoManifestCoordinate,
    /// The manifest lacks markers.
    CoordinateGap { missing: Seq<Seq<char>> },
    /// The class cannot be reached from what is observed.
    UnreachableFromObserved { detail: Seq<char> },
}

impl View for ClassTransitionBlocked {
    type V = TransitionBlockedView;

    open spec fn view(&self) -> TransitionBlockedView {
        match *self {
            ClassTransitionBlocked::EphemeralCannotTransition => {
                TransitionBlockedView::EphemeralCannotTransition
            },
            ClassTransitionBlocked::NoWriterConfigured => TransitionBlockedView::NoWriterConfigured,
            ClassTransitionBlocked::NoManifestCoordinate => {
                TransitionBlockedView::NoManifestCoordinate
            },
            ClassTransitionBlocked::CoordinateGap { missing } => {
                TransitionBlockedView::CoordinateGap { missing: texts(missing@) }
            },
            ClassTransitionBlocked::UnreachableFromObserved { detail } => {
                TransitionBlockedView::UnreachableFromObserved { detail: detail@ }
            },
        }
    }
}

/// The debug forms of a sequence of texts.
pub open spec fn quoted_all(v: Seq<Seq<char>>) -> Seq<Seq<char>> {
    v.map_values(|s: Seq<char>| debug_quoted(s))
}

impl TransitionBlockedView {
    /// The block as it is printed for diagnosis.
    pub open spec fn words(self) -> Seq<char> {
        match self {
            TransitionBlockedView::EphemeralCannotTransition => "EphemeralCannotTransition"@,
            TransitionBlockedView::NoWriterConfigured => "NoWriterConfigured"@,
            TransitionBlockedView::NoManifestCoordinate => "NoManifestCoordinate"@,
            TransitionBlockedView::CoordinateGap { missing } => "CoordinateGap { missing: ["@
                + joined(quoted_all(missing), ", "@) + "] }"@,
            TransitionBlockedView::UnreachableFromObserved { detail } => {
                "UnreachableFromObserved { detail: "@ + debug_quoted(detail) + " }"@
            },
        }
    }
}

fn copy_texts(v: &Vec<String>) -> (r: Vec<String>)
    ensures
        r@ == v@,
{
    let mut r: Vec<String> = Vec::new();
    let mut i: usize = 0;
    while i < v.len()
        invariant
            i <= v.len(),
            r@ == v@.take(i as int),
        decreases v.len() - i,
    {
        r.push(v[i].clone());
        assert(r@ =~= v@.take(i + 1));
        i = i + 1;
    }
    assert(v@.take(v.len() as int) =~= v@);
    r
}

impl Clone for ClassTransitionBlocked {
    fn clone(&self) -> (r: Self)
        ensures
            r@ == self@,
    {
        match self {
            ClassTransitionBlocked::EphemeralCannotTransition => {
                ClassTransitionBlocked::EphemeralCannotTransition
            },
            ClassTransitionBlocked::NoWriterConfigured => ClassTransitionBlocked::NoWriterConfigured,
            ClassTransitionBlocked::NoManifestCoordinate => {
                ClassTransitionBlocked::NoManifestCoordinate
            },
            ClassTransitionBlocked::CoordinateGap { missing } => {
                ClassTransitionBlocked::CoordinateGap { missing: copy_texts(missing) }
            },
            ClassTransitionBlocked::UnreachableFromObserved { detail } => {
                ClassTransitionBlocked::UnreachableFromObserved { detail: detail.clone() }
            },
        }
    }
}

impl ClassTransitionBlocked {
    /// The block as it is printed for diagnosis.
    #[must_use]
    pub fn message(&self) -> (r: String)
        ensures
            r@ == self@.words(),
    {
        match self {
            ClassTransitionBlocked::EphemeralCannotTransition => {
                "EphemeralCannotTransition".to_owned()
            },
            ClassTransitionBlocked::NoWriterConfigured => "NoWriterConfigured".to_owned(),
            ClassTransitionBlocked::NoManifestCoordinate => "NoManifestCoordinate".to_owned(),
            ClassTransitionBlocked::CoordinateGap { missing } => {
                let mut parts: Vec<String> = Vec::new();
                let mut i: usize = 0;
                let ghost all = quoted_all(texts(missing@));
                assert(texts(parts@) =~= all.take(0));
                while i < missing.len()
                    invariant
                        i <= missing.len(),
                        all == quoted_all(texts(missing@)),
                        texts(parts@) == all.take(i as int),
                    decreases missing.len() - i,
                {
                    broadcast use lemma_texts_push;

                    parts.push(debug_text(missing[i].as_str()));
                    assert(all.take(i as int).push(all[i as int]) =~= all.take(i + 1));
                    i = i + 1;
                }
                assert(all.take(missing.len() as int) =~= all);
                let mut s = "CoordinateGap { missing: [".to_owned();
                s.append(join_texts(&parts, ", ").as_str());
                s.append("] }");
                s
            },
            ClassTransitionBlocked::UnreachableFromObserved { detail } => {
                let mut s = "UnreachableFromObserved { detail: ".to_owned();
                s.append(debug_text(detail.as_str()).as_str());
                s.append(" }");
                s
            },
        }
    }
}

/// The gap between a workload's class and the class it should have.
#[derive(Debug, PartialEq, Eq)]
pub enum QosGap {
    /// There is none that a transition would close.
    Held,
    /// A transition is proposed, under this address.
    PromotionProposed { proposal: String },
    /// A transition cannot go through.
    Blocked(ClassTransitionBlocked),
}

// ─────────────────────── what the API server accepts ───────────────────────

/// The direction of a carve.
#[derive(Debug, Clone, Copy, PartialEq, Eq, Structural)]
pub enum CarveDirection {
    /// Up.
    Grow,
    /// Down.
    Shrink,
}

/// A container's policy for resizing its memory.
#[derive(Debug, Clone, Copy, PartialEq, Eq, Structural)]
pub enum MemoryResizePolicy {
    /// None is declared.
    Unset,
    /// No restart is needed.
    NotRequired,
    /// The container restarts.
    RestartContainer,
}

impl Default for MemoryResizePolicy {
    fn default() -> (r: Self)
        ensures
            r == MemoryResizePolicy::Unset,
    {
        MemoryResizePolicy::Unset
    }
}

/// Whether the API server accepts a resize.
#[derive(Debug, Clone, Copy, PartialEq, Eq, Structural)]
pub enum ResizeLegality {
    /// It does.
    Allowed,
    /// It lowers a memory limit only of a container that restarts.
    MemoryDecreaseNeedsRestartPolicy,
}

impl ResizeLegality {
    /// What an API server of the given minor version says of a resize: before
    /// 1.34 it lowers a memory limit only of a container that restarts.
    pub open spec fn verdict(
        server_minor: u32,
        policy: MemoryResizePolicy,
        resource: RequestResource,
        direction: CarveDirection,
        is_limit: bool,
    ) -> ResizeLegality {
        if server_minor < 34 && resource is Memory && direction is Shrink && is_limit && !(
        policy is RestartContainer) {
            ResizeLegality::MemoryDecreaseNeedsRestartPolicy
        } else {
            ResizeLegality::Allowed
        }
    }

    /// What an API server of the given minor version says of a resize.
    #[must_use]
    pub fn evaluate(
        server_minor: u32,
        policy: MemoryResizePolicy,
        resource: RequestResource,
        direction: CarveDirection,
        is_limit: bool,
    ) -> (r: Self)
        ensures
            r == Self::verdict(server_minor, policy, resource, direction, is_limit),
    {
        if server_minor >= 34 {
            return ResizeLegality::Allowed;
        }
        match (resource, direction, is_limit, policy) {
            (
                RequestResource::Memory,
                CarveDirection::Shrink,
                true,
                MemoryResizePolicy::Unset | MemoryResizePolicy::NotRequired,
            ) => ResizeLegality::MemoryDecreaseNeedsRestartPolicy,
            _ => ResizeLegality::Allowed,
        }
    }

    /// Whether the resize is accepted.
    #[must_use]
    pub fn is_allowed(self) -> (r: bool)
        ensures
            r == (self is Allowed),
    {
        match self {
            ResizeLegality::Allowed => true,
            _ => false,
        }
    }

    /// The verdict as it is printed for diagnosis.
    pub open spec fn words(self) -> Seq<char> {
        match self {
            ResizeLegality::Allowed => "Allowed"@,
            ResizeLegality::MemoryDecreaseNeedsRestartPolicy => {
                "MemoryDecreaseNeedsRestartPolicy"@
            },
        }
    }
}

/// A carve that grows a request is accepted by every API server.
pub proof fn raising_a_request_is_always_legal(
    server_minor: u32,
    policy: MemoryResizePolicy,
    resource: RequestResource,
)
    ensures
        ResizeLegality::verdict(
            server_minor,
            policy,
            resource,
            CarveDirection::Grow,
            false,
        ) is Allowed,
{
}

// ─────────────────────── writers of manifests ───────────────────────

/// That a proposal was committed.
#[derive(Debug, PartialEq, Eq)]
pub struct CommitReceipt {
    /// The commit.
    pub commit_sha: String,
    /// The address of the proposal.
    pub addr: ContentAddr,
    /// The address of the manifest as it was committed.
    pub rendered_addr: ContentAddr,
}

/// Why a proposal was not committed.
#[derive(Debug, PartialEq, Eq)]
pub enum WriterError {
    /// There is no writer.
    Disabled,
    /// The manifest lies outside the writer's wall.
    OutsideBlastRadius { path: String, allowed_prefix: String },
    /// The repository has uncommitted edits.
    RepoNotClean,
    /// The manifest has no place for the proposal.
    Unanchorable { detail: String },
    /// Someone else committed meanwhile.
    Conflict { detail: String },
    /// The repository could not be reached.
    Transport { detail: String },
}

/// A writer's error with its texts as characters.
pub enum WriterErrorView {
    /// There is no writer.
    Disabled,
    /// The manifest lies outside the writer's wall.
    OutsideBlastRadius { path: Seq<char>, allowed_prefix: Seq<char> },
    /// The repository has uncommitted edits.
    RepoNotClean,
    /// The manifest has no place for the proposal.
    Unanchorable { detail: Seq<char> },
    /// Someone else committed meanwhile.
    Conflict { detail: Seq<char> },
    /// The repository could not be reached.
    Transport { detail: Seq<char> },
}

impl View for WriterError {
    type V = WriterErrorView;

    open spec fn view(&self) -> WriterErrorView {
        match *self {
            WriterError::Disabled => WriterErrorView::Disabled,
            WriterError::OutsideBlastRadius { path, allowed_prefix } => {
                WriterErrorView::OutsideBlastRadius {
                    path: path@,
                    allowed_prefix: allowed_prefix@,
                }
            },
            WriterError::RepoNotClean => WriterErrorView::RepoNotClean,
            WriterError::Unanchorable { detail } => WriterErrorView::Unanchorable {
                detail: detail@,
            },
            WriterError::Conflict { detail } => WriterErrorView::Conflict { detail: detail@ },
            WriterError::Transport { detail } => WriterErrorView::Transport { detail: detail@ },
        }
    }
}

impl WriterErrorView {
    /// The error in words.
    pub open spec fn words(self) -> Seq<char> {
        match self {
            WriterErrorView::Disabled => "no manifest writer is configured"@,
            WriterErrorView::OutsideBlastRadius { path, allowed_prefix } => "path "@
                + debug_quoted(path) + " is outside the writer's allowed prefix "@ + debug_quoted(
                allowed_prefix,
            ),
            WriterErrorView::RepoNotClean => {
                "the manifest repo has uncommitted edits — refusing to commit on top"@
            },
            WriterErrorView::Unanchorable { detail } => {
                "the proposal has no anchor in the manifest: "@ + detail
            },
            WriterErrorView::Conflict { detail } => "manifest repo conflict: "@ + detail,
            WriterErrorView::Transport { detail } => "manifest writer transport failed: "@ + detail,
        }
    }
}

impl WriterError {
    /// The error in words.
    #[must_use]
    pub fn message(&self) -> (r: String)
        ensures
            r@ == self@.words(),
    {
        match self {
            WriterError::Disabled => "no manifest writer is configured".to_owned(),
            WriterError::OutsideBlastRadius { path, allowed_prefix } => {
                let mut s = "path ".to_owned();
                s.append(debug_text(path.as_str()).as_str());
                s.append(" is outside the writer's allowed prefix ");
                s.append(debug_text(allowed_prefix.as_str()).as_str());
                s
            },
            WriterError::RepoNotClean => {
                "the manifest repo has uncommitted edits — refusing to commit on top".to_owned()
            },
            WriterError::Unanchorable { detail } => {
                let mut s = "the proposal has no anchor in the manifest: ".to_owned();
                s.append(detail.as_str());
                s
            },
            WriterError::Conflict { detail } => {
                let mut s = "manifest repo conflict: ".to_owned();
                s.append(detail.as_str());
                s
            },
            WriterError::Transport { detail } => {
                let mut s = "manifest writer transport failed: ".to_owned();
                s.append(detail.as_str());
                s
            },
        }
    }
}

// ─────────────────────── the plan of a carve ───────────────────────

/// What the band law decided this tick.
#[derive(Debug, Clone, Copy, PartialEq, Eq, Structural)]
pub enum Decision {
    /// Leave the value.
    Hold,
    /// Raise it.
    Grow { from: u64, to: u64 },
    /// Lower it.
    Shrink { from: u64, to: u64 },
    /// A lower value would do, but lowering is withheld.
    ReclaimWithheld { current: u64, reclaimable: u64 },
    /// No lower value is safe.
    NoSafeShrink { current: u64 },
    /// The value is as high as it may be.
    AtCeiling { current: u64 },
    /// The band still warms up.
    Warmup { current: u64, observed_for: u64, warmup: u64 },
    /// There is no value to hold.
    NoLimit,
}

/// What the isolation seal of the workload made of the value that a decision
/// grows to: the value raised to the seal's floor, and whether the floor bound.
#[derive(Debug, Clone, Copy, PartialEq, Eq, Structural)]
pub struct SealedCarve {
    /// The value, at least the seal's floor.
    pub target: u64,
    /// Whether the floor raised it.
    pub seal_bound: bool,
}

impl Decision {
    /// The value that is handed to the isolation seal.
    pub open spec fn seat(self) -> Option<u64> {
        match self {
            Decision::Grow { to, .. } => Some(to),
            _ => None,
        }
    }

    /// The value to hand to the isolation seal: only a growth is sealed.
    #[must_use]
    pub fn seal_seat(&self) -> (r: Option<u64>)
        ensures
            r == self.seat(),
    {
        match self {
            Decision::Grow { to, .. } => Some(*to),
            _ => None,
        }
    }
}

/// Why a carve is not made.
#[derive(Debug, PartialEq, Eq)]
pub enum RequestCarveBlocked {
    /// It would move the class.
    ClassWouldChange(ClassWouldChange),
    /// The container is not there.
    NoSuchContainer(NoSuchContainer),
    /// It exceeds the live limit.
    AboveLimit(AboveLimit),
    /// No node could take it.
    WouldNotSchedule(WouldNotSchedule),
    /// The API server would refuse it.
    ResizeIllegal { legality: ResizeLegality },
    /// It would lower a reservation.
    ShrinkWithoutEvidence { from: u64, to: u64 },
    /// The change of class cannot go through.
    Transition(ClassTransitionBlocked),
    /// The class asked for seals less than the observed one.
    WouldWeakenSeal { observed: QosClass, target: QosClass },
}

/// A refusal with its texts as characters.
pub enum BlockedView {
    /// It would move the class.
    ClassWouldChange {
        from: QosClass,
        to: QosClass,
        container: Seq<char>,
        resource: RequestResource,
    },
    /// The container is not there.
    NoSuchContainer { container: Seq<char> },
    /// It exceeds the live limit.
    AboveLimit(AboveLimit),
    /// No node could take it.
    WouldNotSchedule(WouldNotSchedule),
    /// The API server would refuse it.
    ResizeIllegal(ResizeLegality),
    /// It would lower a reservation.
    ShrinkWithoutEvidence { low: u64, high: u64 },
    /// The change of class cannot go through.
    Transition(TransitionBlockedView),
    /// The class asked for seals less than the observed one.
    WouldWeakenSeal { observed: QosClass, target: QosClass },
}

impl View for RequestCarveBlocked {
    type V = BlockedView;

    open spec fn view(&self) -> BlockedView {
        match *self {
            RequestCarveBlocked::ClassWouldChange(e) => BlockedView::ClassWouldChange {
                from: e.from,
                to: e.to,
                container: e.container@,
                resource: e.resource,
            },
            RequestCarveBlocked::NoSuchContainer(e) => BlockedView::NoSuchContainer {
                container: e.container@,
            },
            RequestCarveBlocked::AboveLimit(e) => BlockedView::AboveLimit(e),
            RequestCarveBlocked::WouldNotSchedule(e) => BlockedView::WouldNotSchedule(e),
            RequestCarveBlocked::ResizeIllegal { legality } => BlockedView::ResizeIllegal(legality),
            RequestCarveBlocked::ShrinkWithoutEvidence { from, to } => {
                BlockedView::ShrinkWithoutEvidence { low: to, high: from }
            },
            RequestCarveBlocked::Transition(b) => BlockedView::Transition(b@),
            RequestCarveBlocked::WouldWeakenSeal { observed, target } => {
                BlockedView::WouldWeakenSeal { observed, target }
            },
        }
    }
}

impl RequestCarveBlocked {
    /// The refusal in words.
    pub open spec fn words(self) -> Seq<char> {
        match self {
            RequestCarveBlocked::ClassWouldChange(e) => e.words(),
            RequestCarveBlocked::NoSuchContainer(e) => no_such_container_words(e.container@),
            RequestCarveBlocked::AboveLimit(e) => e.words(),
            RequestCarveBlocked::WouldNotSchedule(e) => e.words(),
            RequestCarveBlocked::ResizeIllegal { legality } => {
                "the API server will not accept this resize: "@ + legality.words()
            },
            RequestCarveBlocked::ShrinkWithoutEvidence { from, to } => "a request shrink "@
                + decimal(from as nat) + " → "@ + decimal(to as nat)
                + " reached the planner; lowering a reservation requires RequestShrinkEvidence, which has no constructor"@,
            RequestCarveBlocked::Transition(b) => "class transition blocked: "@ + b@.words(),
            RequestCarveBlocked::WouldWeakenSeal { observed, target } => "qosTarget "@
                + target.name() + " is a weaker seal than the observed "@ + observed.name()
                + "; breathe never proposes to strip a workload's reservation"@,
        }
    }

    /// The refusal in words.
    #[must_use]
    pub fn message(&self) -> (r: String)
        ensures
            r@ == self.words(),
    {
        match self {
            RequestCarveBlocked::ClassWouldChange(e) => e.message(),
            RequestCarveBlocked::NoSuchContainer(e) => e.message(),
            RequestCarveBlocked::AboveLimit(e) => e.message(),
            RequestCarveBlocked::WouldNotSchedule(e) => e.message(),
            RequestCarveBlocked::ResizeIllegal { legality } => {
                let mut s = "the API server will not accept this resize: ".to_owned();
                match legality {
                    ResizeLegality::Allowed => s.append("Allowed"),
                    ResizeLegality::MemoryDecreaseNeedsRestartPolicy => s.append(
                        "MemoryDecreaseNeedsRestartPolicy",
                    ),
                }
                s
            },
            RequestCarveBlocked::ShrinkWithoutEvidence { from, to } => {
                let mut s = "a request shrink ".to_owned();
                s.append(decimal_text(*from).as_str());
                s.append(" → ");
                s.append(decimal_text(*to).as_str());
                s.append(
                    " reached the planner; lowering a reservation requires RequestShrinkEvidence, which has no constructor",
                );
                s
            },
            RequestCarveBlocked::Transition(b) => {
                let mut s = "class transition blocked: ".to_owned();
                s.append(b.message().as_str());
                s
            },
            RequestCarveBlocked::WouldWeakenSeal { observed, target } => {
                let mut s = "qosTarget ".to_owned();
                s.append(target.as_str());
                s.append(" is a weaker seal than the observed ");
                s.append(observed.as_str());
                s.append("; breathe never proposes to strip a workload's reservation");
                s
            },
        }
    }
}

/// A carve to be made in place: the write, and the proof that it leaves the
/// class alone, made from one chain of bounds.
#[derive(Debug, PartialEq, Eq)]
pub struct InPlaceCarve {
    patch: SsaPatch,
    preserved: ClassPreserved,
    durability: Durability,
    from: u64,
    to: u64,
    seal_bound: bool,
}

/// The container that a reservation's layout names.
pub open spec fn request_container(layout: LimitLayout) -> Option<Seq<char>> {
    match layout {
        LimitLayout::PodRequestResize { container } => match container {
            Some(c) => Some(c@),
            None => None,
        },
        _ => None,
    }
}

/// A carve with its texts as characters.
pub struct CarveView {
    /// The workload written.
    pub target: Target,
    /// Who writes.
    pub field_manager: Seq<char>,
    /// The container that the write's layout names.
    pub container: Option<Seq<char>>,
    /// The resource written.
    pub resource: Seq<char>,
    /// The value written.
    pub value: u64,
    /// What is proved of the class.
    pub preserved: PreservedView,
    /// How long the value is meant to last.
    pub durability: Durability,
    /// The value before.
    pub from: u64,
    /// The value after.
    pub to: u64,
    /// Whether the isolation seal raised it.
    pub seal_bound: bool,
}

impl View for InPlaceCarve {
    type V = CarveView;

    closed spec fn view(&self) -> CarveView {
        CarveView {
            target: self.patch.target,
            field_manager: self.patch.field_manager@,
            container: request_container(self.patch.layout),
            resource: self.patch.resource@,
            value: self.patch.value,
            preserved: self.preserved@,
            durability: self.durability,
            from: self.from,
            to: self.to,
            seal_bound: self.seal_bound,
        }
    }
}

impl InPlaceCarve {
    /// The write.
    #[must_use]
    pub fn patch(&self) -> (r: &SsaPatch)
        ensures
            r.target == self@.target,
            r.field_manager@ == self@.field_manager,
            request_container(r.layout) == self@.container,
            r.resource@ == self@.resource,
            r.value == self@.value,
    {
        &self.patch
    }

    /// The proof that the write leaves the class alone.
    #[must_use]
    pub fn preserved(&self) -> (r: &ClassPreserved)
        ensures
            r@ == self@.preserved,
    {
        &self.preserved
    }

    /// The value before.
    #[must_use]
    pub fn from(&self) -> (r: u64)
        ensures
            r == self@.from,
    {
        self.from
    }

    /// The value after.
    #[must_use]
    pub fn to(&self) -> (r: u64)
        ensures
            r == self@.to,
    {
        self.to
    }

    /// Whether the isolation seal raised the value.
    #[must_use]
    pub fn seal_bound(&self) -> (r: bool)
        ensures
            r == self@.seal_bound,
    {
        self.seal_bound
    }

    /// Whether the value is meant to outlast the pod, which a write in place
    /// does not.
    #[must_use]
    pub fn durability_gap(&self) -> (r: bool)
        ensures
            r == (self@.durability is Committed),
    {
        match self.durability {
            Durability::Committed => true,
            Durability::Ephemeral => false,
        }
    }
}

/// What is to be done about a reservation this tick.
#[derive(Debug, PartialEq, Eq)]
pub enum RequestCarvePlan {
    /// Nothing.
    Hold,
    /// Carve in place.
    InPlace(InPlaceCarve),
    /// Propose another class.
    Transition(ClassTransitionProposal),
    /// A lower value would do, but lowering is withheld.
    Withheld { current: u64, reclaimable: Option<u64> },
    /// The carve is refused.
    Blocked(RequestCarveBlocked),
}

/// A plan with its texts as characters.
pub enum PlanView {
    /// Nothing.
    Hold,
    /// Carve in place.
    InPlace(CarveView),
    /// Propose another class.
    Transition {
        target: Target,
        before: QosClass,
        after: QosClass,
        block: Seq<ContainerResources>,
        addr: Seq<u8>,
    },
    /// A lower value would do, but lowering is withheld.
    Withheld { current: u64, reclaimable: Option<u64> },
    /// The carve is refused.
    Blocked(BlockedView),
}

impl View for RequestCarvePlan {
    type V = PlanView;

    open spec fn view(&self) -> PlanView {
        match *self {
            RequestCarvePlan::Hold => PlanView::Hold,
            RequestCarvePlan::InPlace(c) => PlanView::InPlace(c@),
            RequestCarvePlan::Transition(p) => PlanView::Transition {
                target: p.target,
                before: p.from,
                after: p.to,
                block: p.block.containers@,
                addr: p.addr@,
            },
            RequestCarvePlan::Withheld { current, reclaimable } => PlanView::Withheld {
                current,
                reclaimable,
            },
            RequestCarvePlan::Blocked(b) => PlanView::Blocked(b@),
        }
    }
}

impl RequestCarvePlan {
    /// Whether the plan writes: only a carve in place does.
    #[must_use]
    pub fn writes(&self) -> (r: bool)
        ensures
            r == (self@ is InPlace),
    {
        match self {
            RequestCarvePlan::InPlace(_) => true,
            _ => false,
        }
    }

    /// The gap between the workload's class and the class it should have.
    #[must_use]
    pub fn qos_gap(&self, writer_configured: bool) -> (r: QosGap)
        ensures
            match self@ {
                PlanView::Transition { addr, .. } => if writer_configured {
                    r matches QosGap::PromotionProposed { proposal } && proposal@ == hex_of(addr)
                } else {
                    r matches QosGap::Blocked(b) && b@ is NoWriterConfigured
                },
                PlanView::Blocked(BlockedView::Transition(b)) => r matches QosGap::Blocked(e) && e@
                    == b,
                _ => r is Held,
            },
    {
        match self {
            RequestCarvePlan::Transition(p) => {
                if writer_configured {
                    QosGap::PromotionProposed { proposal: p.addr.message() }
                } else {
                    QosGap::Blocked(ClassTransitionBlocked::NoWriterConfigured)
                }
            },
            RequestCarvePlan::Blocked(b) => match b {
                RequestCarveBlocked::Transition(e) => QosGap::Blocked(e.clone()),
                _ => QosGap::Held,
            },
            _ => QosGap::Held,
        }
    }
}

/// Everything that decides the plan of a carve.
#[derive(Debug, Clone, Copy)]
pub struct RequestCarveInput<'a> {
    /// The workload.
    pub target: &'a Target,
    /// The container carved.
    pub container: &'a str,
    /// The resource carved.
    pub resource: RequestResource,
    /// What the pod declares.
    pub observed: &'a PodResources,
    /// What the band law decided.
    pub decision: Decision,
    /// What the isolation seal made of the value that the decision grows to.
    pub sealed: SealedCarve,
    /// What one node can still take.
    pub headroom: AllocatableHeadroom,
    /// How many replicas the workload has.
    pub replicas: u32,
    /// How long the value is meant to last.
    pub durability: Durability,
    /// The class that the workload should have.
    pub qos_target: QosClass,
    /// The minor version of the API server.
    pub server_minor: u32,
    /// The container's policy for resizing its memory.
    pub memory_resize_policy: MemoryResizePolicy,
    /// Who writes.
    pub field_manager: &'a str,
}

/// The first container, and its first resource, that is not limited.
pub open spec fn first_unlimited(cs: Seq<ContainerResources>) -> Option<(int, RequestResource)>
    decreases cs.len(),
{
    if cs.len() == 0 {
        None
    } else {
        match first_unlimited(cs.drop_last()) {
            Some(x) => Some(x),
            None => if cs.last().limited(RequestResource::Memory) is None {
                Some((cs.len() - 1, RequestResource::Memory))
            } else if cs.last().limited(RequestResource::Cpu) is None {
                Some((cs.len() - 1, RequestResource::Cpu))
            } else {
                None
            },
        }
    }
}

/// The container with its limits as its requests.
pub open spec fn sealed_container(c: ContainerResources) -> ContainerResources {
    c.requesting(RequestResource::Memory, c.limited(RequestResource::Memory)->0).requesting(
        RequestResource::Cpu,
        c.limited(RequestResource::Cpu)->0,
    )
}

/// The words for a container without a limit.
pub open spec fn no_limit_words(container: Seq<char>, resource: RequestResource) -> Seq<char> {
    "container "@ + debug_quoted(container) + " declares no "@ + resource.name()
        + " limit, so its request can never equal it"@
}

/// The words for the refusal to take a reservation away.
pub open spec fn de_seal_words() -> Seq<char> {
    "de-sealing to BestEffort is an operator edit, never a controller proposal"@
}

/// The words for a block that does not change the class.
pub open spec fn still_words(class: QosClass) -> Seq<char> {
    "the rendered block is still "@ + class.name()
}

/// The declarations that would give the pod another class: every request its
/// limit for `Guaranteed`, one request for `Burstable`, and none for
/// `BestEffort`.
pub open spec fn transition_of(
    cs: Seq<ContainerResources>,
    to: QosClass,
    container: Seq<char>,
    resource: RequestResource,
    seat: u64,
) -> Result<Seq<ContainerResources>, Seq<char>> {
    match to {
        QosClass::Guaranteed => match first_unlimited(cs) {
            Some((i, r)) => Err(no_limit_words(cs[i].name@, r)),
            None => Ok(cs.map_values(|c: ContainerResources| sealed_container(c))),
        },
        QosClass::Burstable => match with_named_request(cs, container, resource, seat) {
            Some(next) => Ok(next),
            None => Err(no_such_container_words(container)),
        },
        QosClass::BestEffort => Err(de_seal_words()),
    }
}

fn unreachable_block(detail: String) -> (r: ClassTransitionBlocked)
    ensures
        r@ == (TransitionBlockedView::UnreachableFromObserved { detail: detail@ }),
{
    ClassTransitionBlocked::UnreachableFromObserved { detail }
}

fn no_limit_text(container: &str, resource: RequestResource) -> (r: String)
    ensures
        r@ == no_limit_words(container@, resource),
{
    let mut s = "container ".to_owned();
    s.append(debug_text(container).as_str());
    s.append(" declares no ");
    s.append(resource.as_str());
    s.append(" limit, so its request can never equal it");
    s
}

proof fn lemma_first_unlimited_extends(cs: Seq<ContainerResources>, n: int)
    requires
        0 <= n <= cs.len(),
        first_unlimited(cs.take(n)) is Some,
    ensures
        first_unlimited(cs) == first_unlimited(cs.take(n)),
    decreases cs.len() - n,
{
    if n < cs.len() {
        assert(cs.take(n + 1).drop_last() =~= cs.take(n));
        lemma_first_unlimited_extends(cs, n + 1);
    } else {
        assert(cs.take(n) =~= cs);
    }
}

fn transition_block(
    observed: &PodResources,
    to: QosClass,
    container: &str,
    resource: RequestResource,
    seat: u64,
) -> (r: Result<PodResources, ClassTransitionBlocked>)
    ensures
        match transition_of(observed.containers@, to, container@, resource, seat) {
            Ok(cs) => r matches Ok(p) && p.containers@ == cs,
            Err(detail) => r matches Err(b) && b@
                == (TransitionBlockedView::UnreachableFromObserved { detail }),
        },
{
    match to {
        QosClass::Guaranteed => {
            let cs = &observed.containers;
            let mut next: Vec<ContainerResources> = Vec::new();
            let mut i: usize = 0;
            let ghost all = cs@.map_values(|c: ContainerResources| sealed_container(c));
            assert(next@ =~= all.take(0));
            while i < cs.len()
                invariant
                    i <= cs.len(),
                    cs == &observed.containers,
                    to is Guaranteed,
                    all == cs@.map_values(|c: ContainerResources| sealed_container(c)),
                    next@ == all.take(i as int),
                    first_unlimited(cs@.take(i as int)) is None,
                decreases cs.len() - i,
            {
                assert(cs@.take(i + 1).drop_last() =~= cs@.take(i as int));
                assert(cs@.take(i + 1).last() == cs@[i as int]);
                let memory: u64 = match cs[i].limit(RequestResource::Memory) {
                    Some(l) => l,
                    None => {
                        proof {
                            lemma_first_unlimited_extends(cs@, i + 1);
                        }
                        return Err(
                            unreachable_block(
                                no_limit_text(cs[i].name.as_str(), RequestResource::Memory),
                            ),
                        );
                    },
                };
                let cpu: u64 = match cs[i].limit(RequestResource::Cpu) {
                    Some(l) => l,
                    None => {
                        proof {
                            lemma_first_unlimited_extends(cs@, i + 1);
                        }
                        return Err(
                            unreachable_block(
                                no_limit_text(cs[i].name.as_str(), RequestResource::Cpu),
                            ),
                        );
                    },
                };
                let sealed = cs[i].with_request(RequestResource::Memory, memory).with_request(
                    RequestResource::Cpu,
                    cpu,
                );
                next.push(sealed);
                assert(next@ =~= all.take(i + 1));
                i = i + 1;
            }
            assert(cs@.take(cs.len() as int) =~= cs@);
            assert(all.take(cs.len() as int) =~= all);
            Ok(PodResources { containers: next })
        },
        QosClass::Burstable => match observed.with_request(container, resource, seat) {
            Some(p) => Ok(p),
            None => Err(unreachable_block(no_such_container_text(container))),
        },
        QosClass::BestEffort => Err(
            unreachable_block(
                "de-sealing to BestEffort is an operator edit, never a controller proposal".to_owned(),
            ),
        ),
    }
}

/// The value of an optional request.
pub open spec fn or_zero(o: Option<u64>) -> u64 {
    match o {
        Some(v) => v,
        None => 0,
    }
}

/// The plan where the workload has not the class it should have. A weaker class
/// is never proposed, and an ephemeral band proposes nothing.
pub open spec fn planned_transition(
    input: RequestCarveInput,
    observed_class: QosClass,
    seat: u64,
) -> PlanView {
    let cs = input.observed.containers@;
    if input.qos_target.rank() < observed_class.rank() {
        PlanView::Blocked(
            BlockedView::WouldWeakenSeal { observed: observed_class, target: input.qos_target },
        )
    } else if input.durability is Ephemeral {
        PlanView::Blocked(
            BlockedView::Transition(TransitionBlockedView::EphemeralCannotTransition),
        )
    } else {
        match transition_of(cs, input.qos_target, input.container@, input.resource, seat) {
            Err(detail) => PlanView::Blocked(
                BlockedView::Transition(TransitionBlockedView::UnreachableFromObserved { detail }),
            ),
            Ok(block) => {
                let asked = match first_named(block, input.container@) {
                    Some(i) => or_zero(block[i].requested(input.resource)),
                    None => 0,
                };
                if asked > input.headroom.per_node {
                    PlanView::Blocked(
                        BlockedView::WouldNotSchedule(
                            WouldNotSchedule {
                                proposed: asked,
                                per_node_headroom: input.headroom.per_node,
                                replicas: input.replicas,
                            },
                        ),
                    )
                } else if qos_of(cs) == qos_of(block) {
                    PlanView::Blocked(
                        BlockedView::Transition(
                            TransitionBlockedView::UnreachableFromObserved {
                                detail: still_words(qos_of(cs)),
                            },
                        ),
                    )
                } else {
                    PlanView::Transition {
                        target: *input.target,
                        before: qos_of(cs),
                        after: qos_of(block),
                        block,
                        addr: block_addr(block),
                    }
                }
            },
        }
    }
}

fn plan_class_transition(
    input: &RequestCarveInput<'_>,
    observed_class: QosClass,
    raw_seat: u64,
) -> (r: RequestCarvePlan)
    ensures
        r@ == planned_transition(*input, observed_class, raw_seat),
{
    if seal_rank(input.qos_target) < seal_rank(observed_class) {
        return RequestCarvePlan::Blocked(
            RequestCarveBlocked::WouldWeakenSeal {
                observed: observed_class,
                target: input.qos_target,
            },
        );
    }
    if input.durability == Durability::Ephemeral {
        return RequestCarvePlan::Blocked(
            RequestCarveBlocked::Transition(ClassTransitionBlocked::EphemeralCannotTransition),
        );
    }
    let block = match transition_block(
        input.observed,
        input.qos_target,
        input.container,
        input.resource,
        raw_seat,
    ) {
        Ok(b) => b,
        Err(e) => {
            return RequestCarvePlan::Blocked(RequestCarveBlocked::Transition(e));
        },
    };
    if let Some(i) = find_named(&block.containers, input.container) {
        let value: u64 = match block.containers[i].request(input.resource) {
            Some(v) => v,
            None => 0,
        };
        match RequestTarget::new(value, u64::MAX) {
            Ok(bounded) => {
                if let Err(e) = input.headroom.admit_target(bounded, input.replicas) {
                    return RequestCarvePlan::Blocked(RequestCarveBlocked::WouldNotSchedule(e));
                }
            },
            Err(e) => {
                return RequestCarvePlan::Blocked(RequestCarveBlocked::AboveLimit(e));
            },
        }
    }
    match ClassTransitionProposal::new(input.target.clone(), input.observed, block) {
        Ok(p) => RequestCarvePlan::Transition(p),
        Err(same) => {
            let mut detail = "the rendered block is still ".to_owned();
            detail.append(same.class.as_str());
            RequestCarvePlan::Blocked(
                RequestCarveBlocked::Transition(unreachable_block(detail)),
            )
        },
    }
}

/// The larger of two numbers.
pub open spec fn larger(a: u64, b: u64) -> u64 {
    if a >= b {
        a
    } else {
        b
    }
}

/// The plan of a growth within the class: the value that the seal gave must be
/// at most the live limit, must fit a node, must lie above the value before and
/// not below the request held, and must leave the class alone.
pub open spec fn planned_growth(input: RequestCarveInput, index: int, from: u64) -> PlanView {
    let cs = input.observed.containers@;
    let value = input.sealed.target;
    let live_limit = match cs[index].limited(input.resource) {
        Some(l) => l,
        None => u64::MAX,
    };
    let after = cs.update(index, cs[index].requesting(input.resource, value));
    if value > live_limit {
        PlanView::Blocked(BlockedView::AboveLimit(AboveLimit { proposed: value, live_limit }))
    } else if value > input.headroom.per_node {
        PlanView::Blocked(
            BlockedView::WouldNotSchedule(
                WouldNotSchedule {
                    proposed: value,
                    per_node_headroom: input.headroom.per_node,
                    replicas: input.replicas,
                },
            ),
        )
    } else if value == from {
        PlanView::Hold
    } else if value < from || value < or_zero(cs[index].requested(input.resource)) {
        PlanView::Blocked(
            BlockedView::ShrinkWithoutEvidence {
                low: value,
                high: larger(from, or_zero(cs[index].requested(input.resource))),
            },
        )
    } else if qos_of(cs) != qos_of(after) {
        PlanView::Blocked(
            BlockedView::ClassWouldChange {
                from: qos_of(cs),
                to: qos_of(after),
                container: input.container@,
                resource: input.resource,
            },
        )
    } else {
        PlanView::InPlace(
            CarveView {
                target: *input.target,
                field_manager: input.field_manager@,
                container: Some(input.container@),
                resource: input.resource.name(),
                value,
                preserved: PreservedView {
                    class: qos_of(cs),
                    container: input.container@,
                    resource: input.resource,
                    from: cs[index].requested(input.resource),
                    to: value,
                },
                durability: input.durability,
                from,
                to: value,
                seal_bound: input.sealed.seal_bound,
            },
        )
    }
}

/// The plan of a carve: another class first, then what the decision says within
/// the class.
pub open spec fn planned(input: RequestCarveInput) -> PlanView {
    let cs = input.observed.containers@;
    match first_named(cs, input.container@) {
        None => PlanView::Blocked(BlockedView::NoSuchContainer { container: input.container@ }),
        Some(index) => {
            let seat = match input.decision.seat() {
                Some(to) => to,
                None => or_zero(cs[index].requested(input.resource)),
            };
            if qos_of(cs) != input.qos_target {
                planned_transition(input, qos_of(cs), seat)
            } else {
                match input.decision {
                    Decision::Grow { from, .. } => planned_growth(input, index, from),
                    Decision::ReclaimWithheld { current, reclaimable } => PlanView::Withheld {
                        current,
                        reclaimable: Some(reclaimable),
                    },
                    Decision::NoSafeShrink { current } => PlanView::Withheld {
                        current,
                        reclaimable: None,
                    },
                    Decision::Shrink { from, to } => PlanView::Blocked(
                        BlockedView::ShrinkWithoutEvidence { low: to, high: from },
                    ),
                    _ => PlanView::Hold,
                }
            }
        },
    }
}

/// Plans a carve.
#[must_use]
pub fn plan_request_carve(input: &RequestCarveInput<'_>) -> (r: RequestCarvePlan)
    ensures
        r@ == planned(*input),
{
    let index: usize = match find_named(&input.observed.containers, input.container) {
        Some(i) => i,
        None => {
            return RequestCarvePlan::Blocked(
                RequestCarveBlocked::NoSuchContainer(
                    NoSuchContainer { container: input.container.to_owned() },
                ),
            );
        },
    };
    let held: Option<u64> = input.observed.containers[index].request(input.resource);
    let raw_seat: u64 = match input.decision {
        Decision::Grow { to, .. } => to,
        _ => match held {
            Some(v) => v,
            None => 0,
        },
    };
    let observed_class = input.observed.qos_class();
    if observed_class != input.qos_target {
        return plan_class_transition(input, observed_class, raw_seat);
    }
    let from: u64 = match input.decision {
        Decision::Grow { from, .. } => from,
        Decision::ReclaimWithheld { current, reclaimable } => {
            return RequestCarvePlan::Withheld { current, reclaimable: Some(reclaimable) };
        },
        Decision::NoSafeShrink { current } => {
            return RequestCarvePlan::Withheld { current, reclaimable: None };
        },
        Decision::Shrink { from, to } => {
            return RequestCarvePlan::Blocked(
                RequestCarveBlocked::ShrinkWithoutEvidence { from, to },
            );
        },
        _ => {
            return RequestCarvePlan::Hold;
        },
    };
    let legality = ResizeLegality::evaluate(
        input.server_minor,
        input.memory_resize_policy,
        input.resource,
        CarveDirection::Grow,
        false,
    );
    if !legality.is_allowed() {
        return RequestCarvePlan::Blocked(RequestCarveBlocked::ResizeIllegal { legality });
    }
    let live_limit: u64 = match input.observed.containers[index].limit(input.resource) {
        Some(l) => l,
        None => u64::MAX,
    };
    let bounded = match RequestTarget::new(input.sealed.target, live_limit) {
        Ok(t) => t,
        Err(e) => {
            return RequestCarvePlan::Blocked(RequestCarveBlocked::AboveLimit(e));
        },
    };
    let admitted = match input.headroom.admit_target(bounded, input.replicas) {
        Ok(a) => a,
        Err(e) => {
            return RequestCarvePlan::Blocked(RequestCarveBlocked::WouldNotSchedule(e));
        },
    };
    if admitted.get() == from {
        return RequestCarvePlan::Hold;
    }
    let request: u64 = match held {
        Some(v) => v,
        None => 0,
    };
    let high: u64 = if from >= request {
        from
    } else {
        request
    };
    if admitted.get() < high {
        return RequestCarvePlan::Blocked(
            RequestCarveBlocked::ShrinkWithoutEvidence { from: high, to: admitted.get() },
        );
    }
    let preserved = match ClassPreserved::check(
        input.observed,
        input.container,
        input.resource,
        admitted.get(),
    ) {
        Ok(w) => w,
        Err(PreserveError::ClassWouldChange(e)) => {
            return RequestCarvePlan::Blocked(RequestCarveBlocked::ClassWouldChange(e));
        },
        Err(PreserveError::NoSuchContainer(e)) => {
            return RequestCarvePlan::Blocked(RequestCarveBlocked::NoSuchContainer(e));
        },
    };
    RequestCarvePlan::InPlace(
        InPlaceCarve {
            patch: SsaPatch {
                target: input.target.clone(),
                field_manager: input.field_manager.to_owned(),
                layout: LimitLayout::PodRequestResize { container: Some(input.container.to_owned()) },
                resource: input.resource.as_str().to_owned(),
                value: admitted.get(),
            },
            preserved,
            durability: input.durability,
            from,
            to: admitted.get(),
            seal_bound: input.sealed.seal_bound,
        },
    )
}

// ─────────────────────── laws ───────────────────────

/// A carve is made in place only within the class, and only up: it follows a
/// decision to grow, writes exactly the value that the isolation seal gave,
/// stays at or below the live limit and what a node can take, ends above where it
/// began and not below the request held, and carries the proof of exactly that
/// change.
pub proof fn an_in_place_carve_keeps_every_bound(input: RequestCarveInput, c: CarveView)
    requires
        planned(input) == PlanView::InPlace(c),
    ensures
        input.decision is Grow,
        c.value == input.sealed.target,
        c.to == c.value,
        c.to > c.from,
        c.value <= input.headroom.per_node,
        first_named(input.observed.containers@, input.container@) matches Some(i) && (
        input.observed.containers@[i].limited(input.resource) matches Some(l) ==> c.value <= l)
            && c.value >= or_zero(input.observed.containers@[i].requested(input.resource))
            && qos_of(
            input.observed.containers@.update(
                i,
                input.observed.containers@[i].requesting(input.resource, c.value),
            ),
        ) == input.qos_target,
        qos_of(input.observed.containers@) == input.qos_target,
        c.container == Some(input.container@),
        c.resource == input.resource.name(),
        c.preserved.class == input.qos_target,
        c.preserved.container == input.container@,
        c.preserved.resource == input.resource,
        c.preserved.to == c.value,
{
}

/// A value at or above any floor that the isolation seal keeps is carved at or
/// above it.
pub proof fn a_carve_never_undercuts_its_seal(input: RequestCarveInput, c: CarveView, floor: u64)
    requires
        planned(input) == PlanView::InPlace(c),
        input.sealed.target >= floor,
    ensures
        c.value >= floor,
{
}

/// A reservation is never lowered in place: a value below the one that the
/// decision starts from, or below the request held, is not written, whatever the
/// decision says.
pub proof fn a_reservation_is_never_lowered(input: RequestCarveInput)
    requires
        first_named(input.observed.containers@, input.container@) matches Some(i) && ((
        input.decision matches Decision::Grow { from, .. } && input.sealed.target < from)
            || input.sealed.target < or_zero(
            input.observed.containers@[i].requested(input.resource),
        )),
    ensures
        !(planned(input) is InPlace),
{
}

/// A decision that does not grow never writes.
pub proof fn only_growth_writes(input: RequestCarveInput)
    requires
        !(input.decision is Grow),
    ensures
        !(planned(input) is InPlace),
{
}

/// A workload that has not the class it should have is never written.
pub proof fn a_class_gap_never_writes(input: RequestCarveInput)
    requires
        qos_of(input.observed.containers@) != input.qos_target,
    ensures
        !(planned(input) is InPlace),
{
}

proof fn lemma_first_unlimited_none(cs: Seq<ContainerResources>)
    requires
        first_unlimited(cs) is None,
    ensures
        all_limited(cs),
    decreases cs.len(),
{
    if cs.len() > 0 {
        let init = cs.drop_last();
        lemma_first_unlimited_none(init);
        assert forall|i: int| 0 <= i < cs.len() implies (#[trigger] cs[i]).fully_limited() by {
            if i < cs.len() - 1 {
                assert(init[i].fully_limited());
            }
        }
    }
}

proof fn lemma_equal_amounts(cs: Seq<ContainerResources>, r: RequestResource)
    requires
        forall|i: int|
            0 <= i < cs.len() ==> amount(#[trigger] cs[i], r, false) == amount(cs[i], r, true),
    ensures
        sum_of(cs, r, false) == sum_of(cs, r, true),
        any_declares(cs, r, false) == any_declares(cs, r, true),
    decreases cs.len(),
{
    if cs.len() > 0 {
        let init = cs.drop_last();
        assert forall|i: int| 0 <= i < init.len() implies amount(#[trigger] init[i], r, false)
            == amount(init[i], r, true) by {
            assert(amount(cs[i], r, false) == amount(cs[i], r, true));
        }
        lemma_equal_amounts(init, r);
        assert(amount(cs[cs.len() - 1], r, false) == amount(cs[cs.len() - 1], r, true));
    }
    if any_declares(cs, r, false) {
        let k = choose|k: int| 0 <= k < cs.len() && amount(#[trigger] cs[k], r, false) is Some;
        assert(amount(cs[k], r, true) is Some);
    }
    if any_declares(cs, r, true) {
        let k = choose|k: int| 0 <= k < cs.len() && amount(#[trigger] cs[k], r, true) is Some;
        assert(amount(cs[k], r, false) is Some);
    }
}

/// A pod whose containers are all limited becomes `Guaranteed` when every
/// request is set to its limit.
pub proof fn requests_equal_to_limits_are_guaranteed(cs: Seq<ContainerResources>)
    requires
        cs.len() > 0,
        all_limited(cs),
    ensures
        qos_of(cs.map_values(|c: ContainerResources| sealed_container(c))) is Guaranteed,
{
    let block = cs.map_values(|c: ContainerResources| sealed_container(c));
    assert forall|i: int, r: RequestResource| 0 <= i < block.len() implies amount(
        #[trigger] block[i],
        r,
        false,
    ) == #[trigger] amount(block[i], r, true) && amount(block[i], r, true) is Some by {
        assert(cs[i].fully_limited());
        assert(block[i] == sealed_container(cs[i]));
        match r {
            RequestResource::Memory => {},
            RequestResource::Cpu => {},
        }
    }
    assert forall|i: int| 0 <= i < block.len() implies (#[trigger] block[i]).fully_limited() by {
        assert(cs[i].fully_limited());
        assert(block[i] == sealed_container(cs[i]));
    }
    assert forall|i: int| 0 <= i < block.len() implies amount(
        #[trigger] block[i],
        RequestResource::Cpu,
        false,
    ) == amount(block[i], RequestResource::Cpu, true) by {
        assert(amount(block[i], RequestResource::Cpu, true) is Some);
    }
    assert forall|i: int| 0 <= i < block.len() implies amount(
        #[trigger] block[i],
        RequestResource::Memory,
        false,
    ) == amount(block[i], RequestResource::Memory, true) by {
        assert(amount(block[i], RequestResource::Memory, true) is Some);
    }
    lemma_equal_amounts(block, RequestResource::Cpu);
    lemma_equal_amounts(block, RequestResource::Memory);
    assert(amount(block[0], RequestResource::Cpu, true) is Some);
    assert(amount(block[0], RequestResource::Memory, true) is Some);
}

/// A proposed transition reaches exactly the class asked for, always a stronger
/// one, and is proposed only by a band whose values are meant to last. A
/// transition is no write.
pub proof fn a_transition_reaches_the_class_asked_for(input: RequestCarveInput)
    requires
        planned(input) is Transition,
    ensures
        planned(input)->after == input.qos_target,
        planned(input)->before == qos_of(input.observed.containers@),
        planned(input)->before.rank() < planned(input)->after.rank(),
        planned(input)->after == qos_of(planned(input)->block),
        planned(input)->addr == block_addr(planned(input)->block),
        input.durability is Committed,
{
    let cs = input.observed.containers@;
    lemma_first_named(cs, input.container@);
    let i = first_named(cs, input.container@)->0;
    match input.qos_target {
        QosClass::Guaranteed => {
            lemma_first_unlimited_none(cs);
            requests_equal_to_limits_are_guaranteed(cs);
        },
        QosClass::Burstable => {
            let block = planned(input)->block;
            assert(qos_of(cs) is BestEffort);
            assert(total(cs, RequestResource::Cpu, true) is None);
            assert(amount(cs[i], RequestResource::Cpu, true) is None);
            assert(block[i].limited(RequestResource::Cpu) is None);
            assert(!all_limited(block)) by {
                assert(!block[i].fully_limited());
            }
        },
        QosClass::BestEffort => {},
    }
}

/// The class of a pod with nothing declared is `BestEffort`, and a pod in which
/// something is declared never is.
pub proof fn best_effort_declares_nothing(cs: Seq<ContainerResources>)
    ensures
        qos_of(cs) is BestEffort <==> forall|i: int, r: RequestResource, limits: bool|
            0 <= i < cs.len() ==> #[trigger] amount(cs[i], r, limits) is None,
{
    if qos_of(cs) is BestEffort {
        assert forall|i: int, r: RequestResource, limits: bool| 0 <= i < cs.len() implies
            #[trigger] amount(cs[i], r, limits) is None by {
            assert(total(cs, r, limits) is None) by {
                match r {
                    RequestResource::Cpu => {},
                    RequestResource::Memory => {},
                }
            }
        }
    } else {
        if forall|i: int, r: RequestResource, limits: bool|
            0 <= i < cs.len() ==> #[trigger] amount(cs[i], r, limits) is None {
            assert(!any_declares(cs, RequestResource::Cpu, false));
            assert(!any_declares(cs, RequestResource::Memory, false));
            assert(!any_declares(cs, RequestResource::Cpu, true));
            assert(!any_declares(cs, RequestResource::Memory, true));
        }
    }
}

/// What quantities come to together, an absent one being none.
pub open spec fn added_up(v: Seq<Option<u64>>) -> nat
    decreases v.len(),
{
    if v.len() == 0 {
        0
    } else {
        added_up(v.drop_last()) + match v.last() {
            Some(n) => n as nat,
            None => 0,
        }
    }
}

/// A quantity that is there and not zero.
pub open spec fn above_zero(o: Option<u64>) -> bool {
    o matches Some(n) && n > 0
}

/// A number as far as the machine can hold it.
pub open spec fn held_of(n: nat) -> nat {
    if n <= u64::MAX {
        n
    } else {
        u64::MAX as nat
    }
}

spec fn written_amount(c: ContainerResources, r: RequestResource, limits: bool) -> Option<u64> {
    match (r, limits) {
        (RequestResource::Memory, false) => c.memory_request,
        (RequestResource::Memory, true) => c.memory_limit,
        (RequestResource::Cpu, false) => c.cpu_request,
        (RequestResource::Cpu, true) => c.cpu_limit,
    }
}

proof fn lemma_sum_of_written(cs: Seq<ContainerResources>, r: RequestResource, limits: bool)
    ensures
        sum_of(cs, r, limits) == added_up(
            cs.map_values(|c: ContainerResources| written_amount(c, r, limits)),
        ),
    decreases cs.len(),
{
    let f = |c: ContainerResources| written_amount(c, r, limits);
    if cs.len() > 0 {
        lemma_sum_of_written(cs.drop_last(), r, limits);
        assert(cs.map_values(f).drop_last() =~= cs.drop_last().map_values(f));
    }
}

proof fn lemma_total_of_written(cs: Seq<ContainerResources>, r: RequestResource, limits: bool)
    ensures
        total(cs, r, limits) == {
            let n = held_of(
                added_up(cs.map_values(|c: ContainerResources| written_amount(c, r, limits))),
            );
            if n == 0 {
                None
            } else {
                Some(n as u64)
            }
        },
{
    lemma_sum_of_written(cs, r, limits);
    if any_declares(cs, r, limits) {
        let k = choose|k: int| 0 <= k < cs.len() && amount(#[trigger] cs[k], r, limits) is Some;
        lemma_one_of_the_sum(cs, r, limits, k);
    } else {
        lemma_sum_of_undeclared(cs, r, limits);
    }
}

proof fn lemma_one_of_the_sum(cs: Seq<ContainerResources>, r: RequestResource, limits: bool, k: int)
    requires
        0 <= k < cs.len(),
        amount(cs[k], r, limits) is Some,
    ensures
        sum_of(cs, r, limits) >= amount(cs[k], r, limits)->0,
        amount(cs[k], r, limits)->0 > 0,
    decreases cs.len(),
{
    if k < cs.len() - 1 {
        assert(cs.drop_last()[k] == cs[k]);
        lemma_one_of_the_sum(cs.drop_last(), r, limits, k);
    }
}

/// What `Guaranteed` means: there is a container, every container has a limit
/// above zero of cpu and of memory, and for cpu as well as for memory the requests
/// of the whole pod come to what its limits come to.
pub proof fn guaranteed_means_requests_come_to_limits(cs: Seq<ContainerResources>)
    ensures
        qos_of(cs) is Guaranteed <==> {
            let cpu_requests = added_up(cs.map_values(|c: ContainerResources| c.cpu_request));
            let cpu_limits = added_up(cs.map_values(|c: ContainerResources| c.cpu_limit));
            let memory_requests = added_up(cs.map_values(|c: ContainerResources| c.memory_request));
            let memory_limits = added_up(cs.map_values(|c: ContainerResources| c.memory_limit));
            &&& cs.len() > 0
            &&& forall|i: int|
                0 <= i < cs.len() ==> above_zero((#[trigger] cs[i]).cpu_limit)
            &&& forall|i: int|
                0 <= i < cs.len() ==> above_zero((#[trigger] cs[i]).memory_limit)
            &&& held_of(cpu_requests) == held_of(cpu_limits)
            &&& held_of(memory_requests) == held_of(memory_limits)
        },
{
    let cpu = RequestResource::Cpu;
    let memory = RequestResource::Memory;
    lemma_total_of_written(cs, cpu, false);
    lemma_total_of_written(cs, cpu, true);
    lemma_total_of_written(cs, memory, false);
    lemma_total_of_written(cs, memory, true);
    assert(cs.map_values(|c: ContainerResources| c.cpu_request) =~= cs.map_values(
        |c: ContainerResources| written_amount(c, cpu, false),
    ));
    assert(cs.map_values(|c: ContainerResources| c.cpu_limit) =~= cs.map_values(
        |c: ContainerResources| written_amount(c, cpu, true),
    ));
    assert(cs.map_values(|c: ContainerResources| c.memory_request) =~= cs.map_values(
        |c: ContainerResources| written_amount(c, memory, false),
    ));
    assert(cs.map_values(|c: ContainerResources| c.memory_limit) =~= cs.map_values(
        |c: ContainerResources| written_amount(c, memory, true),
    ));
    assert(all_limited(cs) <==> (forall|i: int|
        0 <= i < cs.len() ==> above_zero((#[trigger] cs[i]).cpu_limit)) && (forall|i: int|
        0 <= i < cs.len() ==> above_zero((#[trigger] cs[i]).memory_limit))) by {
        if all_limited(cs) {
            assert forall|i: int| 0 <= i < cs.len() implies above_zero(
                (#[trigger] cs[i]).cpu_limit,
            ) by {
                assert(cs[i].fully_limited());
            }
            assert forall|i: int| 0 <= i < cs.len() implies above_zero(
                (#[trigger] cs[i]).memory_limit,
            ) by {
                assert(cs[i].fully_limited());
            }
        }
    }
    if cs.len() > 0 && all_limited(cs) {
        assert(cs[0].fully_limited());
        lemma_one_of_the_sum(cs, cpu, true, 0);
        lemma_one_of_the_sum(cs, memory, true, 0);
        lemma_sum_of_written(cs, cpu, true);
        lemma_sum_of_written(cs, memory, true);
    }
}

/// What `BestEffort` means: no container has a request or a limit, of cpu or of
/// memory, other than zero. A pod that is neither that nor `Guaranteed` is
/// `Burstable`.
pub proof fn best_effort_means_nothing_above_zero(cs: Seq<ContainerResources>)
    ensures
        qos_of(cs) is BestEffort <==> forall|i: int|
            0 <= i < cs.len() ==> {
                let c = #[trigger] cs[i];
                &&& c.cpu_request is None || c.cpu_request == Some(0u64)
                &&& c.cpu_limit is None || c.cpu_limit == Some(0u64)
                &&& c.memory_request is None || c.memory_request == Some(0u64)
                &&& c.memory_limit is None || c.memory_limit == Some(0u64)
            },
{
    best_effort_declares_nothing(cs);
    if qos_of(cs) is BestEffort {
        assert forall|i: int| 0 <= i < cs.len() implies {
            let c = #[trigger] cs[i];
            &&& c.cpu_request is None || c.cpu_request == Some(0u64)
            &&& c.cpu_limit is None || c.cpu_limit == Some(0u64)
            &&& c.memory_request is None || c.memory_request == Some(0u64)
            &&& c.memory_limit is None || c.memory_limit == Some(0u64)
        } by {
            assert(amount(cs[i], RequestResource::Cpu, false) is None);
            assert(amount(cs[i], RequestResource::Cpu, true) is None);
            assert(amount(cs[i], RequestResource::Memory, false) is None);
            assert(amount(cs[i], RequestResource::Memory, true) is None);
        }
    }
}

/// A request that was set is the request of that resource, and nothing else of the
/// container changes.
pub proof fn a_request_that_was_set_is_requested(c: ContainerResources, r: RequestResource, v: u64)
    ensures
        c.requesting(r, v).requested(r) == if v == 0 {
            None
        } else {
            Some(v)
        },
        c.requesting(r, v).name == c.name,
        c.requesting(r, v).cpu_limit == c.cpu_limit,
        c.requesting(r, v).memory_limit == c.memory_limit,
        r is Cpu ==> c.requesting(r, v).memory_request == c.memory_request
            && c.requesting(r, v).cpu_request == Some(v),
        r is Memory ==> c.requesting(r, v).cpu_request == c.cpu_request
            && c.requesting(r, v).memory_request == Some(v),
{
}

/// A container requests, and is limited to, what it writes for that resource; zero
/// is nothing.
pub proof fn a_container_requests_what_it_writes(c: ContainerResources, v: u64)
    ensures
        c.requested(RequestResource::Cpu) == Some(v) <==> c.cpu_request == Some(v) && v > 0,
        c.requested(RequestResource::Memory) == Some(v) <==> c.memory_request == Some(v) && v > 0,
        c.limited(RequestResource::Cpu) == Some(v) <==> c.cpu_limit == Some(v) && v > 0,
        c.limited(RequestResource::Memory) == Some(v) <==> c.memory_limit == Some(v) && v > 0,
{
}

/// A request is set in the first container of the name, and in no other; without
/// such a container none is set.
pub proof fn a_request_is_set_in_the_first_container_of_the_name(
    cs: Seq<ContainerResources>,
    name: Seq<char>,
    r: RequestResource,
    v: u64,
    i: int,
)
    requires
        0 <= i < cs.len(),
        cs[i].name@ == name,
        forall|j: int| 0 <= j < i ==> (#[trigger] cs[j]).name@ != name,
    ensures
        with_named_request(cs, name, r, v) matches Some(next) && next.len() == cs.len()
            && next[i].requested(r) == (if v == 0 {
            None
        } else {
            Some(v)
        }) && next[i].name == cs[i].name && next[i].cpu_limit == cs[i].cpu_limit
            && next[i].memory_limit == cs[i].memory_limit && (r is Cpu ==> next[i].memory_request
            == cs[i].memory_request) && (r is Memory ==> next[i].cpu_request == cs[i].cpu_request)
            && forall|j: int| 0 <= j < cs.len() && j != i ==> #[trigger] next[j] == cs[j],
{
    lemma_first_named_is(cs, name, i);
}

proof fn lemma_first_named_is(cs: Seq<ContainerResources>, name: Seq<char>, i: int)
    requires
        0 <= i < cs.len(),
        cs[i].name@ == name,
        forall|j: int| 0 <= j < i ==> (#[trigger] cs[j]).name@ != name,
    ensures
        first_named(cs, name) == Some(i),
{
    lemma_first_named(cs, name);
    match first_named(cs, name) {
        Some(k) => {
            if k < i {
                assert(cs[k].name@ != name);
            } else if i < k {
                assert(cs[i].name@ != name);
            }
        },
        None => {
            assert(cs[i].name@ != name);
        },
    }
}

// ─────────────────────── laws on the plan ───────────────────────

/// The container that is to be carved is the one at `i`.
pub open spec fn carves_at(input: RequestCarveInput, i: int) -> bool {
    let cs = input.observed.containers@;
    &&& 0 <= i < cs.len()
    &&& cs[i].name@ == input.container@
    &&& forall|j: int| 0 <= j < i ==> (#[trigger] cs[j]).name@ != input.container@
}

/// A value is at most what the container at `i` is limited to, where it is.
pub open spec fn within_limit(input: RequestCarveInput, i: int, value: u64) -> bool {
    input.observed.containers@[i].limited(input.resource) matches Some(l) ==> value <= l
}

/// A value is at least what the container at `i` requests already.
pub open spec fn keeps_request(input: RequestCarveInput, i: int, value: u64) -> bool {
    input.observed.containers@[i].requested(input.resource) matches Some(v) ==> value >= v
}

/// The class that the pod would have if the container at `i` requested the value.
pub open spec fn class_with(input: RequestCarveInput, i: int, value: u64) -> QosClass {
    let cs = input.observed.containers@;
    qos_of(cs.update(i, cs[i].requesting(input.resource, value)))
}

/// A carve within every bound is made: in a pod of the class it should have, a
/// growth whose sealed value lies above where it began and not below the request
/// held, is at most the live limit, fits one node and leaves the class alone is
/// carved in place, to exactly that value, in exactly that container and resource.
pub proof fn a_carve_within_every_bound_is_made(
    input: RequestCarveInput,
    i: int,
    from: u64,
    to: u64,
)
    requires
        carves_at(input, i),
        qos_of(input.observed.containers@) == input.qos_target,
        input.decision == (Decision::Grow { from, to }),
        input.sealed.target > from,
        keeps_request(input, i, input.sealed.target),
        within_limit(input, i, input.sealed.target),
        input.sealed.target <= input.headroom.per_node,
        class_with(input, i, input.sealed.target) == input.qos_target,
    ensures
        planned(input) matches PlanView::InPlace(c) && c.target == *input.target && c.container
            == Some(input.container@) && c.resource == input.resource.name() && c.value
            == input.sealed.target && c.from == from && c.to == input.sealed.target && c.seal_bound
            == input.sealed.seal_bound && c.durability == input.durability && c.field_manager
            == input.field_manager@ && c.preserved.class == input.qos_target
            && c.preserved.container == input.container@ && c.preserved.resource == input.resource
            && c.preserved.from == input.observed.containers@[i].requested(input.resource)
            && c.preserved.to == input.sealed.target,
{
    lemma_first_named_is(input.observed.containers@, input.container@, i);
}

/// A growth is refused only for a bound that it breaks, and the refusal says which:
/// first the live limit, then what one node can take, then a value that would lower
/// the reservation, then a class that would move. A value that is the one before is
/// held.
pub proof fn a_growth_is_refused_for_the_bound_it_breaks(
    input: RequestCarveInput,
    i: int,
    from: u64,
    to: u64,
)
    requires
        carves_at(input, i),
        qos_of(input.observed.containers@) == input.qos_target,
        input.decision == (Decision::Grow { from, to }),
    ensures
        ({
            let value = input.sealed.target;
            let fits = within_limit(input, i, value) && value <= input.headroom.per_node;
            &&& !within_limit(input, i, value) ==> planned(input) == PlanView::Blocked(
                BlockedView::AboveLimit(
                    AboveLimit {
                        proposed: value,
                        live_limit: input.observed.containers@[i].limited(input.resource)->0,
                    },
                ),
            )
            &&& within_limit(input, i, value) && !fits ==> planned(input) == PlanView::Blocked(
                BlockedView::WouldNotSchedule(
                    WouldNotSchedule {
                        proposed: value,
                        per_node_headroom: input.headroom.per_node,
                        replicas: input.replicas,
                    },
                ),
            )
            &&& fits && value == from ==> planned(input) is Hold
            &&& fits && value != from && (value < from || !keeps_request(input, i, value)) ==> {
                &&& planned(input) matches PlanView::Blocked(b)
                &&& b matches BlockedView::ShrinkWithoutEvidence { low, high }
                &&& low == value
                &&& high >= from && keeps_request(input, i, high)
                &&& high == from || input.observed.containers@[i].requested(input.resource) == Some(
                    high,
                )
            }
            &&& fits && value > from && keeps_request(input, i, value) && class_with(
                input,
                i,
                value,
            ) != input.qos_target ==> planned(input) == PlanView::Blocked(
                BlockedView::ClassWouldChange {
                    from: input.qos_target,
                    to: class_with(input, i, value),
                    container: input.container@,
                    resource: input.resource,
                },
            )
        }),
{
    lemma_first_named_is(input.observed.containers@, input.container@, i);
}

/// The plan does not depend on how many replicas there are: a replica is placed by
/// itself. Only the refusal of a value that fits no node names their number. Nor
/// does it depend on the API server, on the container's resize policy, or on when
/// the headroom was observed.
pub proof fn a_plan_does_not_depend_on_replicas(
    input: RequestCarveInput,
    replicas: u32,
    server_minor: u32,
    memory_resize_policy: MemoryResizePolicy,
    observed_at_epoch: i64,
)
    ensures
        ({
            let other = RequestCarveInput {
                replicas,
                server_minor,
                memory_resize_policy,
                headroom: AllocatableHeadroom {
                    per_node: input.headroom.per_node,
                    observed_at_epoch,
                },
                ..input
            };
            match planned(input) {
                PlanView::Blocked(BlockedView::WouldNotSchedule(w)) => planned(other)
                    == PlanView::Blocked(
                    BlockedView::WouldNotSchedule(WouldNotSchedule { replicas, ..w }),
                ) && w.replicas == input.replicas && w.per_node_headroom == input.headroom.per_node
                    && w.proposed > w.per_node_headroom,
                p => planned(other) == p,
            }
        }),
{
}

/// More room on a node never turns a carve or a proposal into anything else.
pub proof fn more_headroom_never_takes_a_plan_away(input: RequestCarveInput, more: u64)
    requires
        more >= input.headroom.per_node,
        planned(input) is InPlace || planned(input) is Transition || planned(input) is Hold,
    ensures
        planned(
            RequestCarveInput {
                headroom: AllocatableHeadroom { per_node: more, ..input.headroom },
                ..input
            },
        ) == planned(input),
{
}

/// A container that the pod does not have is refused by its name, whatever else
/// holds.
pub proof fn a_missing_container_is_refused(input: RequestCarveInput)
    requires
        forall|j: int|
            0 <= j < input.observed.containers@.len() ==> (
            #[trigger] input.observed.containers@[j]).name@ != input.container@,
    ensures
        planned(input) == PlanView::Blocked(
            BlockedView::NoSuchContainer { container: input.container@ },
        ),
{
    lemma_first_named(input.observed.containers@, input.container@);
}

/// In a pod of the class it should have, a decision that does not grow is carried
/// into the plan: a withheld reclaim with its values, a shrink as a refusal with
/// its values, and everything else as nothing to do.
pub proof fn a_decision_that_does_not_grow_is_carried_over(input: RequestCarveInput, i: int)
    requires
        carves_at(input, i),
        qos_of(input.observed.containers@) == input.qos_target,
    ensures
        input.decision matches Decision::ReclaimWithheld { current, reclaimable } ==> planned(input)
            == (PlanView::Withheld { current, reclaimable: Some(reclaimable) }),
        input.decision matches Decision::NoSafeShrink { current } ==> planned(input) == (
        PlanView::Withheld { current, reclaimable: None }),
        input.decision matches Decision::Shrink { from, to } ==> planned(input)
            == PlanView::Blocked(BlockedView::ShrinkWithoutEvidence { low: to, high: from }),
        input.decision is Hold || input.decision is AtCeiling || input.decision is Warmup
            || input.decision is NoLimit ==> planned(input) is Hold,
{
    lemma_first_named_is(input.observed.containers@, input.container@, i);
}

/// Where the class asked for seals less than the observed one, that is refused.
/// Where it seals more, a band whose values do not last is refused.
pub proof fn a_weaker_class_is_never_proposed(input: RequestCarveInput, i: int)
    requires
        carves_at(input, i),
        qos_of(input.observed.containers@) != input.qos_target,
    ensures
        ({
            let observed = qos_of(input.observed.containers@);
            let weaker = observed is Guaranteed || input.qos_target is BestEffort;
            &&& weaker ==> planned(input) == PlanView::Blocked(
                BlockedView::WouldWeakenSeal { observed, target: input.qos_target },
            )
            &&& !weaker && input.durability is Ephemeral ==> planned(input) == PlanView::Blocked(
                BlockedView::Transition(TransitionBlockedView::EphemeralCannotTransition),
            )
        }),
{
    lemma_first_named_is(input.observed.containers@, input.container@, i);
}

proof fn lemma_first_unlimited_is(cs: Seq<ContainerResources>, k: int)
    requires
        0 <= k <= cs.len(),
        forall|j: int| 0 <= j < k ==> (#[trigger] cs[j]).fully_limited(),
        k < cs.len() ==> !cs[k].fully_limited(),
    ensures
        first_unlimited(cs) == if k == cs.len() {
            None
        } else if cs[k].limited(RequestResource::Memory) is None {
            Some((k, RequestResource::Memory))
        } else {
            Some((k, RequestResource::Cpu))
        },
    decreases cs.len(),
{
    if cs.len() > 0 {
        let init = cs.drop_last();
        assert forall|j: int| 0 <= j < init.len() implies init[j] == #[trigger] cs[j] by {}
        lemma_first_unlimited_is(
            init,
            if k < cs.len() {
                k
            } else {
                k - 1
            },
        );
        if k == cs.len() {
            assert(cs[k - 1].fully_limited());
        }
    }
}

/// What the promotion to `Guaranteed` proposes: every request becomes the limit of
/// the same container and resource, and nothing else changes. It is proposed
/// wherever every container is limited and the carved container's limit fits one
/// node; a container without a limit, or a limit that fits none, is the refusal.
pub proof fn a_promotion_raises_every_request_to_its_limit(input: RequestCarveInput, i: int)
    requires
        carves_at(input, i),
        input.qos_target is Guaranteed,
        !(qos_of(input.observed.containers@) is Guaranteed),
        input.durability is Committed,
        forall|j: int|
            0 <= j < input.observed.containers@.len() ==> above_zero(
                (#[trigger] input.observed.containers@[j]).cpu_limit,
            ) && above_zero(input.observed.containers@[j].memory_limit),
    ensures
        ({
            let cs = input.observed.containers@;
            let asked = match input.resource {
                RequestResource::Cpu => cs[i].cpu_limit->0,
                RequestResource::Memory => cs[i].memory_limit->0,
            };
            if asked > input.headroom.per_node {
                planned(input) == PlanView::Blocked(
                    BlockedView::WouldNotSchedule(
                        WouldNotSchedule {
                            proposed: asked,
                            per_node_headroom: input.headroom.per_node,
                            replicas: input.replicas,
                        },
                    ),
                )
            } else {
                &&& planned(input) matches PlanView::Transition {
                    target,
                    before,
                    after,
                    block,
                    addr,
                }
                &&& target == *input.target
                &&& before == qos_of(cs)
                &&& after is Guaranteed
                &&& addr == block_addr(block)
                &&& block.len() == cs.len()
                &&& forall|j: int|
                    0 <= j < cs.len() ==> {
                        let c = #[trigger] block[j];
                        &&& c.name == cs[j].name
                        &&& c.cpu_limit == cs[j].cpu_limit
                        &&& c.memory_limit == cs[j].memory_limit
                        &&& c.cpu_request == cs[j].cpu_limit
                        &&& c.memory_request == cs[j].memory_limit
                    }
            }
        }),
{
    let cs = input.observed.containers@;
    lemma_first_named_is(cs, input.container@, i);
    assert forall|j: int| 0 <= j < cs.len() implies (#[trigger] cs[j]).fully_limited() by {
        assert(above_zero(cs[j].cpu_limit));
    }
    lemma_first_unlimited_is(cs, cs.len() as int);
    requests_equal_to_limits_are_guaranteed(cs);
    let block = cs.map_values(|c: ContainerResources| sealed_container(c));
    assert forall|j: int| 0 <= j < i implies (#[trigger] block[j]).name@ != input.container@ by {
        assert(cs[j].name@ != input.container@);
    }
    lemma_first_named_is(block, input.container@, i);
    assert(cs[i].fully_limited());
}

/// The promotion to `Guaranteed` is refused by the first container that is not
/// limited in both resources, and by the first of memory and cpu that it is not
/// limited in.
pub proof fn a_promotion_needs_every_limit(input: RequestCarveInput, i: int, k: int)
    requires
        carves_at(input, i),
        input.qos_target is Guaranteed,
        !(qos_of(input.observed.containers@) is Guaranteed),
        input.durability is Committed,
        0 <= k < input.observed.containers@.len(),
        forall|j: int|
            0 <= j < k ==> above_zero((#[trigger] input.observed.containers@[j]).cpu_limit)
                && above_zero(input.observed.containers@[j].memory_limit),
        !above_zero(input.observed.containers@[k].memory_limit) || !above_zero(
            input.observed.containers@[k].cpu_limit,
        ),
    ensures
        planned(input) == PlanView::Blocked(
            BlockedView::Transition(
                TransitionBlockedView::UnreachableFromObserved {
                    detail: no_limit_words(
                        input.observed.containers@[k].name@,
                        if above_zero(input.observed.containers@[k].memory_limit) {
                            RequestResource::Cpu
                        } else {
                            RequestResource::Memory
                        },
                    ),
                },
            ),
        ),
{
    let cs = input.observed.containers@;
    lemma_first_named_is(cs, input.container@, i);
    assert forall|j: int| 0 <= j < k implies (#[trigger] cs[j]).fully_limited() by {
        assert(above_zero(cs[j].cpu_limit));
    }
    lemma_first_unlimited_is(cs, k);
}

/// What a pod without any declaration becomes when it should be `Burstable`: the
/// carved container requests what the decision grows to, and nothing else changes.
/// A decision that does not grow, or grows to nothing, leaves the class as it is;
/// a value that fits no node is refused.
pub proof fn a_first_request_is_what_the_decision_grows_to(input: RequestCarveInput, i: int)
    requires
        carves_at(input, i),
        input.qos_target is Burstable,
        qos_of(input.observed.containers@) is BestEffort,
        input.durability is Committed,
    ensures
        ({
            let cs = input.observed.containers@;
            let seat = match input.decision {
                Decision::Grow { to, .. } => to,
                _ => 0,
            };
            if seat > input.headroom.per_node {
                planned(input) == PlanView::Blocked(
                    BlockedView::WouldNotSchedule(
                        WouldNotSchedule {
                            proposed: seat,
                            per_node_headroom: input.headroom.per_node,
                            replicas: input.replicas,
                        },
                    ),
                )
            } else if seat == 0 {
                planned(input) == PlanView::Blocked(
                    BlockedView::Transition(
                        TransitionBlockedView::UnreachableFromObserved {
                            detail: still_words(QosClass::BestEffort),
                        },
                    ),
                )
            } else {
                &&& planned(input) matches PlanView::Transition {
                    target,
                    before,
                    after,
                    block,
                    addr,
                }
                &&& target == *input.target
                &&& before is BestEffort
                &&& after is Burstable
                &&& addr == block_addr(block)
                &&& block.len() == cs.len()
                &&& block[i].requested(input.resource) == Some(seat)
                &&& block[i].name == cs[i].name
                &&& block[i].cpu_limit == cs[i].cpu_limit
                &&& block[i].memory_limit == cs[i].memory_limit
                &&& input.resource is Cpu ==> block[i].memory_request == cs[i].memory_request
                &&& input.resource is Memory ==> block[i].cpu_request == cs[i].cpu_request
                &&& forall|j: int| 0 <= j < cs.len() && j != i ==> #[trigger] block[j] == cs[j]
            }
        }),
{
    let cs = input.observed.containers@;
    let seat = match input.decision {
        Decision::Grow { to, .. } => to,
        _ => 0,
    };
    lemma_first_named_is(cs, input.container@, i);
    best_effort_means_nothing_above_zero(cs);
    assert(cs[i].requested(input.resource) is None);
    let block = cs.update(i, cs[i].requesting(input.resource, seat));
    assert forall|j: int| 0 <= j < i implies (#[trigger] block[j]).name@ != input.container@ by {
        assert(cs[j].name@ != input.container@);
    }
    assert(block[i].name@ == input.container@);
    lemma_first_named_is(block, input.container@, i);
    best_effort_means_nothing_above_zero(block);
    guaranteed_means_requests_come_to_limits(block);
    assert(!above_zero(block[i].cpu_limit));
    if seat == 0 {
        assert forall|j: int| 0 <= j < block.len() implies {
            let c = #[trigger] block[j];
            &&& c.cpu_request is None || c.cpu_request == Some(0u64)
            &&& c.cpu_limit is None || c.cpu_limit == Some(0u64)
            &&& c.memory_request is None || c.memory_request == Some(0u64)
            &&& c.memory_limit is None || c.memory_limit == Some(0u64)
        } by {
            let c = cs[j];
            assert(c.cpu_request is None || c.cpu_request == Some(0u64));
        }
    } else {
        assert(block[i].requested(input.resource) == Some(seat));
        assert(!(qos_of(block) is BestEffort)) by {
            let c = block[i];
        }
    }
}

// ─────────────────────── laws on what a server resizes ───────────────────────

/// A server refuses a resize only where it lowers a memory limit, is older than 1.34,
/// and the container's policy does not restart it; there it always refuses. So a
/// newer server allows whatever an older one does, and a growth, a request and cpu
/// are allowed everywhere.
pub proof fn only_an_old_server_refuses_to_lower_memory(
    minor: u32,
    newer: u32,
    policy: MemoryResizePolicy,
    resource: RequestResource,
    direction: CarveDirection,
    is_limit: bool,
)
    ensures
        ResizeLegality::verdict(minor, policy, resource, direction, is_limit) is Allowed <==> minor
            >= 34 || resource is Cpu || direction is Grow || !is_limit
            || policy is RestartContainer,
        minor <= newer && ResizeLegality::verdict(
            minor,
            policy,
            resource,
            direction,
            is_limit,
        ) is Allowed ==> ResizeLegality::verdict(
            newer,
            policy,
            resource,
            direction,
            is_limit,
        ) is Allowed,
        !(ResizeLegality::verdict(minor, policy, resource, direction, is_limit) is Allowed)
            ==> ResizeLegality::verdict(minor, policy, resource, direction, is_limit)
            == ResizeLegality::MemoryDecreaseNeedsRestartPolicy,
{
}

/// Each resource and each class is known by its own word.
pub proof fn a_resource_and_a_class_are_known_by_their_words(r: RequestResource, q: QosClass)
    ensures
        r.name() == "cpu"@ <==> r is Cpu,
        r.name() == "memory"@ <==> r is Memory,
        q.name() == "Guaranteed"@ <==> q is Guaranteed,
        q.name() == "Burstable"@ <==> q is Burstable,
        q.name() == "BestEffort"@ <==> q is BestEffort,
{
    reveal_strlit("cpu");
    reveal_strlit("memory");
    reveal_strlit("Guaranteed");
    reveal_strlit("Burstable");
    reveal_strlit("BestEffort");
    assert("cpu"@.len() == 3 && "memory"@.len() == 6);
    assert("Guaranteed"@[0] == 'G' && "Burstable"@[1] == 'u' && "BestEffort"@[0] == 'B'
        && "BestEffort"@[1] == 'e');
}

} // verus!
