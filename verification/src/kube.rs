//! What a band reads of a Kubernetes cluster's objects, and what it writes to
//! them.
//!
//! Objects come as JSON. Quantities come as texts; where a number is needed the
//! texts are handed out in order, and the numbers read from them handed back.

use vstd::prelude::*;

use crate::dimension::{FieldOwner, Sample, StorageCapability, Target};
use crate::json::{
    find_wanted, items_view, join_texts, json_array1, json_number, json_object1, json_object2,
    json_object4, json_text, json_view, lemma_items_view, lemma_members_view, member_is,
    members_view, object1, object2, wanted, Json, JsonView,
};
use crate::layout::{source_text, LimitLayout, MetricSource, SsaPatch};
use crate::managed_fields::{
    cnpg_cluster_limit_segments, cnpg_storage_segments, field_owners, pod_template_limit_segments,
    pvc_request_segments,
};
use crate::manifest::{render_scalar, scalar_words};
use crate::provider::{blank_receipt, AppliedReceipt, ProviderError, ProviderErrorView};
use crate::request::ClassPreserved;
use crate::text::{
    chars_of, contains_text, find_char, same_text, split_pieces, strip_prefix, text_between,
    CharClass,
};

verus! {

/// A live object: its name, and its fields beside the metadata's name.
#[derive(Debug, PartialEq, Eq)]
pub struct LiveObject {
    /// The name, where it has one.
    pub name: Option<String>,
    /// The object.
    pub data: Json,
}

// ─────────────────────── addresses ───────────────────────

/// The group and version of a target's kind: what the target says, or else what
/// its kind implies.
pub open spec fn group_version_of(api_version: Seq<char>, kind: Seq<char>) -> (
    Seq<char>,
    Seq<char>,
) {
    if api_version.len() > 0 {
        let n = crate::text::index_or_end(api_version, '/') as int;
        if n < api_version.len() {
            (api_version.take(n), api_version.skip(n + 1))
        } else {
            (Seq::empty(), api_version)
        }
    } else if kind == "Cluster"@ {
        ("postgresql.cnpg.io"@, "v1"@)
    } else if kind == "PersistentVolumeClaim"@ {
        (Seq::empty(), "v1"@)
    } else {
        ("apps"@, "v1"@)
    }
}

/// The group and version of a target's kind.
pub fn group_version(target: &Target) -> (r: (String, String))
    ensures
        (r.0@, r.1@) == group_version_of(target.api_version@, target.kind@),
{
    let v = chars_of(target.api_version.as_str());
    let none = String::new();
    assert(none@ =~= Seq::<char>::empty());
    if v.len() > 0 {
        let n: usize = find_char(&v, 0, '/');
        assert(v@.skip(0) =~= target.api_version@);
        if n < v.len() {
            assert(v@.subrange(0, n as int) =~= target.api_version@.take(n as int));
            assert(v@.subrange(n + 1, v.len() as int) =~= target.api_version@.skip(n + 1));
            (text_between(&v, 0, n), text_between(&v, n + 1, v.len()))
        } else {
            (none, target.api_version.clone())
        }
    } else if same_text(target.kind.as_str(), "Cluster") {
        ("postgresql.cnpg.io".to_owned(), "v1".to_owned())
    } else if same_text(target.kind.as_str(), "PersistentVolumeClaim") {
        (none, "v1".to_owned())
    } else {
        ("apps".to_owned(), "v1".to_owned())
    }
}

/// A group and version joined; the core group has no name.
pub open spec fn api_version_of(gv: (Seq<char>, Seq<char>)) -> Seq<char> {
    if gv.0.len() == 0 {
        gv.1
    } else {
        gv.0 + "/"@ + gv.1
    }
}

/// The API version of a target's kind.
pub fn api_version(target: &Target) -> (r: String)
    ensures
        r@ == api_version_of(group_version_of(target.api_version@, target.kind@)),
{
    let (g, v) = group_version(target);
    if chars_of(g.as_str()).len() == 0 {
        v
    } else {
        let mut s = g;
        s.append("/");
        s.append(v.as_str());
        s
    }
}

/// Why an object could not be read: it is not there, or the failure may mend.
pub fn read_error(code: Option<u16>, message: String) -> (r: ProviderError)
    ensures
        r == if code == Some(404u16) {
            ProviderError::TargetNotFound
        } else {
            ProviderError::ApiTransient(message)
        },
{
    match code {
        Some(404) => ProviderError::TargetNotFound,
        _ => ProviderError::ApiTransient(message),
    }
}

/// Why an object could not be written: another manager owns the field and the
/// write yields, or the failure is permanent.
pub fn write_error(code: Option<u16>, message: String) -> (r: ProviderError)
    ensures
        r@ == if code == Some(409u16) {
            ProviderErrorView::ApiTransient(
                "SSA field conflict (a competitor owns the field) — yielding, will re-observe: "@
                    + message@,
            )
        } else {
            ProviderErrorView::ApiPermanent(message@)
        },
{
    match code {
        Some(409) => {
            let mut s =
                "SSA field conflict (a competitor owns the field) — yielding, will re-observe: ".to_owned();
            s.append(message.as_str());
            ProviderError::ApiTransient(s)
        },
        _ => ProviderError::ApiPermanent(message),
    }
}

// ─────────────────────── reading objects ───────────────────────

/// A JSON value as a text: a string as it is, anything else in compact form.
pub open spec fn scalar_text(j: JsonView) -> Seq<char> {
    match j {
        JsonView::Text(s) => s,
        _ => crate::json::compact(j),
    }
}

/// A JSON value as a text.
pub fn json_scalar_to_string(v: &Json) -> (r: String)
    ensures
        r@ == scalar_text(v@),
{
    match v.as_str() {
        Some(s) => s.to_owned(),
        None => v.render(),
    }
}

fn owned(o: Option<&str>) -> (r: Option<String>)
    ensures
        wanted(r) == crate::json::seen_text(o),
{
    match o {
        Some(s) => Some(s.to_owned()),
        None => None,
    }
}

/// The managed container of a pod template: the one named, or the first.
pub open spec fn container_name_of(data: JsonView, want: Option<Seq<char>>) -> Option<Seq<char>> {
    match want {
        Some(c) => Some(c),
        None => crate::json::pointed_text(data, "/spec/template/spec/containers/0/name"@),
    }
}

/// The managed container of a pod template.
pub fn container_name(data: &Json, want: &Option<String>) -> (r: Option<String>)
    ensures
        wanted(r) == container_name_of(data@, wanted(*want)),
{
    match want {
        Some(c) => Some(c.clone()),
        None => owned(data.pointer_str("/spec/template/spec/containers/0/name")),
    }
}

/// The quantity of a container among those that a pointer points to.
pub open spec fn container_quantity(
    data: JsonView,
    containers: Seq<char>,
    want: Option<Seq<char>>,
    path: Seq<char>,
) -> Option<Seq<char>> {
    match crate::json::pointed(data, containers) {
        None => None,
        Some(j) => match j.items() {
            None => None,
            Some(items) => match crate::json::wanted_item(items, want) {
                None => None,
                Some(c) => crate::json::pointed_text(c, path),
            },
        },
    }
}

fn find_container_quantity(
    data: &Json,
    containers: &str,
    want: &Option<String>,
    path: &str,
) -> (r: Option<String>)
    ensures
        wanted(r) == container_quantity(data@, containers@, wanted(*want), path@),
{
    match data.pointer(containers) {
        None => None,
        Some(j) => match j.as_array() {
            None => None,
            Some(items) => match find_wanted(items, want) {
                None => None,
                Some(c) => owned(c.pointer_str(path)),
            },
        },
    }
}

/// The value that a pointer points to, as a text.
pub open spec fn scalar_at(data: JsonView, path: Seq<char>) -> Option<Seq<char>> {
    match crate::json::pointed(data, path) {
        Some(j) => Some(scalar_text(j)),
        None => None,
    }
}

fn find_scalar_at(data: &Json, path: &str) -> (r: Option<String>)
    ensures
        wanted(r) == scalar_at(data@, path@),
{
    match data.pointer(path) {
        Some(j) => Some(json_scalar_to_string(j)),
        None => None,
    }
}

/// The quantity that a layout holds in the owner object. What lives on the pods,
/// on the host or behind another protocol is not there.
pub open spec fn quantity_of(data: JsonView, layout: LimitLayout, resource: Seq<char>) -> Option<
    Seq<char>,
> {
    match layout {
        LimitLayout::ClusterTopLevel => crate::json::pointed_text(
            data,
            "/spec/resources/limits/"@ + resource,
        ),
        LimitLayout::PvcRequest => crate::json::pointed_text(
            data,
            "/spec/resources/requests/storage"@,
        ),
        LimitLayout::ClusterStorage => crate::json::pointed_text(data, "/spec/storage/size"@),
        LimitLayout::PodTemplate { container } => container_quantity(
            data,
            "/spec/template/spec/containers"@,
            wanted(container),
            "/resources/limits/"@ + resource,
        ),
        LimitLayout::CrField { field_path, .. }
        | LimitLayout::DestinationRuleField { field_path, .. }
        | LimitLayout::NamespaceEnvelope { field_path, .. }
        | LimitLayout::ControllerSetpoint { field_path, .. } => scalar_at(data, field_path@),
        LimitLayout::Replica { .. } => scalar_at(data, "/spec/replicas"@),
        _ => None,
    }
}

/// The quantity that a layout holds in the owner object.
pub fn read_qty(data: &Json, layout: &LimitLayout, resource: &str) -> (r: Option<String>)
    ensures
        wanted(r) == quantity_of(data@, *layout, resource@),
{
    match layout {
        LimitLayout::ClusterTopLevel => {
            let mut path = "/spec/resources/limits/".to_owned();
            path.append(resource);
            owned(data.pointer_str(path.as_str()))
        },
        LimitLayout::PvcRequest => owned(data.pointer_str("/spec/resources/requests/storage")),
        LimitLayout::ClusterStorage => owned(data.pointer_str("/spec/storage/size")),
        LimitLayout::PodTemplate { container } => {
            let mut path = "/resources/limits/".to_owned();
            path.append(resource);
            find_container_quantity(
                data,
                "/spec/template/spec/containers",
                container,
                path.as_str(),
            )
        },
        LimitLayout::CrField { field_path, .. } => find_scalar_at(data, field_path.as_str()),
        LimitLayout::DestinationRuleField { field_path, .. } => find_scalar_at(
            data,
            field_path.as_str(),
        ),
        LimitLayout::NamespaceEnvelope { field_path, .. } => find_scalar_at(
            data,
            field_path.as_str(),
        ),
        LimitLayout::ControllerSetpoint { field_path, .. } => find_scalar_at(
            data,
            field_path.as_str(),
        ),
        LimitLayout::Replica { .. } => find_scalar_at(data, "/spec/replicas"),
        LimitLayout::PodResize { .. }
        | LimitLayout::PodRequestResize { .. }
        | LimitLayout::Host(_)
        | LimitLayout::ConfigFile { .. }
        | LimitLayout::ApiCall { .. }
        | LimitLayout::PodNetworkBandwidth { .. } => None,
    }
}

/// The limit that a quantity read from the owner comes to: without a quantity
/// nothing, and a quantity that is no number is an error.
pub fn owner_limit(qty: &Option<String>, parsed: Option<u64>) -> (r: Result<u64, ProviderError>)
    ensures
        r == match *qty {
            None => Ok::<u64, ProviderError>(0),
            Some(_) => match parsed {
                Some(v) => Ok(v),
                None => Err(ProviderError::NoCapacityField),
            },
        },
{
    match qty {
        None => Ok(0),
        Some(_) => match parsed {
            Some(v) => Ok(v),
            None => Err(ProviderError::NoCapacityField),
        },
    }
}

/// A container's quantity on a pod: `kind` is its limits or its requests.
pub open spec fn pod_quantity(
    pod: JsonView,
    container: Option<Seq<char>>,
    kind: Seq<char>,
    resource: Seq<char>,
) -> Option<Seq<char>> {
    container_quantity(
        pod,
        "/spec/containers"@,
        container,
        "/resources/"@ + kind + "/"@ + resource,
    )
}

/// A container's quantity on a pod.
pub fn pod_container_qty(pod: &Json, container: &Option<String>, kind: &str, resource: &str) -> (r:
    Option<String>)
    ensures
        wanted(r) == pod_quantity(pod@, wanted(*container), kind@, resource@),
{
    let mut path = "/resources/".to_owned();
    path.append(kind);
    path.append("/");
    path.append(resource);
    find_container_quantity(pod, "/spec/containers", container, path.as_str())
}

/// The first container of a pod.
pub fn pod_first_container(pod: &Json) -> (r: Option<String>)
    ensures
        wanted(r) == crate::json::pointed_text(pod@, "/spec/containers/0/name"@),
{
    owned(pod.pointer_str("/spec/containers/0/name"))
}

/// The quantities that a container has on the pods, in order; a pod without one
/// gives none.
pub open spec fn pod_quantities_of(
    pods: Seq<LiveObject>,
    container: Option<Seq<char>>,
    kind: Seq<char>,
    resource: Seq<char>,
) -> Seq<Seq<char>>
    decreases pods.len(),
{
    if pods.len() == 0 {
        Seq::empty()
    } else {
        let rest = pod_quantities_of(pods.drop_last(), container, kind, resource);
        match pod_quantity(pods.last().data@, container, kind, resource) {
            Some(q) => rest.push(q),
            None => rest,
        }
    }
}

/// The quantities that a container has on the pods.
pub fn pod_quantities(
    pods: &Vec<LiveObject>,
    container: &Option<String>,
    kind: &str,
    resource: &str,
) -> (r: Vec<String>)
    ensures
        crate::text::texts(r@) == pod_quantities_of(pods@, wanted(*container), kind@, resource@),
{
    broadcast use crate::text::lemma_texts_push;

    let mut r: Vec<String> = Vec::new();
    let mut i: usize = 0;
    assert(pods@.take(0) =~= Seq::<LiveObject>::empty());
    assert(crate::text::texts(r@) =~= Seq::<Seq<char>>::empty());
    while i < pods.len()
        invariant
            i <= pods.len(),
            crate::text::texts(r@) == pod_quantities_of(
                pods@.take(i as int),
                wanted(*container),
                kind@,
                resource@,
            ),
        decreases pods.len() - i,
    {
        broadcast use crate::text::lemma_texts_push;

        assert(pods@.take(i + 1).drop_last() =~= pods@.take(i as int));
        assert(pods@.take(i + 1).last() == pods@[i as int]);
        match pod_container_qty(&pods[i].data, container, kind, resource) {
            Some(q) => {
                r.push(q);
            },
            None => {},
        }
        i = i + 1;
    }
    assert(pods@.take(pods@.len() as int) =~= pods@);
    r
}

/// The highest of the numbers that could be read; nothing where none could.
pub open spec fn highest_of(parsed: Seq<Option<u64>>) -> u64
    decreases parsed.len(),
{
    if parsed.len() == 0 {
        0
    } else {
        let rest = highest_of(parsed.drop_last());
        match parsed.last() {
            Some(v) => if v > rest {
                v
            } else {
                rest
            },
            None => rest,
        }
    }
}

/// The highest of the numbers that could be read.
pub fn highest(parsed: &Vec<Option<u64>>) -> (r: u64)
    ensures
        r == highest_of(parsed@),
{
    let mut max: u64 = 0;
    let mut i: usize = 0;
    assert(parsed@.take(0) =~= Seq::<Option<u64>>::empty());
    while i < parsed.len()
        invariant
            i <= parsed.len(),
            max == highest_of(parsed@.take(i as int)),
        decreases parsed.len() - i,
    {
        assert(parsed@.take(i + 1).drop_last() =~= parsed@.take(i as int));
        assert(parsed@.take(i + 1).last() == parsed@[i as int]);
        match parsed[i] {
            Some(v) => {
                if v > max {
                    max = v;
                }
            },
            None => {},
        }
        i = i + 1;
    }
    assert(parsed@.take(parsed@.len() as int) =~= parsed@);
    max
}

/// The highest number bounds each that could be read, and is one of them where
/// there is one.
pub proof fn the_highest_bounds_every_reading(parsed: Seq<Option<u64>>)
    ensures
        forall|i: int|
            0 <= i < parsed.len() && #[trigger] parsed[i] is Some ==> parsed[i]->0 <= highest_of(
                parsed,
            ),
        highest_of(parsed) == 0 || exists|i: int|
            0 <= i < parsed.len() && #[trigger] parsed[i] == Some(highest_of(parsed)),
    decreases parsed.len(),
{
    if parsed.len() > 0 {
        let rest = parsed.drop_last();
        the_highest_bounds_every_reading(rest);
        assert forall|i: int|
            0 <= i < parsed.len() && #[trigger] parsed[i] is Some implies parsed[i]->0
            <= highest_of(parsed) by {
            if i < rest.len() {
                assert(rest[i] == parsed[i]);
            }
        }
        if highest_of(parsed) != 0 {
            if highest_of(parsed) == highest_of(rest) {
                let i = choose|i: int|
                    0 <= i < rest.len() && #[trigger] rest[i] == Some(highest_of(rest));
                assert(parsed[i] == Some(highest_of(parsed)));
            } else {
                assert(parsed[parsed.len() - 1] == Some(highest_of(parsed)));
            }
        }
    }
}

// ─────────────────────── pods of a band ───────────────────────

/// The labels that are texts, as `key=value`, in order.
pub open spec fn label_pairs(m: Seq<(Seq<char>, JsonView)>) -> Seq<Seq<char>>
    decreases m.len(),
{
    if m.len() == 0 {
        Seq::empty()
    } else {
        let rest = label_pairs(m.drop_last());
        match m.last().1 {
            JsonView::Text(v) => rest.push(m.last().0 + "="@ + v),
            _ => rest,
        }
    }
}

/// The selector of an owner's pods, from the labels that it matches.
pub open spec fn owner_selector_of(owner: JsonView) -> Option<Seq<char>> {
    match crate::json::pointed(owner, "/spec/selector/matchLabels"@) {
        Some(JsonView::Object(m)) => {
            let sel = crate::json::joined(label_pairs(m), ","@);
            if sel.len() > 0 {
                Some(sel)
            } else {
                None
            }
        },
        _ => None,
    }
}

/// The selector of an owner's pods.
pub fn owner_pod_selector(owner: &Json) -> (r: Option<String>)
    ensures
        wanted(r) == owner_selector_of(owner@),
{
    let labels = match owner.pointer("/spec/selector/matchLabels") {
        Some(j) => match j.as_object() {
            Some(m) => m,
            None => {
                return None;
            },
        },
        None => {
            return None;
        },
    };
    let ghost all = members_view(labels@);
    let mut pairs: Vec<String> = Vec::new();
    let mut i: usize = 0;
    proof {
        lemma_members_view(labels@);
        assert(all.take(0) =~= Seq::<(Seq<char>, JsonView)>::empty());
        assert(crate::text::texts(pairs@) =~= Seq::<Seq<char>>::empty());
    }
    while i < labels.len()
        invariant
            i <= labels.len(),
            all == members_view(labels@),
            all.len() == labels.len(),
            forall|k: int|
                0 <= k < labels.len() ==> #[trigger] all[k] == (
                    labels@[k].0@,
                    json_view(labels@[k].1),
                ),
            crate::text::texts(pairs@) == label_pairs(all.take(i as int)),
        decreases labels.len() - i,
    {
        broadcast use crate::text::lemma_texts_push;

        assert(all.take(i + 1).drop_last() =~= all.take(i as int));
        assert(all.take(i + 1).last() == all[i as int]);
        match labels[i].1.as_str() {
            Some(v) => {
                let mut pair = labels[i].0.clone();
                pair.append("=");
                pair.append(v);
                pairs.push(pair);
            },
            None => {},
        }
        i = i + 1;
    }
    assert(all.take(all.len() as int) =~= all);
    let sel = join_texts(&pairs, ",");
    if chars_of(sel.as_str()).len() > 0 {
        Some(sel)
    } else {
        None
    }
}

/// Which pods a band has: by its own selector, or by its owner's.
#[derive(Debug, PartialEq, Eq)]
pub enum PodQuery {
    /// The pods that the selector matches.
    Labels(String),
    /// The owner is to be read first.
    Owner,
}

/// Which pods a band has.
pub fn pod_query(target: &Target) -> (r: PodQuery)
    ensures
        r == match target.pod_selector {
            Some(s) => PodQuery::Labels(s),
            None => PodQuery::Owner,
        },
{
    match &target.pod_selector {
        Some(s) => PodQuery::Labels(s.clone()),
        None => PodQuery::Owner,
    }
}

/// The selector of the pods of an owner that was read: it must have one.
pub fn selector_of_owner(owner: &Json) -> (r: Result<String, ProviderError>)
    ensures
        match r {
            Ok(s) => owner_selector_of(owner@) == Some(s@),
            Err(e) => owner_selector_of(owner@) is None && e is NoCapacityField,
        },
{
    match owner_pod_selector(owner) {
        Some(s) => Ok(s),
        None => Err(ProviderError::NoCapacityField),
    }
}

/// Some policy lets the resource be resized without a restart.
pub open spec fn policy_not_required(policies: Seq<JsonView>, resource: Seq<char>) -> bool {
    exists|i: int|
        0 <= i < policies.len() && crate::json::member_text(
            #[trigger] policies[i],
            "resourceName"@,
        ) == Some(resource) && crate::json::member_text(policies[i], "restartPolicy"@) == Some(
            "NotRequired"@,
        )
}

/// The container of a pod declares that resizing the resource needs no restart.
pub open spec fn not_required(pod: JsonView, container: Option<Seq<char>>, resource: Seq<char>) -> bool {
    match crate::json::pointed(pod, "/spec/containers"@) {
        None => false,
        Some(j) => match j.items() {
            None => false,
            Some(items) => match crate::json::wanted_item(items, container) {
                None => false,
                Some(c) => match crate::json::pointed(c, "/resizePolicy"@) {
                    None => false,
                    Some(p) => match p.items() {
                        None => false,
                        Some(policies) => policy_not_required(policies, resource),
                    },
                },
            },
        },
    }
}

/// Whether a pod's container declares that resizing the resource needs no restart.
pub fn container_resize_not_required(pod: &Json, container: &Option<String>, resource: &str) -> (r:
    bool)
    ensures
        r == not_required(pod@, wanted(*container), resource@),
{
    let policies = match pod.pointer("/spec/containers") {
        None => {
            return false;
        },
        Some(j) => match j.as_array() {
            None => {
                return false;
            },
            Some(items) => match find_wanted(items, container) {
                None => {
                    return false;
                },
                Some(c) => match c.pointer("/resizePolicy") {
                    None => {
                        return false;
                    },
                    Some(p) => match p.as_array() {
                        None => {
                            return false;
                        },
                        Some(v) => v,
                    },
                },
            },
        },
    };
    let ghost all = items_view(policies@);
    proof {
        lemma_items_view(policies@);
    }
    let mut i: usize = 0;
    while i < policies.len()
        invariant
            i <= policies.len(),
            all == items_view(policies@),
            all.len() == policies.len(),
            forall|k: int| 0 <= k < policies.len() ==> #[trigger] all[k] == json_view(policies@[k]),
            not_required(pod@, wanted(*container), resource@) == policy_not_required(all, resource@),
            forall|k: int|
                0 <= k < i ==> !(crate::json::member_text(#[trigger] all[k], "resourceName"@)
                    == Some(resource@) && crate::json::member_text(all[k], "restartPolicy"@) == Some(
                    "NotRequired"@,
                )),
        decreases policies.len() - i,
    {
        assert(all[i as int] == policies@[i as int]@);
        if member_is(&policies[i], "resourceName", resource) && member_is(
            &policies[i],
            "restartPolicy",
            "NotRequired",
        ) {
            return true;
        }
        i = i + 1;
    }
    false
}

/// Whether shrinking a resource in place restarts nothing: there are pods, and
/// each of them declares so.
pub fn shrink_restarts_nothing(
    pods: &Vec<LiveObject>,
    container: &Option<String>,
    resource: &str,
) -> (r: bool)
    ensures
        r == (pods@.len() > 0 && forall|i: int|
            0 <= i < pods@.len() ==> not_required(
                (#[trigger] pods@[i]).data@,
                wanted(*container),
                resource@,
            )),
{
    if pods.len() == 0 {
        return false;
    }
    let mut i: usize = 0;
    while i < pods.len()
        invariant
            i <= pods.len(),
            forall|k: int|
                0 <= k < i ==> not_required(
                    (#[trigger] pods@[k]).data@,
                    wanted(*container),
                    resource@,
                ),
        decreases pods.len() - i,
    {
        if !container_resize_not_required(&pods[i].data, container, resource) {
            return false;
        }
        i = i + 1;
    }
    true
}

/// A container crash-loops, or waits after a restart.
pub open spec fn status_restarts(status: JsonView) -> bool {
    ||| crate::json::pointed_text(status, "/state/waiting/reason"@) == Some("CrashLoopBackOff"@)
    ||| {
        &&& crate::json::pointed(status, "/restartCount"@) matches Some(n)
        &&& n.natural() matches Some(c)
        &&& c > 0
        &&& crate::json::pointed(status, "/state/waiting"@) is Some
    }
}

/// Some container crash-loops, or waits after a restart.
pub open spec fn some_restarts(statuses: Seq<JsonView>) -> bool {
    exists|i: int| 0 <= i < statuses.len() && status_restarts(#[trigger] statuses[i])
}

/// Some container of the pod crash-loops, or waits after a restart.
pub open spec fn pod_restarts(pod: JsonView) -> bool {
    match crate::json::pointed(pod, "/status/containerStatuses"@) {
        None => false,
        Some(j) => match j.items() {
            None => false,
            Some(statuses) => some_restarts(statuses),
        },
    }
}

fn restarting_status(status: &Json) -> (r: bool)
    ensures
        r == status_restarts(status@),
{
    match status.pointer_str("/state/waiting/reason") {
        Some(s) => {
            if same_text(s, "CrashLoopBackOff") {
                return true;
            }
        },
        None => {},
    }
    let count: u64 = match status.pointer("/restartCount") {
        Some(n) => match n.as_u64() {
            Some(c) => c,
            None => 0,
        },
        None => 0,
    };
    count > 0 && status.pointer("/state/waiting").is_some()
}

fn restarting_pod(pod: &Json) -> (r: bool)
    ensures
        r == pod_restarts(pod@),
{
    let statuses = match pod.pointer("/status/containerStatuses") {
        None => {
            return false;
        },
        Some(j) => match j.as_array() {
            None => {
                return false;
            },
            Some(v) => v,
        },
    };
    let ghost all = items_view(statuses@);
    proof {
        lemma_items_view(statuses@);
    }
    let mut i: usize = 0;
    while i < statuses.len()
        invariant
            i <= statuses.len(),
            all == items_view(statuses@),
            all.len() == statuses.len(),
            forall|k: int| 0 <= k < statuses.len() ==> #[trigger] all[k] == json_view(statuses@[k]),
            pod_restarts(pod@) == some_restarts(all),
            forall|k: int| 0 <= k < i ==> !status_restarts(#[trigger] all[k]),
        decreases statuses.len() - i,
    {
        assert(all[i as int] == statuses@[i as int]@);
        if restarting_status(&statuses[i]) {
            return true;
        }
        i = i + 1;
    }
    false
}

/// Whether some pod crash-loops, or waits after a restart.
pub fn any_restarting(pods: &Vec<LiveObject>) -> (r: bool)
    ensures
        r == exists|i: int| 0 <= i < pods@.len() && pod_restarts((#[trigger] pods@[i]).data@),
{
    let mut i: usize = 0;
    while i < pods.len()
        invariant
            i <= pods.len(),
            forall|k: int| 0 <= k < i ==> !pod_restarts((#[trigger] pods@[k]).data@),
        decreases pods.len() - i,
    {
        if restarting_pod(&pods[i].data) {
            return true;
        }
        i = i + 1;
    }
    false
}

// ─────────────────────── pod metrics ───────────────────────

/// The usages among a pod's containers, in order.
pub open spec fn container_usages(containers: Seq<JsonView>, resource: Seq<char>) -> Seq<Seq<char>>
    decreases containers.len(),
{
    if containers.len() == 0 {
        Seq::empty()
    } else {
        let rest = container_usages(containers.drop_last(), resource);
        match crate::json::pointed_text(containers.last(), "/usage/"@ + resource) {
            Some(u) => rest.push(u),
            None => rest,
        }
    }
}

/// The usages that a pod's metrics hold.
pub open spec fn pod_usages(metrics: JsonView, resource: Seq<char>) -> Seq<Seq<char>> {
    match crate::json::pointed(metrics, "/containers"@) {
        None => Seq::empty(),
        Some(j) => match j.items() {
            None => Seq::empty(),
            Some(containers) => container_usages(containers, resource),
        },
    }
}

/// The pod belongs to the group: a selector has chosen the pods already, and
/// without one its name starts with the prefix.
pub open spec fn in_group(pod: LiveObject, pod_prefix: Seq<char>, by_selector: bool) -> bool {
    by_selector || crate::text::starts(
        match pod.name {
            Some(n) => n@,
            None => Seq::empty(),
        },
        pod_prefix,
    )
}

/// The usages over a group of pods, in order.
pub open spec fn group_usages(
    items: Seq<LiveObject>,
    resource: Seq<char>,
    pod_prefix: Seq<char>,
    by_selector: bool,
) -> Seq<Seq<char>>
    decreases items.len(),
{
    if items.len() == 0 {
        Seq::empty()
    } else {
        let rest = group_usages(items.drop_last(), resource, pod_prefix, by_selector);
        if in_group(items.last(), pod_prefix, by_selector) {
            rest + pod_usages(items.last().data@, resource)
        } else {
            rest
        }
    }
}

fn push_pod_usages(metrics: &Json, resource: &str, out: &mut Vec<String>)
    ensures
        crate::text::texts(final(out)@) == crate::text::texts(old(out)@) + pod_usages(
            metrics@,
            resource@,
        ),
{
    let ghost before = crate::text::texts(out@);
    assert(before + Seq::<Seq<char>>::empty() =~= before);
    let containers = match metrics.pointer("/containers") {
        None => {
            return ;
        },
        Some(j) => match j.as_array() {
            None => {
                return ;
            },
            Some(v) => v,
        },
    };
    let mut path = "/usage/".to_owned();
    path.append(resource);
    let ghost all = items_view(containers@);
    proof {
        lemma_items_view(containers@);
        assert(all.take(0) =~= Seq::<JsonView>::empty());
    }
    let mut i: usize = 0;
    while i < containers.len()
        invariant
            i <= containers.len(),
            all == items_view(containers@),
            all.len() == containers.len(),
            forall|k: int|
                0 <= k < containers.len() ==> #[trigger] all[k] == json_view(containers@[k]),
            path@ == "/usage/"@ + resource@,
            crate::text::texts(out@) == before + container_usages(all.take(i as int), resource@),
        decreases containers.len() - i,
    {
        broadcast use crate::text::lemma_texts_push;

        assert(all.take(i + 1).drop_last() =~= all.take(i as int));
        assert(all.take(i + 1).last() == all[i as int]);
        let ghost so_far = container_usages(all.take(i as int), resource@);
        match containers[i].pointer_str(path.as_str()) {
            Some(u) => {
                out.push(u.to_owned());
                assert((before + so_far).push(u@) =~= before + so_far.push(u@));
            },
            None => {},
        }
        i = i + 1;
    }
    assert(all.take(all.len() as int) =~= all);
}

/// The usages over a group of pods: a group that a selector chose, and that has
/// no pods, is dormant.
pub fn pod_metric_usages(
    items: &Vec<LiveObject>,
    resource: &str,
    pod_prefix: &str,
    selector: &Option<String>,
) -> (r: Result<Vec<String>, ProviderError>)
    ensures
        match r {
            Ok(usages) => !(*selector is Some && items@.len() == 0) && crate::text::texts(usages@)
                == group_usages(items@, resource@, pod_prefix@, *selector is Some),
            Err(e) => *selector is Some && items@.len() == 0 && e is NoTargetPods,
        },
{
    let by_selector: bool = selector.is_some();
    if by_selector && items.len() == 0 {
        return Err(ProviderError::NoTargetPods);
    }
    let mut out: Vec<String> = Vec::new();
    let mut i: usize = 0;
    assert(items@.take(0) =~= Seq::<LiveObject>::empty());
    assert(crate::text::texts(out@) =~= Seq::<Seq<char>>::empty());
    while i < items.len()
        invariant
            i <= items.len(),
            by_selector == (*selector is Some),
            crate::text::texts(out@) == group_usages(
                items@.take(i as int),
                resource@,
                pod_prefix@,
                by_selector,
            ),
        decreases items.len() - i,
    {
        assert(items@.take(i + 1).drop_last() =~= items@.take(i as int));
        assert(items@.take(i + 1).last() == items@[i as int]);
        let mut belongs = by_selector;
        if !by_selector {
            let empty = String::new();
            assert(empty@ =~= Seq::<char>::empty());
            let name = match &items[i].name {
                Some(n) => n.as_str(),
                None => empty.as_str(),
            };
            belongs = strip_prefix(name, pod_prefix).is_some();
        }
        if belongs {
            push_pod_usages(&items[i].data, resource, &mut out);
        }
        i = i + 1;
    }
    assert(items@.take(items@.len() as int) =~= items@);
    Ok(out)
}

/// Some usage could be read.
pub open spec fn any_read(parsed: Seq<Option<u64>>) -> bool {
    exists|i: int| 0 <= i < parsed.len() && #[trigger] parsed[i] is Some
}

/// The usage of a group: the highest that could be read, and an error where none
/// could.
pub fn pod_metric_sample(parsed: &Vec<Option<u64>>) -> (r: Result<Sample, ProviderError>)
    ensures
        r == if any_read(parsed@) {
            Ok::<Sample, ProviderError>(Sample { value: highest_of(parsed@), age_secs: 0 })
        } else {
            Err(ProviderError::MetricsMissing)
        },
{
    let mut i: usize = 0;
    while i < parsed.len()
        invariant
            i <= parsed.len(),
            forall|k: int| 0 <= k < i ==> #[trigger] parsed@[k] is None,
        decreases parsed.len() - i,
    {
        if parsed[i].is_some() {
            return Ok(Sample { value: highest(parsed), age_secs: 0 });
        }
        i = i + 1;
    }
    Err(ProviderError::MetricsMissing)
}

/// What the error means when the metrics of pods are listed: the API that serves
/// them may not be installed at all.
pub fn classify_pod_metrics_error(raw: String) -> (r: ProviderError)
    ensures
        r@ == ProviderErrorView::ApiTransient(
            if crate::text::occurs(raw@, "404 page not found"@) {
                "metrics-server not installed (metrics.k8s.io/v1beta1 PodMetrics API is not registered in this cluster — install metrics-server): "@
                    + raw@
            } else {
                raw@
            },
        ),
{
    if contains_text(raw.as_str(), "404 page not found") {
        let mut s =
            "metrics-server not installed (metrics.k8s.io/v1beta1 PodMetrics API is not registered in this cluster — install metrics-server): ".to_owned();
        s.append(raw.as_str());
        ProviderError::ApiTransient(s)
    } else {
        ProviderError::ApiTransient(raw)
    }
}

// ─────────────────────── what is written ───────────────────────

/// The value nested under the pieces of a path, the first outermost; empty
/// pieces are left out.
pub open spec fn nested(pieces: Seq<Seq<char>>, value: JsonView) -> JsonView
    decreases pieces.len(),
{
    if pieces.len() == 0 {
        value
    } else if pieces[0].len() == 0 {
        nested(pieces.drop_first(), value)
    } else {
        object1(pieces[0], nested(pieces.drop_first(), value))
    }
}

/// The path below `spec`: without slashes at its front, and without `spec/`.
pub open spec fn path_below_spec(path: Seq<char>) -> Seq<char> {
    let t = crate::text::without_leading(path, CharClass::Slash);
    if crate::text::starts(t, "spec/"@) {
        t.skip("spec/"@.len() as int)
    } else {
        t
    }
}

/// The content of `spec` in which the value stands at the path.
pub open spec fn under_spec(path: Seq<char>, value: JsonView) -> JsonView {
    nested(crate::text::pieces(path_below_spec(path), '/'), value)
}

/// The content of `spec` in which the value stands at the path.
pub fn nested_json_under_spec(field_path: &str, value: Json) -> (r: Json)
    ensures
        r@ == under_spec(field_path@, value@),
{
    let v = chars_of(field_path);
    assert(v@.subrange(0, v.len() as int) =~= field_path@);
    let a: usize = crate::text::run_end(&v, 0, v.len(), CharClass::Slash);
    assert(v@.subrange(a as int, v.len() as int) =~= crate::text::without_leading(
        field_path@,
        CharClass::Slash,
    ));
    let trimmed = text_between(&v, a, v.len());
    let rel = match strip_prefix(trimmed.as_str(), "spec/") {
        Some(rest) => rest,
        None => trimmed,
    };
    let parts = split_pieces(rel.as_str(), '/');
    let ghost all = crate::text::texts(parts@);
    let ghost v0 = value@;
    let mut node = value;
    let mut i: usize = parts.len();
    assert(all.skip(all.len() as int) =~= Seq::<Seq<char>>::empty());
    while i > 0
        invariant
            i <= parts.len(),
            all == crate::text::texts(parts@),
            node@ == nested(all.skip(i as int), v0),
        decreases i,
    {
        i = i - 1;
        assert(all.skip(i as int)[0] == parts@[i as int]@);
        assert(all.skip(i as int).drop_first() =~= all.skip(i + 1));
        if chars_of(parts[i].as_str()).len() > 0 {
            node = json_object1(parts[i].as_str(), node);
        }
    }
    assert(all.skip(0) =~= all);
    node
}

/// A quantity of a resource, as it is written.
pub open spec fn quantity_json(resource: Seq<char>, value: u64) -> JsonView {
    object1(resource, JsonView::Text(scalar_words(resource, value)))
}

fn quantity(resource: &str, value: u64) -> (r: Json)
    ensures
        r@ == quantity_json(resource@, value),
{
    let qty = render_scalar(resource, value);
    json_object1(resource, json_text(qty.as_str()))
}

/// The resources that carve a pod's limit in place: a guaranteed pod moves its
/// request with its limit, any other only where the request would exceed it.
pub open spec fn limit_block(
    qos: Seq<char>,
    resource: Seq<char>,
    value: u64,
    current_request: Option<u64>,
) -> JsonView {
    let q = quantity_json(resource, value);
    if qos == "Guaranteed"@ || (current_request matches Some(req) && req > value) {
        object2("limits"@, q, "requests"@, q)
    } else {
        object1("limits"@, q)
    }
}

/// The resources that carve a pod's limit in place.
pub fn resize_resources_block(
    qos: &str,
    resource: &str,
    value: u64,
    current_request: Option<u64>,
) -> (r: Json)
    ensures
        r@ == limit_block(qos@, resource@, value, current_request),
{
    let moves: bool = match current_request {
        Some(req) => req > value,
        None => false,
    };
    if same_text(qos, "Guaranteed") || moves {
        json_object2("limits", quantity(resource, value), "requests", quantity(resource, value))
    } else {
        json_object1("limits", quantity(resource, value))
    }
}

/// The resources that carve a pod's reservation in place: the request alone.
pub open spec fn request_block(resource: Seq<char>, value: u64) -> JsonView {
    object1("requests"@, quantity_json(resource, value))
}

/// The resources that carve a pod's reservation in place.
pub fn request_resources_block(resource: &str, value: u64) -> (r: Json)
    ensures
        r@ == request_block(resource@, value),
{
    json_object1("requests", quantity(resource, value))
}

/// A carve of a reservation never touches a limit.
pub proof fn a_request_carve_never_touches_limits(resource: Seq<char>, value: u64)
    ensures
        request_block(resource, value).member("limits"@) is None,
        request_block(resource, value).member("requests"@) == Some(quantity_json(resource, value)),
{
    reveal_strlit("limits");
    reveal_strlit("requests");
    assert("requests"@.len() != "limits"@.len());
    let m = seq![("requests"@, quantity_json(resource, value))];
    assert(m.drop_first() =~= Seq::<(Seq<char>, JsonView)>::empty());
    reveal_with_fuel(crate::json::member_of, 2);
}

/// A carve of a limit leaves the request at or below it: it is moved to the new
/// limit where it was above, and a guaranteed pod keeps both equal.
pub proof fn a_limit_carve_keeps_the_request_within_it(
    qos: Seq<char>,
    resource: Seq<char>,
    value: u64,
    current_request: Option<u64>,
)
    ensures
        limit_block(qos, resource, value, current_request).member("limits"@) == Some(
            quantity_json(resource, value),
        ),
        qos == "Guaranteed"@ ==> limit_block(qos, resource, value, current_request).member(
            "requests"@,
        ) == Some(quantity_json(resource, value)),
        (current_request matches Some(req) && req > value) ==> limit_block(
            qos,
            resource,
            value,
            current_request,
        ).member("requests"@) == Some(quantity_json(resource, value)),
        limit_block(qos, resource, value, current_request).member("requests"@) is None ==> (
        current_request matches Some(req) ==> req <= value),
{
    reveal_strlit("limits");
    reveal_strlit("requests");
    assert("requests"@.len() != "limits"@.len());
    let q = quantity_json(resource, value);
    let m = seq![("limits"@, q), ("requests"@, q)];
    assert(m.drop_first() =~= seq![("requests"@, q)]);
    assert(m.drop_first()[0] == ("requests"@, q));
    let n = seq![("limits"@, q)];
    assert(n.drop_first() =~= Seq::<(Seq<char>, JsonView)>::empty());
    reveal_with_fuel(crate::json::member_of, 3);
}

/// The body that resizes one container of a pod.
pub open spec fn resize_body_of(container: Seq<char>, resources: JsonView) -> JsonView {
    object1(
        "spec"@,
        object1(
            "containers"@,
            JsonView::Array(
                seq![
                    object2("name"@, JsonView::Text(container), "resources"@, resources),
                ],
            ),
        ),
    )
}

/// The body that resizes one container of a pod.
pub fn resize_body(container: &str, resources: Json) -> (r: Json)
    ensures
        r@ == resize_body_of(container@, resources@),
{
    let c = json_object2("name", json_text(container), "resources", resources);
    json_object1("spec", json_object1("containers", json_array1(c)))
}

/// The class that a pod's record has; a pod without one counts as burstable.
pub open spec fn pod_class(pod: JsonView) -> Seq<char> {
    match crate::json::pointed_text(pod, "/status/qosClass"@) {
        Some(q) => q,
        None => "Burstable"@,
    }
}

/// The body that carves a limit on one pod. `current_request` is the number read
/// from the container's own request, where it has one.
pub fn limit_resize_body(pod: &Json, container: &str, patch: &SsaPatch, current_request: Option<
    u64,
>) -> (r: Json)
    ensures
        r@ == resize_body_of(
            container@,
            limit_block(pod_class(pod@), patch.resource@, patch.value, current_request),
        ),
{
    let qos = match pod.pointer_str("/status/qosClass") {
        Some(q) => q,
        None => "Burstable",
    };
    resize_body(
        container,
        resize_resources_block(qos, patch.resource.as_str(), patch.value, current_request),
    )
}

/// The body that carves a reservation on one pod.
pub fn request_resize_body(container: &str, patch: &SsaPatch) -> (r: Json)
    ensures
        r@ == resize_body_of(container@, request_block(patch.resource@, patch.value)),
{
    resize_body(container, request_resources_block(patch.resource.as_str(), patch.value))
}

/// One resize to be sent.
#[derive(Debug, PartialEq, Eq)]
pub struct PodResizeStep {
    /// The pod's place in the list.
    pub pod: usize,
    /// The pod's name.
    pub name: String,
    /// The container resized.
    pub container: String,
}

/// One resize with its texts as characters.
pub struct StepView {
    /// The pod's place in the list.
    pub pod: int,
    /// The pod's name.
    pub name: Seq<char>,
    /// The container resized.
    pub container: Seq<char>,
}

/// The views of a sequence of resizes.
pub open spec fn steps_view(steps: Seq<PodResizeStep>) -> Seq<StepView> {
    steps.map_values(
        |s: PodResizeStep|
            StepView { pod: s.pod as int, name: s.name@, container: s.container@ },
    )
}

/// The container that is resized on a pod.
pub open spec fn resized_container(pod: LiveObject, container: Option<Seq<char>>) -> Option<
    Seq<char>,
> {
    match container {
        Some(c) => Some(c),
        None => crate::json::pointed_text(pod.data@, "/spec/containers/0/name"@),
    }
}

/// The resizes of the first `n` pods, in order: a pod without a name is left
/// out, and the first without a container ends them.
pub open spec fn resizes_of(pods: Seq<LiveObject>, container: Option<Seq<char>>, n: int) -> (
    Seq<StepView>,
    bool,
)
    decreases n,
{
    if n <= 0 {
        (Seq::empty(), true)
    } else {
        let (steps, whole) = resizes_of(pods, container, n - 1);
        let pod = pods[n - 1];
        if !whole {
            (steps, false)
        } else {
            match pod.name {
                None => (steps, true),
                Some(name) => match resized_container(pod, container) {
                    None => (steps, false),
                    Some(c) => (
                        steps.push(StepView { pod: n - 1, name: name@, container: c }),
                        true,
                    ),
                },
            }
        }
    }
}

/// An ended run of resizes stays as it is.
proof fn lemma_resizes_end(pods: Seq<LiveObject>, container: Option<Seq<char>>, n: int, m: int)
    requires
        0 <= n <= m,
        !resizes_of(pods, container, n).1,
    ensures
        resizes_of(pods, container, m) == resizes_of(pods, container, n),
    decreases m,
{
    if n < m {
        lemma_resizes_end(pods, container, n, m - 1);
    }
}

/// The resizes to be sent, and whether the run is whole: where it is not, it
/// ends, once they are sent, for want of a container.
#[derive(Debug, PartialEq, Eq)]
pub struct ResizePlan {
    /// The resizes, in order.
    pub steps: Vec<PodResizeStep>,
    /// Whether every named pod has one.
    pub whole: bool,
}

/// Plans the resizes of a band's pods.
pub fn plan_resizes(pods: &Vec<LiveObject>, container: &Option<String>) -> (r: Result<
    ResizePlan,
    ProviderError,
>)
    ensures
        match r {
            Err(e) => pods@.len() == 0 && e is TargetNotFound,
            Ok(plan) => pods@.len() > 0 && (steps_view(plan.steps@), plan.whole) == resizes_of(
                pods@,
                wanted(*container),
                pods@.len() as int,
            ),
        },
{
    if pods.len() == 0 {
        return Err(ProviderError::TargetNotFound);
    }
    let mut steps: Vec<PodResizeStep> = Vec::new();
    let mut i: usize = 0;
    assert(steps_view(steps@) =~= Seq::<StepView>::empty());
    while i < pods.len()
        invariant
            i <= pods.len(),
            pods.len() > 0,
            (steps_view(steps@), true) == resizes_of(pods@, wanted(*container), i as int),
        decreases pods.len() - i,
    {
        let ghost before = steps@;
        match &pods[i].name {
            None => {},
            Some(name) => {
                let cname = match container {
                    Some(c) => Some(c.clone()),
                    None => pod_first_container(&pods[i].data),
                };
                match cname {
                    None => {
                        proof {
                            lemma_resizes_end(
                                pods@,
                                wanted(*container),
                                i + 1,
                                pods@.len() as int,
                            );
                        }
                        return Ok(ResizePlan { steps, whole: false });
                    },
                    Some(c) => {
                        let step = PodResizeStep { pod: i, name: name.clone(), container: c };
                        proof {
                            let v = StepView {
                                pod: i as int,
                                name: step.name@,
                                container: step.container@,
                            };
                            assert(steps_view(before.push(step)) =~= steps_view(before).push(v));
                        }
                        steps.push(step);
                    },
                }
            },
        }
        i = i + 1;
    }
    Ok(ResizePlan { steps, whole: true })
}

/// What a run of resizes comes to, once all of them were sent.
pub fn resized(plan: &ResizePlan) -> (r: Result<AppliedReceipt, ProviderError>)
    ensures
        match r {
            Ok(receipt) => plan.whole && crate::provider::is_no_hash(receipt.source_hash),
            Err(e) => !plan.whole && e is NoCapacityField,
        },
{
    if plan.whole {
        Ok(blank_receipt())
    } else {
        Err(ProviderError::NoCapacityField)
    }
}

/// What applying a patch comes to.
#[derive(Debug, PartialEq, Eq)]
pub enum ApplyPlan {
    /// The pods are resized in place.
    Resize { container: Option<String> },
    /// The owner is to be read, to learn its first container.
    NeedsContainer,
    /// The body is to be sent.
    Send(Json),
    /// Nothing is sent.
    Refused(ProviderError),
}

/// A plan with its texts as characters.
pub enum ApplyPlanView {
    /// The pods are resized in place.
    Resize { container: Option<String> },
    /// The owner is to be read, to learn its first container.
    NeedsContainer,
    /// The body is to be sent.
    Send(JsonView),
    /// Nothing is sent.
    Refused(ProviderErrorView),
}

impl View for ApplyPlan {
    type V = ApplyPlanView;

    open spec fn view(&self) -> ApplyPlanView {
        match *self {
            ApplyPlan::Resize { container } => ApplyPlanView::Resize { container },
            ApplyPlan::NeedsContainer => ApplyPlanView::NeedsContainer,
            ApplyPlan::Send(j) => ApplyPlanView::Send(j@),
            ApplyPlan::Refused(e) => ApplyPlanView::Refused(e@),
        }
    }
}

/// The body of a patch with the content of its `spec`.
pub open spec fn body_of(target: Target, spec: JsonView) -> JsonView {
    JsonView::Object(
        seq![
            (
                "apiVersion"@,
                JsonView::Text(
                    api_version_of(group_version_of(target.api_version@, target.kind@)),
                ),
            ),
            ("kind"@, JsonView::Text(target.kind@)),
            (
                "metadata"@,
                object2(
                    "name"@,
                    JsonView::Text(target.name@),
                    "namespace"@,
                    JsonView::Text(target.namespace@),
                ),
            ),
            ("spec"@, spec),
        ],
    )
}

fn body(target: &Target, content: Json) -> (r: Json)
    ensures
        r@ == body_of(*target, content@),
{
    json_object4(
        "apiVersion",
        json_text(api_version(target).as_str()),
        "kind",
        json_text(target.kind.as_str()),
        "metadata",
        json_object2(
            "name",
            json_text(target.name.as_str()),
            "namespace",
            json_text(target.namespace.as_str()),
        ),
        "spec",
        content,
    )
}

/// The content of `spec` that sets a container's limit in a pod template.
pub open spec fn template_spec(container: Seq<char>, resource: Seq<char>, value: u64) -> JsonView {
    object1(
        "template"@,
        object1(
            "spec"@,
            object1(
                "containers"@,
                JsonView::Array(
                    seq![
                        object2(
                            "name"@,
                            JsonView::Text(container),
                            "resources"@,
                            object1("limits"@, quantity_json(resource, value)),
                        ),
                    ],
                ),
            ),
        ),
    )
}

fn template_content(container: &str, resource: &str, value: u64) -> (r: Json)
    ensures
        r@ == template_spec(container@, resource@, value),
{
    let c = json_object2(
        "name",
        json_text(container),
        "resources",
        json_object1("limits", quantity(resource, value)),
    );
    json_object1("template", json_object1("spec", json_object1("containers", json_array1(c))))
}

/// What applying a patch comes to: a reservation is never written this way, and
/// what lives on the host or behind another protocol is not written here.
pub open spec fn apply_plan_of(patch: SsaPatch) -> ApplyPlanView {
    let target = patch.target;
    let resource = patch.resource@;
    let number = JsonView::Number(crate::text::decimal(patch.value as nat));
    let words = JsonView::Text(scalar_words(resource, patch.value));
    match patch.layout {
        LimitLayout::PodResize { container } => ApplyPlanView::Resize { container },
        LimitLayout::ClusterTopLevel => ApplyPlanView::Send(
            body_of(
                target,
                object1(
                    "resources"@,
                    object1("limits"@, quantity_json(resource, patch.value)),
                ),
            ),
        ),
        LimitLayout::PvcRequest => ApplyPlanView::Send(
            body_of(
                target,
                object1("resources"@, object1("requests"@, object1("storage"@, words))),
            ),
        ),
        LimitLayout::ClusterStorage => ApplyPlanView::Send(
            body_of(target, object1("storage"@, object1("size"@, words))),
        ),
        LimitLayout::PodTemplate { container } => match container {
            Some(c) => ApplyPlanView::Send(
                body_of(target, template_spec(c@, resource, patch.value)),
            ),
            None => ApplyPlanView::NeedsContainer,
        },
        LimitLayout::PodRequestResize { .. } => ApplyPlanView::Refused(
            ProviderErrorView::ApiPermanent(
                "a request write must go through RequestActuator::resize_in_place with a ClassPreserved witness, never the generic SSA path (which cannot produce one)"@,
            ),
        ),
        LimitLayout::Host(_) => ApplyPlanView::Refused(
            ProviderErrorView::ApiPermanent(
                "host layout on KubeCluster (route host dimensions to HostCluster)"@,
            ),
        ),
        LimitLayout::CrField { field_path, .. }
        | LimitLayout::DestinationRuleField { field_path, .. }
        | LimitLayout::NamespaceEnvelope { field_path, .. }
        | LimitLayout::ControllerSetpoint { field_path, .. } => ApplyPlanView::Send(
            body_of(target, under_spec(field_path@, number)),
        ),
        LimitLayout::Replica { .. } => ApplyPlanView::Send(
            body_of(target, object1("replicas"@, number)),
        ),
        LimitLayout::ConfigFile { .. }
        | LimitLayout::ApiCall { .. }
        | LimitLayout::PodNetworkBandwidth { .. } => ApplyPlanView::Refused(
            ProviderErrorView::ApiPermanent(
                "config-file/api-call/network layout requires a dedicated actuator (ConfigReload/ApiCall/Host-tc), not KubeCluster"@,
            ),
        ),
    }
}

fn send_at_path(patch: &SsaPatch, field_path: &String) -> (r: ApplyPlan)
    ensures
        r@ == ApplyPlanView::Send(
            body_of(
                patch.target,
                under_spec(
                    field_path@,
                    JsonView::Number(crate::text::decimal(patch.value as nat)),
                ),
            ),
        ),
{
    ApplyPlan::Send(
        body(
            &patch.target,
            nested_json_under_spec(field_path.as_str(), json_number(patch.value)),
        ),
    )
}

/// What applying a patch comes to.
pub fn plan_apply(patch: &SsaPatch) -> (r: ApplyPlan)
    ensures
        r@ == apply_plan_of(*patch),
{
    let target = &patch.target;
    let resource = patch.resource.as_str();
    match &patch.layout {
        LimitLayout::PodResize { container } => ApplyPlan::Resize {
            container: crate::dimension::copy_text(container),
        },
        LimitLayout::ClusterTopLevel => ApplyPlan::Send(
            body(
                target,
                json_object1(
                    "resources",
                    json_object1("limits", quantity(resource, patch.value)),
                ),
            ),
        ),
        LimitLayout::PvcRequest => {
            let qty = render_scalar(resource, patch.value);
            ApplyPlan::Send(
                body(
                    target,
                    json_object1(
                        "resources",
                        json_object1(
                            "requests",
                            json_object1("storage", json_text(qty.as_str())),
                        ),
                    ),
                ),
            )
        },
        LimitLayout::ClusterStorage => {
            let qty = render_scalar(resource, patch.value);
            ApplyPlan::Send(
                body(
                    target,
                    json_object1("storage", json_object1("size", json_text(qty.as_str()))),
                ),
            )
        },
        LimitLayout::PodTemplate { container } => match container {
            Some(c) => ApplyPlan::Send(
                body(target, template_content(c.as_str(), resource, patch.value)),
            ),
            None => ApplyPlan::NeedsContainer,
        },
        LimitLayout::PodRequestResize { .. } => ApplyPlan::Refused(
            ProviderError::permanent(
                "a request write must go through RequestActuator::resize_in_place with a ClassPreserved witness, never the generic SSA path (which cannot produce one)",
            ),
        ),
        LimitLayout::Host(_) => ApplyPlan::Refused(
            ProviderError::permanent(
                "host layout on KubeCluster (route host dimensions to HostCluster)",
            ),
        ),
        LimitLayout::CrField { field_path, .. } => send_at_path(patch, field_path),
        LimitLayout::DestinationRuleField { field_path, .. } => send_at_path(patch, field_path),
        LimitLayout::NamespaceEnvelope { field_path, .. } => send_at_path(patch, field_path),
        LimitLayout::ControllerSetpoint { field_path, .. } => send_at_path(patch, field_path),
        LimitLayout::Replica { .. } => ApplyPlan::Send(
            body(target, json_object1("replicas", json_number(patch.value))),
        ),
        LimitLayout::ConfigFile { .. }
        | LimitLayout::ApiCall { .. }
        | LimitLayout::PodNetworkBandwidth { .. } => ApplyPlan::Refused(
            ProviderError::permanent(
                "config-file/api-call/network layout requires a dedicated actuator (ConfigReload/ApiCall/Host-tc), not KubeCluster",
            ),
        ),
    }
}

/// The body of a patch to a pod template whose owner was read, to learn its
/// first container: it must have one.
pub fn template_body(patch: &SsaPatch, owner: &Json) -> (r: Result<Json, ProviderError>)
    ensures
        match container_name_of(owner@, None) {
            Some(c) => r matches Ok(j) && j@ == body_of(
                patch.target,
                template_spec(c, patch.resource@, patch.value),
            ),
            None => r matches Err(e) && e is NoCapacityField,
        },
{
    match container_name(owner, &None) {
        Some(c) => Ok(
            body(
                &patch.target,
                template_content(c.as_str(), patch.resource.as_str(), patch.value),
            ),
        ),
        None => Err(ProviderError::NoCapacityField),
    }
}

/// A reservation is never written through the general door.
pub proof fn the_general_door_never_writes_a_request(patch: SsaPatch)
    requires
        patch.layout is PodRequestResize,
    ensures
        apply_plan_of(patch) is Refused,
{
}

/// The member of an object with one member.
proof fn lemma_member1(k: Seq<char>, v: JsonView)
    ensures
        object1(k, v).member(k) == Some(v),
{
}

/// The second member of an object with two, where the keys differ.
proof fn lemma_member2(k: Seq<char>, v: JsonView, k2: Seq<char>, v2: JsonView)
    requires
        k != k2,
    ensures
        object2(k, v, k2, v2).member(k) == Some(v),
        object2(k, v, k2, v2).member(k2) == Some(v2),
{
    let m = seq![(k, v), (k2, v2)];
    assert(m.drop_first() =~= seq![(k2, v2)]);
    assert(m.drop_first()[0] == (k2, v2));
    reveal_with_fuel(crate::json::member_of, 3);
}

/// The `spec` of a body is its content.
proof fn lemma_body_spec(target: Target, content: JsonView)
    ensures
        body_of(target, content).member("spec"@) == Some(content),
        body_of(target, content) is Object,
{
    reveal_strlit("apiVersion");
    reveal_strlit("kind");
    reveal_strlit("metadata");
    reveal_strlit("spec");
    assert("kind"@[0] != "spec"@[0]);
    let m = body_of(target, content)->Object_0;
    let a = m.drop_first();
    let b = a.drop_first();
    let c = b.drop_first();
    assert(a[0] == m[1] && b[0] == m[2] && c[0] == m[3]);
    assert(m[0].0 != "spec"@ && m[1].0 != "spec"@ && m[2].0 != "spec"@ && m[3].0 == "spec"@);
    reveal_with_fuel(crate::json::member_of, 5);
}

/// The texts, each behind a slash.
pub open spec fn slash_path(segments: Seq<Seq<char>>) -> Seq<char>
    decreases segments.len(),
{
    if segments.len() == 0 {
        Seq::empty()
    } else {
        "/"@ + segments[0] + slash_path(segments.drop_first())
    }
}

/// Each text is not empty, and holds neither a slash nor a tilde.
pub open spec fn plain_segments(segments: Seq<Seq<char>>) -> bool {
    forall|i: int|
        0 <= i < segments.len() ==> (#[trigger] segments[i]).len() > 0 && crate::json::plain_key(
            segments[i],
        )
}

proof fn lemma_nested_is_pointed(segments: Seq<Seq<char>>, value: JsonView)
    requires
        plain_segments(segments),
    ensures
        crate::json::pointed(nested(segments, value), slash_path(segments)) == Some(value),
        slash_path(segments).len() == 0 || slash_path(segments)[0] == '/',
    decreases segments.len(),
{
    reveal_strlit("/");
    if segments.len() > 0 {
        let rest = segments.drop_first();
        assert forall|i: int| 0 <= i < rest.len() implies (#[trigger] rest[i]).len() > 0
            && crate::json::plain_key(rest[i]) by {
            assert(rest[i] == segments[i + 1]);
        }
        lemma_nested_is_pointed(rest, value);
        assert(segments[0].len() > 0);
        lemma_member1(segments[0], nested(rest, value));
        crate::json::lemma_point_into(nested(segments, value), segments[0], slash_path(rest));
    }
}

proof fn lemma_pieces_of_path(segments: Seq<Seq<char>>)
    requires
        plain_segments(segments),
        segments.len() > 0,
    ensures
        crate::text::pieces(slash_path(segments).skip(1), '/') == segments,
    decreases segments.len(),
{
    reveal_strlit("/");
    let rest = segments.drop_first();
    let tail = slash_path(rest);
    assert(slash_path(segments).skip(1) =~= segments[0] + tail);
    assert(crate::json::plain_key(segments[0]));
    if rest.len() == 0 {
        assert(segments[0] + tail =~= segments[0]);
        crate::json::lemma_pieces_last(segments[0], '/');
        assert(segments =~= seq![segments[0]]);
    } else {
        assert forall|i: int| 0 <= i < rest.len() implies (#[trigger] rest[i]).len() > 0
            && crate::json::plain_key(rest[i]) by {
            assert(rest[i] == segments[i + 1]);
        }
        lemma_pieces_of_path(rest);
        assert(tail =~= seq!['/'] + tail.skip(1));
        crate::json::lemma_pieces_first(segments[0], tail.skip(1), '/');
        assert(segments[0] + tail =~= segments[0] + seq!['/'] + tail.skip(1));
        assert(segments =~= seq![segments[0]] + rest);
    }
}

/// A value set at a path below `spec` stands at that path.
pub proof fn a_value_set_at_a_path_stands_there(segments: Seq<Seq<char>>, value: JsonView)
    requires
        plain_segments(segments),
        segments.len() > 0,
    ensures
        crate::json::pointed(
            object1("spec"@, under_spec("/spec"@ + slash_path(segments), value)),
            "/spec"@ + slash_path(segments),
        ) == Some(value),
        under_spec("/spec"@ + slash_path(segments), value) == nested(segments, value),
{
    reveal_strlit("/spec");
    reveal_strlit("spec");
    reveal_strlit("spec/");
    reveal_strlit("/");
    let path = "/spec"@ + slash_path(segments);
    lemma_nested_is_pointed(segments, value);
    lemma_pieces_of_path(segments);
    assert(slash_path(segments).len() > 0);
    assert(path[1] == 's');
    crate::text::lemma_leading_is(path, CharClass::Slash, 1);
    let t = crate::text::without_leading(path, CharClass::Slash);
    assert(t =~= "spec"@ + slash_path(segments));
    assert(t.take("spec/"@.len() as int) =~= "spec/"@);
    assert(t.skip("spec/"@.len() as int) =~= slash_path(segments).skip(1));
    lemma_member1("spec"@, nested(segments, value));
    assert(path =~= "/"@ + "spec"@ + slash_path(segments));
    crate::json::lemma_point_into(
        object1("spec"@, nested(segments, value)),
        "spec"@,
        slash_path(segments),
    );
}

/// What a patch writes, read back: the quantity in the resource's own form, or
/// for a count and a field of a custom resource the bare number.
pub open spec fn written_words(patch: SsaPatch) -> Seq<char> {
    match patch.layout {
        LimitLayout::ClusterTopLevel
        | LimitLayout::PvcRequest
        | LimitLayout::ClusterStorage
        | LimitLayout::PodTemplate { .. } => scalar_words(patch.resource@, patch.value),
        _ => crate::text::decimal(patch.value as nat),
    }
}

/// The field path of a layout that has one.
pub open spec fn field_path_of(layout: LimitLayout) -> Option<Seq<char>> {
    match layout {
        LimitLayout::CrField { field_path, .. }
        | LimitLayout::DestinationRuleField { field_path, .. }
        | LimitLayout::NamespaceEnvelope { field_path, .. }
        | LimitLayout::ControllerSetpoint { field_path, .. } => Some(field_path@),
        _ => None,
    }
}

/// What is sent reads back: the object that a patch sends holds, where the
/// layout's limit is read, exactly what was written. The resource must be a
/// plain key, and a field path must lead through plain keys below `spec`.
pub proof fn a_written_limit_reads_back(
    patch: SsaPatch,
    sent: JsonView,
    segments: Seq<Seq<char>>,
)
    requires
        apply_plan_of(patch) == ApplyPlanView::Send(sent),
        crate::json::plain_key(patch.resource@),
        field_path_of(patch.layout) matches Some(path) ==> plain_segments(segments)
            && segments.len() > 0 && path == "/spec"@ + slash_path(segments),
    ensures
        quantity_of(sent, patch.layout, patch.resource@) == Some(written_words(patch)),
{
    match patch.layout {
        LimitLayout::ClusterTopLevel => {
            lemma_top_level_reads_back(patch, sent);
        },
        LimitLayout::PvcRequest => {
            lemma_claim_reads_back(patch, sent);
        },
        LimitLayout::ClusterStorage => {
            lemma_storage_reads_back(patch, sent);
        },
        LimitLayout::Replica { .. } => {
            lemma_replicas_read_back(patch, sent);
        },
        LimitLayout::PodTemplate { container } => {
            lemma_template_reads_back(patch, sent, container->0@);
        },
        _ => {
            let path = field_path_of(patch.layout)->0;
            let number = JsonView::Number(crate::text::decimal(patch.value as nat));
            a_value_set_at_a_path_stands_there(segments, number);
            lemma_path_reads_back(patch.target, segments, number);
        },
    }
}

proof fn lemma_path_reads_back(target: Target, segments: Seq<Seq<char>>, value: JsonView)
    requires
        plain_segments(segments),
        segments.len() > 0,
    ensures
        crate::json::pointed(
            body_of(target, nested(segments, value)),
            "/spec"@ + slash_path(segments),
        ) == Some(value),
{
    reveal_strlit("/");
    reveal_strlit("spec");
    reveal_strlit("/spec");
    lemma_nested_is_pointed(segments, value);
    lemma_body_spec(target, nested(segments, value));
    crate::json::lemma_point_into(
        body_of(target, nested(segments, value)),
        "spec"@,
        slash_path(segments),
    );
    assert("/spec"@ + slash_path(segments) =~= "/"@ + "spec"@ + slash_path(segments));
}

proof fn lemma_top_level_reads_back(patch: SsaPatch, sent: JsonView)
    requires
        crate::json::plain_key(patch.resource@),
        patch.layout is ClusterTopLevel,
        apply_plan_of(patch) == ApplyPlanView::Send(sent),
    ensures
        quantity_of(sent, patch.layout, patch.resource@) == Some(written_words(patch)),
{
    let resource = patch.resource@;
    let none = Seq::<char>::empty();
    let words = JsonView::Text(scalar_words(resource, patch.value));
    let q = quantity_json(resource, patch.value);
    let limits = object1("limits"@, q);
    let content = object1("resources"@, limits);
    lemma_body_spec(patch.target, content);
    lemma_member1("resources"@, limits);
    lemma_member1("limits"@, q);
    lemma_member1(resource, words);
    reveal_strlit("/");
    reveal_strlit("spec");
    reveal_strlit("resources");
    reveal_strlit("limits");
    reveal_strlit("/spec/resources/limits/");
    let p3 = "/"@ + resource + none;
    let p2 = "/"@ + "limits"@ + p3;
    let p1 = "/"@ + "resources"@ + p2;
    crate::json::lemma_point_into(q, resource, none);
    crate::json::lemma_point_into(limits, "limits"@, p3);
    crate::json::lemma_point_into(content, "resources"@, p2);
    crate::json::lemma_point_into(sent, "spec"@, p1);
    assert("/spec/resources/limits/"@ + resource =~= "/"@ + "spec"@ + p1);
}

proof fn lemma_claim_reads_back(patch: SsaPatch, sent: JsonView)
    requires
        patch.layout is PvcRequest,
        apply_plan_of(patch) == ApplyPlanView::Send(sent),
    ensures
        quantity_of(sent, patch.layout, patch.resource@) == Some(written_words(patch)),
{
    let none = Seq::<char>::empty();
    let words = JsonView::Text(scalar_words(patch.resource@, patch.value));
    let storage = object1("storage"@, words);
    let requests = object1("requests"@, storage);
    let content = object1("resources"@, requests);
    lemma_body_spec(patch.target, content);
    lemma_member1("resources"@, requests);
    lemma_member1("requests"@, storage);
    lemma_member1("storage"@, words);
    reveal_strlit("/");
    reveal_strlit("spec");
    reveal_strlit("resources");
    reveal_strlit("requests");
    reveal_strlit("storage");
    reveal_strlit("/spec/resources/requests/storage");
    let p3 = "/"@ + "storage"@ + none;
    let p2 = "/"@ + "requests"@ + p3;
    let p1 = "/"@ + "resources"@ + p2;
    crate::json::lemma_point_into(storage, "storage"@, none);
    crate::json::lemma_point_into(requests, "requests"@, p3);
    crate::json::lemma_point_into(content, "resources"@, p2);
    crate::json::lemma_point_into(sent, "spec"@, p1);
    assert("/spec/resources/requests/storage"@ =~= "/"@ + "spec"@ + p1);
}

proof fn lemma_storage_reads_back(patch: SsaPatch, sent: JsonView)
    requires
        patch.layout is ClusterStorage,
        apply_plan_of(patch) == ApplyPlanView::Send(sent),
    ensures
        quantity_of(sent, patch.layout, patch.resource@) == Some(written_words(patch)),
{
    let none = Seq::<char>::empty();
    let words = JsonView::Text(scalar_words(patch.resource@, patch.value));
    let size = object1("size"@, words);
    let content = object1("storage"@, size);
    lemma_body_spec(patch.target, content);
    lemma_member1("storage"@, size);
    lemma_member1("size"@, words);
    reveal_strlit("/");
    reveal_strlit("spec");
    reveal_strlit("storage");
    reveal_strlit("size");
    reveal_strlit("/spec/storage/size");
    let p2 = "/"@ + "size"@ + none;
    let p1 = "/"@ + "storage"@ + p2;
    crate::json::lemma_point_into(size, "size"@, none);
    crate::json::lemma_point_into(content, "storage"@, p2);
    crate::json::lemma_point_into(sent, "spec"@, p1);
    assert("/spec/storage/size"@ =~= "/"@ + "spec"@ + p1);
}

proof fn lemma_replicas_read_back(patch: SsaPatch, sent: JsonView)
    requires
        patch.layout is Replica,
        apply_plan_of(patch) == ApplyPlanView::Send(sent),
    ensures
        quantity_of(sent, patch.layout, patch.resource@) == Some(written_words(patch)),
{
    let none = Seq::<char>::empty();
    let number = JsonView::Number(crate::text::decimal(patch.value as nat));
    let content = object1("replicas"@, number);
    lemma_body_spec(patch.target, content);
    lemma_member1("replicas"@, number);
    reveal_strlit("/");
    reveal_strlit("spec");
    reveal_strlit("replicas");
    reveal_strlit("/spec/replicas");
    let p1 = "/"@ + "replicas"@ + none;
    crate::json::lemma_point_into(content, "replicas"@, none);
    crate::json::lemma_point_into(sent, "spec"@, p1);
    assert("/spec/replicas"@ =~= "/"@ + "spec"@ + p1);
    assert(scalar_text(number) == crate::text::decimal(patch.value as nat));
}

proof fn lemma_template_reads_back(patch: SsaPatch, sent: JsonView, container: Seq<char>)
    requires
        crate::json::plain_key(patch.resource@),
        sent == body_of(patch.target, template_spec(container, patch.resource@, patch.value)),
    ensures
        container_quantity(
            sent,
            "/spec/template/spec/containers"@,
            Some(container),
            "/resources/limits/"@ + patch.resource@,
        ) == Some(scalar_words(patch.resource@, patch.value)),
{
    let resource = patch.resource@;
    let words = JsonView::Text(scalar_words(resource, patch.value));
    reveal_strlit("/");
    reveal_strlit("spec");
    reveal_strlit("resources");
    reveal_strlit("limits");
    reveal_strlit("template");
    reveal_strlit("containers");
    reveal_strlit("name");
    reveal_strlit("/spec/template/spec/containers");
    reveal_strlit("/resources/limits/");
    let none = Seq::<char>::empty();
    let q = quantity_json(resource, patch.value);
    let limits = object1("limits"@, q);
    assert("name"@.len() != "resources"@.len());
    let c = object2("name"@, JsonView::Text(container), "resources"@, limits);
    let items = seq![c];
    let array = JsonView::Array(items);
    let containers = object1("containers"@, array);
    let inner = object1("spec"@, containers);
    let content = object1("template"@, inner);
    lemma_body_spec(patch.target, content);
    lemma_member1("template"@, inner);
    lemma_member1("spec"@, containers);
    lemma_member1("containers"@, array);
    lemma_member2("name"@, JsonView::Text(container), "resources"@, limits);
    lemma_member1("limits"@, q);
    lemma_member1(resource, words);
    let p3 = "/"@ + "containers"@ + none;
    let p2 = "/"@ + "spec"@ + p3;
    let p1 = "/"@ + "template"@ + p2;
    crate::json::lemma_point_into(containers, "containers"@, none);
    crate::json::lemma_point_into(inner, "spec"@, p3);
    crate::json::lemma_point_into(content, "template"@, p2);
    crate::json::lemma_point_into(sent, "spec"@, p1);
    assert("/spec/template/spec/containers"@ =~= "/"@ + "spec"@ + p1);
    assert(crate::json::named_item(items, container) == Some(c));
    let r2 = "/"@ + resource + none;
    let r1 = "/"@ + "limits"@ + r2;
    crate::json::lemma_point_into(q, resource, none);
    crate::json::lemma_point_into(limits, "limits"@, r2);
    crate::json::lemma_point_into(c, "resources"@, r1);
    assert("/resources/limits/"@ + resource =~= "/"@ + "resources"@ + r1);
}

// ─────────────────────── owners of the field ───────────────────────

/// Whether the owners of the field are read from the owner object: on live pods
/// there is no other writer.
pub fn owners_need_object(layout: &LimitLayout) -> (r: bool)
    ensures
        r == !(*layout is PodResize || *layout is PodRequestResize),
{
    match layout {
        LimitLayout::PodResize { .. } | LimitLayout::PodRequestResize { .. } => false,
        _ => true,
    }
}

/// The path of the field that a layout writes, where other writers are looked
/// for; nothing where they are not.
pub open spec fn written_path(owner: JsonView, layout: LimitLayout, resource: Seq<char>) -> Option<
    Seq<Seq<char>>,
> {
    match layout {
        LimitLayout::ClusterTopLevel => Some(
            seq!["f:spec"@, "f:resources"@, "f:limits"@, "f:"@ + resource],
        ),
        LimitLayout::PvcRequest => Some(
            seq!["f:spec"@, "f:resources"@, "f:requests"@, "f:storage"@],
        ),
        LimitLayout::ClusterStorage => Some(seq!["f:spec"@, "f:storage"@, "f:size"@]),
        LimitLayout::PodTemplate { container } => match container_name_of(
            owner,
            wanted(container),
        ) {
            Some(c) => Some(crate::managed_fields::pod_template_limit_path(c, resource)),
            None => None,
        },
        _ => None,
    }
}

/// The owners of the field that a layout writes.
pub open spec fn layout_owners(
    owner: JsonView,
    managed: JsonView,
    layout: LimitLayout,
    resource: Seq<char>,
    logical_field: Seq<char>,
) -> Result<Seq<crate::managed_fields::OwnerView>, ProviderErrorView> {
    match layout {
        LimitLayout::Host(_) => Err(
            ProviderErrorView::ApiPermanent(
                "host layout on KubeCluster (route host dimensions to HostCluster)"@,
            ),
        ),
        _ => match written_path(owner, layout, resource) {
            Some(path) => Ok(crate::managed_fields::owners_of(managed, path, logical_field)),
            None => Ok(Seq::empty()),
        },
    }
}

/// Owners, or an error, with their texts as characters.
pub open spec fn owners_result(r: Result<Vec<FieldOwner>, ProviderError>) -> Result<
    Seq<crate::managed_fields::OwnerView>,
    ProviderErrorView,
> {
    match r {
        Ok(v) => Ok(crate::managed_fields::owners_view(v@)),
        Err(e) => Err(e@),
    }
}

/// The owners of the field that a layout writes, from the owner object and its
/// record of managed fields.
pub fn read_field_owners(
    owner: &Json,
    managed: &Json,
    layout: &LimitLayout,
    resource: &str,
    logical_field: &str,
) -> (r: Result<Vec<FieldOwner>, ProviderError>)
    ensures
        owners_result(r) == layout_owners(owner@, managed@, *layout, resource@, logical_field@),
{
    let none: Vec<FieldOwner> = Vec::new();
    assert(crate::managed_fields::owners_view(none@) =~= Seq::<
        crate::managed_fields::OwnerView,
    >::empty());
    let segments = match layout {
        LimitLayout::ClusterTopLevel => cnpg_cluster_limit_segments(resource),
        LimitLayout::PvcRequest => pvc_request_segments(),
        LimitLayout::ClusterStorage => cnpg_storage_segments(),
        LimitLayout::PodTemplate { container } => match container_name(owner, container) {
            Some(c) => pod_template_limit_segments(c.as_str(), resource),
            None => {
                return Ok(none);
            },
        },
        LimitLayout::Host(_) => {
            return Err(
                ProviderError::permanent(
                    "host layout on KubeCluster (route host dimensions to HostCluster)",
                ),
            );
        },
        _ => {
            return Ok(none);
        },
    };
    Ok(field_owners(managed, segments.as_slice(), logical_field))
}

// ─────────────────────── which reads a layout takes ───────────────────────

/// Where a quantity of a layout is read.
#[derive(Debug, PartialEq, Eq)]
pub enum ReadRoute {
    /// On the band's pods.
    Pods { container: Option<String> },
    /// On the owner object.
    Owner,
    /// Nowhere.
    Nowhere,
}

/// Where the limit of a layout is read: a live resize is read on the pods,
/// everything else on the owner.
pub fn limit_route(layout: &LimitLayout) -> (r: ReadRoute)
    ensures
        r == match *layout {
            LimitLayout::PodResize { container } => ReadRoute::Pods { container },
            _ => ReadRoute::Owner,
        },
{
    match layout {
        LimitLayout::PodResize { container } => ReadRoute::Pods {
            container: crate::dimension::copy_text(container),
        },
        _ => ReadRoute::Owner,
    }
}

/// Where the declared reservation of a layout is read.
pub fn request_floor_route(layout: &LimitLayout) -> (r: ReadRoute)
    ensures
        r == match *layout {
            LimitLayout::PodResize { container } => ReadRoute::Pods { container },
            LimitLayout::PodTemplate { container } => ReadRoute::Pods { container },
            LimitLayout::ClusterTopLevel => ReadRoute::Owner,
            _ => ReadRoute::Nowhere,
        },
{
    match layout {
        LimitLayout::PodResize { container } => ReadRoute::Pods {
            container: crate::dimension::copy_text(container),
        },
        LimitLayout::PodTemplate { container } => ReadRoute::Pods {
            container: crate::dimension::copy_text(container),
        },
        LimitLayout::ClusterTopLevel => ReadRoute::Owner,
        _ => ReadRoute::Nowhere,
    }
}

/// The declared reservation on the owner object, as a text.
pub fn owner_request(owner: &Json, resource: &str) -> (r: Option<String>)
    ensures
        wanted(r) == crate::json::pointed_text(owner@, "/spec/resources/requests/"@ + resource@),
{
    let mut path = "/spec/resources/requests/".to_owned();
    path.append(resource);
    owned(owner.pointer_str(path.as_str()))
}

/// Whether a layout is backed by pods that can restart.
pub fn can_restart(layout: &LimitLayout) -> (r: bool)
    ensures
        r == (*layout is PodResize || *layout is PodTemplate),
{
    match layout {
        LimitLayout::PodResize { .. } | LimitLayout::PodTemplate { .. } => true,
        _ => false,
    }
}

/// A metric of the host is never read from the cluster.
pub fn refuse_host_source(source: &MetricSource) -> (r: Result<(), ProviderError>)
    ensures
        match *source {
            MetricSource::Host(_) => r matches Err(e) && e@ == ProviderErrorView::ApiPermanent(
                "host metric source on KubeCluster (route host dimensions to HostCluster)"@,
            ),
            _ => r is Ok,
        },
{
    match source {
        MetricSource::Host(_) => Err(
            ProviderError::permanent(
                "host metric source on KubeCluster (route host dimensions to HostCluster)",
            ),
        ),
        _ => Ok(()),
    }
}

// ─────────────────────── storage classes ───────────────────────

/// What a storage class says of itself.
#[derive(Debug, PartialEq, Eq)]
pub struct StorageClassFacts {
    /// Who provisions it.
    pub provisioner: String,
    /// Whether it lets a volume grow, where it says so.
    pub allow_volume_expansion: Option<bool>,
}

/// Whether a layout is backed by a volume, whose owner may name a storage class.
pub fn has_volume(layout: &LimitLayout) -> (r: bool)
    ensures
        r == (*layout is PvcRequest || *layout is ClusterStorage),
{
    match layout {
        LimitLayout::PvcRequest | LimitLayout::ClusterStorage => true,
        _ => false,
    }
}

/// The storage class that an owner names: a volume claim and a database cluster
/// do, nothing else.
pub fn storage_class_name_for(data: &Json, layout: &LimitLayout) -> (r: Option<String>)
    ensures
        wanted(r) == match *layout {
            LimitLayout::PvcRequest => crate::json::pointed_text(
                data@,
                "/spec/storageClassName"@,
            ),
            LimitLayout::ClusterStorage => crate::json::pointed_text(
                data@,
                "/spec/storage/storageClass"@,
            ),
            _ => None,
        },
{
    match layout {
        LimitLayout::PvcRequest => owned(data.pointer_str("/spec/storageClassName")),
        LimitLayout::ClusterStorage => owned(data.pointer_str("/spec/storage/storageClass")),
        _ => None,
    }
}

/// The provisioner is known to report the usage of a whole node, not of a volume.
pub open spec fn reports_the_node(provisioner: Seq<char>) -> bool {
    provisioner == "rancher.io/local-path"@ || provisioner == "kubernetes.io/host-path"@
}

/// What a storage class can do for a band.
pub fn storage_capability_from(sc: &StorageClassFacts) -> (r: StorageCapability)
    ensures
        r.volume_expansion == (sc.allow_volume_expansion == Some(true)),
        r.per_volume_metrics == !reports_the_node(sc.provisioner@),
        r.provisioner == sc.provisioner,
{
    let expands: bool = match sc.allow_volume_expansion {
        Some(b) => b,
        None => false,
    };
    let by_node: bool = same_text(sc.provisioner.as_str(), "rancher.io/local-path") || same_text(
        sc.provisioner.as_str(),
        "kubernetes.io/host-path",
    );
    StorageCapability {
        volume_expansion: expands,
        per_volume_metrics: !by_node,
        provisioner: sc.provisioner.clone(),
    }
}

// ─────────────────────── the door of requests ───────────────────────

/// Why a proof and a patch do not describe the same change; nothing where they do.
pub open spec fn disagreement(
    preserved: crate::request::PreservedView,
    resource: Seq<char>,
    value: u64,
    layout: LimitLayout,
) -> Option<Seq<char>> {
    if preserved.to != value {
        Some(
            "request actuation refused: the ClassPreserved witness authorizes a different value than the patch carries"@,
        )
    } else if preserved.resource.name() != resource {
        Some(
            "request actuation refused: the ClassPreserved witness authorizes a different resource than the patch carries"@,
        )
    } else {
        match layout {
            LimitLayout::PodRequestResize { container } => match container {
                Some(c) => if c@ != preserved.container {
                    Some(
                        "request actuation refused: the ClassPreserved witness authorizes a different container than the patch targets"@,
                    )
                } else {
                    None
                },
                None => None,
            },
            _ => Some(
                "request actuation refused: the patch does not carry the PodRequestResize layout (a request write must never travel a limit layout)"@,
            ),
        }
    }
}

/// Whether a proof and a patch describe the same change.
pub fn witness_matches_patch(preserved: &ClassPreserved, patch: &SsaPatch) -> (r: Result<
    (),
    ProviderError,
>)
    ensures
        match disagreement(preserved@, patch.resource@, patch.value, patch.layout) {
            Some(words) => r matches Err(e) && e@ == ProviderErrorView::ApiPermanent(words),
            None => r is Ok,
        },
{
    if preserved.to() != patch.value {
        return Err(
            ProviderError::permanent(
                "request actuation refused: the ClassPreserved witness authorizes a different value than the patch carries",
            ),
        );
    }
    if !same_text(preserved.resource().as_str(), patch.resource.as_str()) {
        return Err(
            ProviderError::permanent(
                "request actuation refused: the ClassPreserved witness authorizes a different resource than the patch carries",
            ),
        );
    }
    match &patch.layout {
        LimitLayout::PodRequestResize { container } => {
            match container {
                Some(c) => {
                    if !same_text(c.as_str(), preserved.container()) {
                        return Err(
                            ProviderError::permanent(
                                "request actuation refused: the ClassPreserved witness authorizes a different container than the patch targets",
                            ),
                        );
                    }
                },
                None => {},
            }
            Ok(())
        },
        _ => Err(
            ProviderError::permanent(
                "request actuation refused: the patch does not carry the PodRequestResize layout (a request write must never travel a limit layout)",
            ),
        ),
    }
}

/// What is planned in place always passes: its proof and its patch describe the
/// same change.
pub proof fn a_planned_carve_agrees_with_its_proof(
    input: crate::request::RequestCarveInput,
    c: crate::request::CarveView,
    layout: LimitLayout,
)
    requires
        crate::request::planned(input) == crate::request::PlanView::InPlace(c),
        crate::request::request_container(layout) == c.container,
    ensures
        disagreement(c.preserved, c.resource, c.value, layout) is None,
{
    crate::request::an_in_place_carve_keeps_every_bound(input, c);
}

// ─────────────────────── the replica band ───────────────────────

/// A replica count from a limit: one that does not fit is the largest that does.
pub fn replica_count(limit: u64) -> (r: u32)
    ensures
        r == if limit > u32::MAX {
            u32::MAX
        } else {
            limit as u32
        },
{
    if limit > u32::MAX as u64 {
        u32::MAX
    } else {
        limit as u32
    }
}

/// The query of the signal that drives a replica band: it must be a query.
pub fn signal_query(signal: &MetricSource) -> (r: Result<&String, ProviderError>)
    ensures
        match *signal {
            MetricSource::Prometheus(q) => r matches Ok(p) && *p == q,
            _ => r matches Err(e) && e@ == ProviderErrorView::ApiPermanent(
                "horizontal band signal must be a PromQL work-rate/utilization query, got "@
                    + crate::layout::source_words(*signal),
            ),
        },
{
    match signal {
        MetricSource::Prometheus(q) => Ok(q),
        other => {
            let mut s =
                "horizontal band signal must be a PromQL work-rate/utilization query, got ".to_owned();
            s.append(source_text(other).as_str());
            Err(ProviderError::ApiPermanent(s))
        },
    }
}

/// The query of the signal that counts replicas about to be reclaimed, where
/// there is one.
pub fn reclaim_query(reclaim: Option<&MetricSource>) -> (r: Option<&String>)
    ensures
        match reclaim {
            Some(MetricSource::Prometheus(q)) => r matches Some(p) && *p == *q,
            _ => r is None,
        },
{
    match reclaim {
        Some(MetricSource::Prometheus(q)) => Some(q),
        _ => None,
    }
}

} // verus!
