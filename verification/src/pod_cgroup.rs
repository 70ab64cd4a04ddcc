//! Where a live pod's control group lives, from the pod's own record.

use vstd::prelude::*;

use crate::dimension::copy_text;
use crate::json::{items_view, json_view, lemma_items_view, wanted, Json, JsonView};
use crate::layout::optional_text;
use crate::text::chars_of;

verus! {

/// What addresses a pod's control group.
#[derive(Debug, PartialEq, Eq)]
pub struct PodCgroupCoords {
    /// The pod's class.
    pub qos: String,
    /// The pod's identity.
    pub pod_uid: String,
    /// The container's identity at the runtime, with its scheme.
    pub container_runtime_id: String,
}

/// Why a pod has no address.
#[derive(Debug, PartialEq, Eq)]
pub enum PodCoordError {
    /// It has no identity yet.
    NoPodUid,
    /// It has no class yet.
    NoQosClass,
    /// The container does not run yet.
    NoContainerId { container: Option<String> },
}

impl PodCoordError {
    /// The error in words.
    pub open spec fn words(self) -> Seq<char> {
        match self {
            PodCoordError::NoPodUid => "pod has no metadata.uid"@,
            PodCoordError::NoQosClass => "pod has no status.qosClass (not yet scheduled)"@,
            PodCoordError::NoContainerId { container } => {
                "no running container with a containerID for "@ + crate::layout::optional_words(
                    container,
                ) + " (container not started)"@
            },
        }
    }

    /// The error in words.
    #[must_use]
    pub fn message(&self) -> (r: String)
        ensures
            r@ == self.words(),
    {
        match self {
            PodCoordError::NoPodUid => "pod has no metadata.uid".to_owned(),
            PodCoordError::NoQosClass => {
                "pod has no status.qosClass (not yet scheduled)".to_owned()
            },
            PodCoordError::NoContainerId { container } => {
                let mut s = "no running container with a containerID for ".to_owned();
                s.append(optional_text(container).as_str());
                s.append(" (container not started)");
                s
            },
        }
    }
}

/// The text, where it is not empty.
pub open spec fn non_empty(o: Option<Seq<char>>) -> Option<Seq<char>> {
    match o {
        Some(s) => if s.len() > 0 {
            Some(s)
        } else {
            None
        },
        None => None,
    }
}

fn if_not_empty(o: Option<&str>) -> (r: Option<String>)
    ensures
        wanted(r) == non_empty(crate::json::seen_text(o)),
{
    match o {
        Some(s) => {
            if chars_of(s).len() > 0 {
                Some(s.to_owned())
            } else {
                None
            }
        },
        None => None,
    }
}

/// The identity of a container that runs.
pub open spec fn runtime_id(status: JsonView) -> Option<Seq<char>> {
    non_empty(crate::json::member_text(status, "containerID"@))
}

/// The first identity among the containers.
pub open spec fn first_runtime_id(statuses: Seq<JsonView>) -> Option<Seq<char>>
    decreases statuses.len(),
{
    if statuses.len() == 0 {
        None
    } else {
        match runtime_id(statuses[0]) {
            Some(id) => Some(id),
            None => first_runtime_id(statuses.drop_first()),
        }
    }
}

/// The identity of the container that a name asks for, and of no other; without
/// a name, of the first that runs.
pub open spec fn container_id_of(pod: JsonView, want: Option<Seq<char>>) -> Option<Seq<char>> {
    match crate::json::pointed(pod, "/status/containerStatuses"@) {
        None => None,
        Some(j) => match j.items() {
            None => None,
            Some(statuses) => match want {
                Some(name) => match crate::json::named_item(statuses, name) {
                    Some(status) => runtime_id(status),
                    None => None,
                },
                None => first_runtime_id(statuses),
            },
        },
    }
}

/// The identity of a pod's container at the runtime.
#[must_use]
pub fn container_id_from_status(pod: &Json, want: &Option<String>) -> (r: Option<String>)
    ensures
        wanted(r) == container_id_of(pod@, wanted(*want)),
{
    let statuses = match pod.pointer("/status/containerStatuses") {
        None => {
            return None;
        },
        Some(j) => match j.as_array() {
            None => {
                return None;
            },
            Some(v) => v,
        },
    };
    if want.is_some() {
        return match crate::json::find_wanted(statuses, want) {
            Some(status) => if_not_empty(status.get_str("containerID")),
            None => None,
        };
    }
    let ghost all = items_view(statuses@);
    proof {
        lemma_items_view(statuses@);
        assert(all.skip(0) =~= all);
    }
    let mut i: usize = 0;
    while i < statuses.len()
        invariant
            i <= statuses.len(),
            all == items_view(statuses@),
            all.len() == statuses.len(),
            forall|k: int| 0 <= k < statuses.len() ==> #[trigger] all[k] == json_view(statuses@[k]),
            *want is None,
            container_id_of(pod@, None) == first_runtime_id(all),
            first_runtime_id(all) == first_runtime_id(all.skip(i as int)),
        decreases statuses.len() - i,
    {
        assert(all.skip(i as int)[0] == all[i as int]);
        assert(all.skip(i as int).drop_first() =~= all.skip(i + 1));
        let id = if_not_empty(statuses[i].get_str("containerID"));
        if id.is_some() {
            return id;
        }
        i = i + 1;
    }
    None
}

/// The node that a pod is scheduled on.
#[must_use]
pub fn node_name_from_pod(pod: &Json) -> (r: Option<String>)
    ensures
        wanted(r) == non_empty(crate::json::pointed_text(pod@, "/spec/nodeName"@)),
{
    if_not_empty(pod.pointer_str("/spec/nodeName"))
}

/// An address with its texts as characters.
pub struct CoordsView {
    /// The pod's class.
    pub qos: Seq<char>,
    /// The pod's identity.
    pub pod_uid: Seq<char>,
    /// The container's identity at the runtime.
    pub container_runtime_id: Seq<char>,
}

impl View for PodCgroupCoords {
    type V = CoordsView;

    open spec fn view(&self) -> CoordsView {
        CoordsView {
            qos: self.qos@,
            pod_uid: self.pod_uid@,
            container_runtime_id: self.container_runtime_id@,
        }
    }
}

/// A pod's address: the first of identity, class and container that is missing
/// is the error.
pub open spec fn coords_of(pod: JsonView, container: Option<String>) -> Result<
    CoordsView,
    PodCoordError,
> {
    match non_empty(crate::json::pointed_text(pod, "/metadata/uid"@)) {
        None => Err(PodCoordError::NoPodUid),
        Some(pod_uid) => match non_empty(crate::json::pointed_text(pod, "/status/qosClass"@)) {
            None => Err(PodCoordError::NoQosClass),
            Some(qos) => match container_id_of(pod, wanted(container)) {
                None => Err(PodCoordError::NoContainerId { container }),
                Some(id) => Ok(CoordsView { qos, pod_uid, container_runtime_id: id }),
            },
        },
    }
}

/// An address, or the error.
pub open spec fn coords_result(r: Result<PodCgroupCoords, PodCoordError>) -> Result<
    CoordsView,
    PodCoordError,
> {
    match r {
        Ok(c) => Ok(c@),
        Err(e) => Err(e),
    }
}

/// A pod's address.
pub fn pod_coords_from_value(pod: &Json, container: &Option<String>) -> (r: Result<
    PodCgroupCoords,
    PodCoordError,
>)
    ensures
        coords_result(r) == coords_of(pod@, *container),
{
    let pod_uid = match if_not_empty(pod.pointer_str("/metadata/uid")) {
        Some(s) => s,
        None => {
            return Err(PodCoordError::NoPodUid);
        },
    };
    let qos = match if_not_empty(pod.pointer_str("/status/qosClass")) {
        Some(s) => s,
        None => {
            return Err(PodCoordError::NoQosClass);
        },
    };
    match container_id_from_status(pod, container) {
        Some(id) => Ok(PodCgroupCoords { qos, pod_uid, container_runtime_id: id }),
        None => Err(PodCoordError::NoContainerId { container: copy_text(container) }),
    }
}

/// The addresses of the pods that have one, in order.
pub open spec fn all_coords(pods: Seq<JsonView>, container: Option<String>) -> Seq<CoordsView>
    decreases pods.len(),
{
    if pods.len() == 0 {
        Seq::empty()
    } else {
        match coords_of(pods.last(), container) {
            Ok(c) => all_coords(pods.drop_last(), container).push(c),
            Err(_) => all_coords(pods.drop_last(), container),
        }
    }
}

/// The views of a sequence of addresses.
pub open spec fn coords_view(v: Seq<PodCgroupCoords>) -> Seq<CoordsView> {
    v.map_values(|c: PodCgroupCoords| c@)
}

/// The addresses of a band's pods: a pod without one is left out.
#[must_use]
pub fn resolve_coords(pods: &Vec<Json>, container: &Option<String>) -> (r: Vec<PodCgroupCoords>)
    ensures
        coords_view(r@) == all_coords(items_view(pods@), *container),
{
    let mut r: Vec<PodCgroupCoords> = Vec::new();
    let ghost all = items_view(pods@);
    proof {
        lemma_items_view(pods@);
        assert(all.take(0) =~= Seq::<JsonView>::empty());
        assert(coords_view(r@) =~= all_coords(all.take(0), *container));
    }
    let mut i: usize = 0;
    while i < pods.len()
        invariant
            i <= pods.len(),
            all == items_view(pods@),
            all.len() == pods.len(),
            forall|k: int| 0 <= k < pods.len() ==> #[trigger] all[k] == json_view(pods@[k]),
            coords_view(r@) == all_coords(all.take(i as int), *container),
        decreases pods.len() - i,
    {
        assert(all.take(i + 1).drop_last() =~= all.take(i as int));
        assert(all.take(i + 1).last() == all[i as int]);
        let ghost before = r@;
        match pod_coords_from_value(&pods[i], container) {
            Ok(c) => {
                r.push(c);
                assert(coords_view(r@) =~= coords_view(before).push(c@));
            },
            Err(_) => {},
        }
        i = i + 1;
    }
    assert(all.take(all.len() as int) =~= all);
    r
}

/// The addresses and nodes of the pods that have both, in order.
pub open spec fn all_targets(pods: Seq<JsonView>, container: Option<String>) -> Seq<
    (CoordsView, Seq<char>),
>
    decreases pods.len(),
{
    if pods.len() == 0 {
        Seq::empty()
    } else {
        let rest = all_targets(pods.drop_last(), container);
        match (
            coords_of(pods.last(), container),
            non_empty(crate::json::pointed_text(pods.last(), "/spec/nodeName"@)),
        ) {
            (Ok(c), Some(node)) => rest.push((c, node)),
            _ => rest,
        }
    }
}

/// The views of a sequence of addresses and nodes.
pub open spec fn targets_view(v: Seq<(PodCgroupCoords, String)>) -> Seq<(CoordsView, Seq<char>)> {
    v.map_values(|t: (PodCgroupCoords, String)| (t.0@, t.1@))
}

/// The addresses and nodes of a band's pods: a pod without either is left out.
#[must_use]
pub fn resolve_soft_carve_targets(pods: &Vec<Json>, container: &Option<String>) -> (r: Vec<
    (PodCgroupCoords, String),
>)
    ensures
        targets_view(r@) == all_targets(items_view(pods@), *container),
{
    let mut r: Vec<(PodCgroupCoords, String)> = Vec::new();
    let ghost all = items_view(pods@);
    proof {
        lemma_items_view(pods@);
        assert(all.take(0) =~= Seq::<JsonView>::empty());
        assert(targets_view(r@) =~= all_targets(all.take(0), *container));
    }
    let mut i: usize = 0;
    while i < pods.len()
        invariant
            i <= pods.len(),
            all == items_view(pods@),
            all.len() == pods.len(),
            forall|k: int| 0 <= k < pods.len() ==> #[trigger] all[k] == json_view(pods@[k]),
            targets_view(r@) == all_targets(all.take(i as int), *container),
        decreases pods.len() - i,
    {
        assert(all.take(i + 1).drop_last() =~= all.take(i as int));
        assert(all.take(i + 1).last() == all[i as int]);
        let ghost before = r@;
        match (pod_coords_from_value(&pods[i], container), node_name_from_pod(&pods[i])) {
            (Ok(c), Some(node)) => {
                r.push((c, node));
                assert(targets_view(r@) =~= targets_view(before).push((c@, node@)));
            },
            _ => {},
        }
        i = i + 1;
    }
    assert(all.take(all.len() as int) =~= all);
    r
}

/// A named container is never answered with a sibling's identity: the one given
/// belongs to the first container of that name.
pub proof fn a_named_container_is_never_mixed_up(pod: JsonView, name: Seq<char>, id: Seq<char>)
    requires
        container_id_of(pod, Some(name)) == Some(id),
    ensures
        crate::json::pointed(pod, "/status/containerStatuses"@) matches Some(j) && (
        j.items() matches Some(statuses) && exists|i: int|
            0 <= i < statuses.len() && crate::json::member_text(
                #[trigger] statuses[i],
                "name"@,
            ) == Some(name) && runtime_id(statuses[i]) == Some(id)),
{
    let statuses = crate::json::pointed(pod, "/status/containerStatuses"@)->0.items()->0;
    lemma_named_item(statuses, name);
}

proof fn lemma_named_item(items: Seq<JsonView>, name: Seq<char>)
    ensures
        crate::json::named_item(items, name) matches Some(item) ==> exists|i: int|
            0 <= i < items.len() && (#[trigger] items[i]) == item && crate::json::member_text(
                item,
                "name"@,
            ) == Some(name),
    decreases items.len(),
{
    if items.len() > 0 {
        if crate::json::member_text(items[0], "name"@) == Some(name) {
            assert(items[0] == items[0]);
        } else {
            let rest = items.drop_first();
            lemma_named_item(rest, name);
            if crate::json::named_item(items, name) is Some {
                let item = crate::json::named_item(items, name)->0;
                let i = choose|i: int|
                    0 <= i < rest.len() && (#[trigger] rest[i]) == item
                        && crate::json::member_text(item, "name"@) == Some(name);
                assert(items[i + 1] == item);
            }
        }
    }
}

/// A text that is there and not empty.
pub open spec fn filled(o: Option<Seq<char>>) -> bool {
    o matches Some(s) && s.len() > 0
}

/// A container runs under its `containerID`, where that is not empty.
pub proof fn a_container_runs_under_its_id(status: JsonView, id: Seq<char>)
    ensures
        runtime_id(status) == Some(id) <==> crate::json::member_text(status, "containerID"@)
            == Some(id) && id.len() > 0,
{
}

/// Without a name asked for, the container is the first that runs.
pub proof fn the_first_running_container_is_taken(statuses: Seq<JsonView>, i: int)
    ensures
        0 <= i < statuses.len() && runtime_id(statuses[i]) is Some && (forall|j: int|
            0 <= j < i ==> runtime_id(#[trigger] statuses[j]) is None) ==> first_runtime_id(statuses)
            == runtime_id(statuses[i]),
        (forall|j: int| 0 <= j < statuses.len() ==> runtime_id(#[trigger] statuses[j]) is None)
            ==> first_runtime_id(statuses) is None,
    decreases statuses.len(),
{
    if statuses.len() > 0 {
        let rest = statuses.drop_first();
        the_first_running_container_is_taken(rest, i - 1);
        assert forall|j: int| 0 <= j < rest.len() implies rest[j] == #[trigger] statuses[j + 1] by {}
        if 0 < i < statuses.len() && (forall|j: int|
            0 <= j < i ==> runtime_id(#[trigger] statuses[j]) is None) {
            assert(runtime_id(statuses[0]) is None);
            assert(rest[i - 1] == statuses[i]);
            assert forall|j: int| 0 <= j < i - 1 implies runtime_id(#[trigger] rest[j]) is None by {
                assert(runtime_id(statuses[j + 1]) is None);
            }
        }
        if forall|j: int| 0 <= j < statuses.len() ==> runtime_id(#[trigger] statuses[j]) is None {
            assert(runtime_id(statuses[0]) is None);
            assert forall|j: int| 0 <= j < rest.len() implies runtime_id(
                #[trigger] rest[j],
            ) is None by {
                assert(runtime_id(statuses[j + 1]) is None);
            }
        }
    }
}

proof fn lemma_text_below2(j: JsonView, a: Seq<char>, b: Seq<char>, path: Seq<char>)
    requires
        crate::kube_laws::no_array_above(j, seq![a, b]),
        crate::json::plain_key(a),
        crate::json::plain_key(b),
        path == "/"@ + a + "/"@ + b,
    ensures
        crate::json::pointed(j, path) == crate::kube_laws::below(j, seq![a, b]),
        crate::json::pointed_text(j, path) == crate::kube_laws::text_below(j, seq![a, b]),
{
    let keys = seq![a, b];
    let rest = keys.drop_first();
    assert(rest =~= seq![b]);
    assert(rest.drop_first() =~= Seq::<Seq<char>>::empty());
    reveal_with_fuel(crate::kube::slash_path, 3);
    assert(crate::kube::slash_path(keys) =~= path);
    crate::kube_laws::a_pointer_descends_by_its_keys(j, keys);
}

/// What a pod's address is made of: its `metadata.uid`, its `status.qosClass` and
/// the identity of the asked container among its `status.containerStatuses`, or of
/// the first that runs. The first of the three that is missing is the error.
pub proof fn an_address_is_made_of_the_pods_own_record(pod: JsonView, container: Option<String>)
    requires
        crate::kube_laws::no_array_above(pod, seq!["metadata"@, "uid"@]),
        crate::kube_laws::no_array_above(pod, seq!["status"@, "qosClass"@]),
        crate::kube_laws::no_array_above(pod, seq!["status"@, "containerStatuses"@]),
    ensures
        ({
            let uid = crate::kube_laws::text_below(pod, seq!["metadata"@, "uid"@]);
            let class = crate::kube_laws::text_below(pod, seq!["status"@, "qosClass"@]);
            let id = match crate::kube_laws::below(pod, seq!["status"@, "containerStatuses"@]) {
                Some(JsonView::Array(statuses)) => match container {
                    Some(name) => match crate::json::named_item(statuses, name@) {
                        Some(s) => runtime_id(s),
                        None => None,
                    },
                    None => first_runtime_id(statuses),
                },
                _ => None,
            };
            &&& !filled(uid) ==> coords_of(pod, container) == Err::<CoordsView, PodCoordError>(
                PodCoordError::NoPodUid,
            )
            &&& filled(uid) && !filled(class) ==> coords_of(pod, container) == Err::<
                CoordsView,
                PodCoordError,
            >(PodCoordError::NoQosClass)
            &&& filled(uid) && filled(class) && id is None ==> coords_of(pod, container) == Err::<
                CoordsView,
                PodCoordError,
            >(PodCoordError::NoContainerId { container })
            &&& filled(uid) && filled(class) && id is Some ==> coords_of(pod, container) == Ok::<
                CoordsView,
                PodCoordError,
            >(CoordsView { qos: class->0, pod_uid: uid->0, container_runtime_id: id->0 })
        }),
{
    reveal_strlit("/");
    reveal_strlit("metadata");
    reveal_strlit("uid");
    reveal_strlit("status");
    reveal_strlit("qosClass");
    reveal_strlit("containerStatuses");
    reveal_strlit("/metadata/uid");
    reveal_strlit("/status/qosClass");
    reveal_strlit("/status/containerStatuses");
    assert("/metadata/uid"@ =~= "/"@ + "metadata"@ + "/"@ + "uid"@);
    assert("/status/qosClass"@ =~= "/"@ + "status"@ + "/"@ + "qosClass"@);
    assert("/status/containerStatuses"@ =~= "/"@ + "status"@ + "/"@ + "containerStatuses"@);
    lemma_text_below2(pod, "metadata"@, "uid"@, "/metadata/uid"@);
    lemma_text_below2(pod, "status"@, "qosClass"@, "/status/qosClass"@);
    lemma_text_below2(pod, "status"@, "containerStatuses"@, "/status/containerStatuses"@);
}

/// Each pod with an address adds it behind those in front of it; where the node
/// counts too, each pod with both adds its own address with its own
/// `spec.nodeName`.
pub proof fn each_pod_adds_its_own_address(
    pods: Seq<JsonView>,
    pod: JsonView,
    container: Option<String>,
)
    requires
        crate::kube_laws::no_array_above(pod, seq!["spec"@, "nodeName"@]),
    ensures
        all_coords(Seq::empty(), container).len() == 0,
        all_targets(Seq::empty(), container).len() == 0,
        all_coords(pods.push(pod), container) == match coords_of(pod, container) {
            Ok(c) => all_coords(pods, container).push(c),
            Err(_) => all_coords(pods, container),
        },
        ({
            let node = crate::kube_laws::text_below(pod, seq!["spec"@, "nodeName"@]);
            all_targets(pods.push(pod), container) == if coords_of(pod, container) is Ok && filled(
                node,
            ) {
                all_targets(pods, container).push((coords_of(pod, container)->Ok_0, node->0))
            } else {
                all_targets(pods, container)
            }
        }),
{
    reveal_strlit("/");
    reveal_strlit("spec");
    reveal_strlit("nodeName");
    reveal_strlit("/spec/nodeName");
    assert("/spec/nodeName"@ =~= "/"@ + "spec"@ + "/"@ + "nodeName"@);
    lemma_text_below2(pod, "spec"@, "nodeName"@, "/spec/nodeName"@);
    assert(pods.push(pod).drop_last() =~= pods);
}

} // verus!
