//! What is read from Kubernetes objects, and what is written to them, member by
//! member.

use vstd::prelude::*;

use crate::dimension::Target;
use crate::json::{
    joined, member_text, named_item, plain_key, pointed, pointed_text, token_step, walk, JsonView,
};
use crate::kube::{
    any_read, api_version_of, apply_plan_of, body_of, container_name_of,
    container_usages, disagreement, group_usages, group_version_of, highest_of, in_group,
    label_pairs, limit_block, not_required, owner_selector_of, pod_class, pod_quantities_of,
    pod_quantity, pod_restarts, pod_usages, quantity_of, reports_the_node, request_block,
    resize_body_of, resized_container, resizes_of, slash_path, status_restarts, template_spec,
    the_highest_bounds_every_reading, under_spec, written_path, ApplyPlanView, LiveObject,
};
use crate::layout::{LimitLayout, SsaPatch};
use crate::text::decimal;

verus! {

// ─────────────────────── members ───────────────────────

/// The member of an object is the value of the first pair with the key; an object
/// without such a pair, and anything else, has none.
pub proof fn a_member_is_the_first_with_its_key(
    m: Seq<(Seq<char>, JsonView)>,
    key: Seq<char>,
    i: int,
)
    ensures
        0 <= i < m.len() && m[i].0 == key && (forall|j: int|
            0 <= j < i ==> (#[trigger] m[j]).0 != key) ==> JsonView::Object(m).member(key) == Some(
            m[i].1,
        ),
        (forall|j: int| 0 <= j < m.len() ==> (#[trigger] m[j]).0 != key) ==> JsonView::Object(
            m,
        ).member(key) is None,
    decreases m.len(),
{
    if m.len() > 0 {
        let rest = m.drop_first();
        assert forall|j: int| 0 <= j < rest.len() implies rest[j] == #[trigger] m[j + 1] by {}
        a_member_is_the_first_with_its_key(rest, key, i - 1);
        if 0 < i < m.len() && m[i].0 == key && (forall|j: int|
            0 <= j < i ==> (#[trigger] m[j]).0 != key) {
            assert(rest[i - 1] == m[i]);
            assert(m[0].0 != key);
            assert forall|j: int| 0 <= j < i - 1 implies (#[trigger] rest[j]).0 != key by {
                assert(m[j + 1].0 != key);
            }
        }
        if forall|j: int| 0 <= j < m.len() ==> (#[trigger] m[j]).0 != key {
            assert(m[0].0 != key);
            assert forall|j: int| 0 <= j < rest.len() implies (#[trigger] rest[j]).0 != key by {
                assert(m[j + 1].0 != key);
            }
        }
    }
}

/// What stands below the members with the keys, one below the other.
pub open spec fn below(j: JsonView, keys: Seq<Seq<char>>) -> Option<JsonView>
    decreases keys.len(),
{
    if keys.len() == 0 {
        Some(j)
    } else {
        match j.member(keys[0]) {
            Some(next) => below(next, keys.drop_first()),
            None => None,
        }
    }
}

/// The string below the members with the keys.
pub open spec fn text_below(j: JsonView, keys: Seq<Seq<char>>) -> Option<Seq<char>> {
    match below(j, keys) {
        Some(JsonView::Text(s)) => Some(s),
        _ => None,
    }
}

/// No array stands on the way below the members with the keys.
pub open spec fn no_array_above(j: JsonView, keys: Seq<Seq<char>>) -> bool
    decreases keys.len(),
{
    keys.len() > 0 ==> !(j is Array) && (j.member(keys[0]) matches Some(next) ==> no_array_above(
        next,
        keys.drop_first(),
    ))
}

/// Every key stands for itself in a pointer.
pub open spec fn plain_keys(keys: Seq<Seq<char>>) -> bool {
    forall|i: int| 0 <= i < keys.len() ==> plain_key(#[trigger] keys[i])
}

proof fn lemma_slash_path_starts(keys: Seq<Seq<char>>)
    ensures
        slash_path(keys).len() == 0 || slash_path(keys)[0] == '/',
        keys.len() > 0 ==> slash_path(keys).len() > 0,
{
    reveal_strlit("/");
}

/// A pointer made of plain keys points to what stands below those members.
pub proof fn a_pointer_descends_by_its_keys(j: JsonView, keys: Seq<Seq<char>>)
    requires
        plain_keys(keys),
        no_array_above(j, keys),
    ensures
        pointed(j, slash_path(keys)) == below(j, keys),
        pointed_text(j, slash_path(keys)) == text_below(j, keys),
    decreases keys.len(),
{
    reveal_strlit("/");
    if keys.len() > 0 {
        let rest = keys.drop_first();
        assert forall|i: int| 0 <= i < rest.len() implies plain_key(#[trigger] rest[i]) by {
            assert(rest[i] == keys[i + 1]);
        }
        lemma_slash_path_starts(rest);
        if j is Object {
            crate::json::lemma_point_into(j, keys[0], slash_path(rest));
            if j.member(keys[0]) is Some {
                a_pointer_descends_by_its_keys(j.member(keys[0])->0, rest);
            }
        } else {
            let path = slash_path(keys);
            let tokens = crate::text::pieces(path.skip(1), '/');
            assert(tokens.len() > 0);
            assert(token_step(j, tokens[0]) is None);
            assert(walk(j, tokens) is None);
        }
    }
}

// ─────────────────────── usages of pods ───────────────────────

/// What a container's metrics say that it uses of the resource.
pub open spec fn usage_in(container: JsonView, resource: Seq<char>) -> Option<Seq<char>> {
    text_below(container, seq!["usage"@, resource])
}

/// The metrics of a container are objects.
pub open spec fn are_objects(container: JsonView) -> bool {
    !(container is Array) && (container.member("usage"@) matches Some(u) ==> !(u is Array))
}

proof fn lemma_usage_path(container: JsonView, resource: Seq<char>)
    requires
        are_objects(container),
        plain_key(resource),
    ensures
        pointed_text(container, "/usage/"@ + resource) == usage_in(container, resource),
{
    reveal_strlit("/usage/");
    reveal_strlit("usage");
    reveal_strlit("/");
    let keys = seq!["usage"@, resource];
    let rest = keys.drop_first();
    assert(rest =~= seq![resource]);
    assert(rest.drop_first() =~= Seq::<Seq<char>>::empty());
    reveal_with_fuel(slash_path, 3);
    reveal_with_fuel(no_array_above, 3);
    assert(slash_path(keys) =~= "/usage/"@ + resource);
    assert(plain_keys(keys)) by {
        assert(plain_key("usage"@));
    }
    a_pointer_descends_by_its_keys(container, keys);
}

/// The usages of a pod are those of its containers, all of them and nothing else,
/// in their order.
pub proof fn each_container_gives_its_usage(
    containers: Seq<JsonView>,
    c: JsonView,
    resource: Seq<char>,
)
    requires
        are_objects(c),
        plain_key(resource),
    ensures
        container_usages(Seq::empty(), resource).len() == 0,
        container_usages(containers.push(c), resource) == match usage_in(c, resource) {
            Some(u) => container_usages(containers, resource).push(u),
            None => container_usages(containers, resource),
        },
{
    lemma_usage_path(c, resource);
    assert(containers.push(c).drop_last() =~= containers);
}

/// Every usage of every container is among a pod's usages, and nothing else is.
pub proof fn a_pods_usages_are_those_of_its_containers(
    containers: Seq<JsonView>,
    resource: Seq<char>,
    u: Seq<char>,
)
    requires
        plain_key(resource),
        forall|i: int| 0 <= i < containers.len() ==> are_objects(#[trigger] containers[i]),
    ensures
        container_usages(containers, resource).contains(u) <==> exists|i: int|
            0 <= i < containers.len() && usage_in(#[trigger] containers[i], resource) == Some(u),
    decreases containers.len(),
{
    if containers.len() > 0 {
        let init = containers.drop_last();
        let c = containers.last();
        assert forall|i: int| 0 <= i < init.len() implies are_objects(#[trigger] init[i]) by {
            assert(are_objects(containers[i]));
        }
        assert(are_objects(containers[containers.len() - 1]));
        a_pods_usages_are_those_of_its_containers(init, resource, u);
        each_container_gives_its_usage(init, c, resource);
        assert(init.push(c) =~= containers);
        let before = container_usages(init, resource);
        let all = container_usages(containers, resource);
        if before.contains(u) {
            let k = choose|k: int| 0 <= k < before.len() && before[k] == u;
            assert(all[k] == u);
            let i = choose|i: int|
                0 <= i < init.len() && usage_in(#[trigger] init[i], resource) == Some(u);
            assert(containers[i] == init[i]);
        } else if usage_in(c, resource) == Some(u) {
            assert(all[before.len() as int] == u);
            assert(usage_in(containers[containers.len() - 1], resource) == Some(u));
        } else {
            if all.contains(u) {
                let k = choose|k: int| 0 <= k < all.len() && all[k] == u;
                assert(k < before.len() ==> before[k] == u);
            }
            if exists|i: int|
                0 <= i < containers.len() && usage_in(#[trigger] containers[i], resource) == Some(
                    u,
                ) {
                let i = choose|i: int|
                    0 <= i < containers.len() && usage_in(#[trigger] containers[i], resource)
                        == Some(u);
                if i < init.len() {
                    assert(init[i] == containers[i]);
                }
            }
        }
    }
}

/// The metrics of a pod hold the usages of what stands in their member
/// `containers`.
pub proof fn a_pods_containers_stand_in_its_metrics(metrics: JsonView, resource: Seq<char>)
    requires
        !(metrics is Array),
    ensures
        pod_usages(metrics, resource) == match metrics.member("containers"@) {
            Some(JsonView::Array(containers)) => container_usages(containers, resource),
            _ => Seq::empty(),
        },
{
    reveal_strlit("/containers");
    reveal_strlit("containers");
    reveal_strlit("/");
    let keys = seq!["containers"@];
    assert(keys.drop_first() =~= Seq::<Seq<char>>::empty());
    reveal_with_fuel(slash_path, 2);
    reveal_with_fuel(below, 2);
    reveal_with_fuel(no_array_above, 2);
    assert(slash_path(keys) =~= "/containers"@);
    assert(plain_keys(keys));
    a_pointer_descends_by_its_keys(metrics, keys);
}

/// A pod belongs to a group that a selector chose, whatever its name; without a
/// selector exactly where its name starts with the prefix.
pub proof fn a_group_is_chosen_by_selector_or_by_prefix(
    pod: LiveObject,
    pod_prefix: Seq<char>,
    by_selector: bool,
)
    ensures
        by_selector ==> in_group(pod, pod_prefix, by_selector),
        !by_selector ==> (in_group(pod, pod_prefix, by_selector) <==> match pod.name {
            Some(n) => n@.len() >= pod_prefix.len() && n@.take(pod_prefix.len() as int)
                == pod_prefix,
            None => pod_prefix.len() == 0,
        }),
{
    match pod.name {
        Some(n) => {
            if n@.len() >= pod_prefix.len() {
                assert(n@.take(pod_prefix.len() as int) =~= n@.subrange(
                    0,
                    pod_prefix.len() as int,
                ));
            }
        },
        None => {
            assert(pod_prefix.len() == 0 ==> pod_prefix =~= Seq::<char>::empty());
            assert(Seq::<char>::empty().subrange(0, 0) =~= Seq::<char>::empty());
        },
    }
}

/// Each pod of the group adds all its usages behind those of the pods in front of
/// it, and a pod outside adds none.
pub proof fn each_pod_of_a_group_adds_its_usages(
    items: Seq<LiveObject>,
    pod: LiveObject,
    resource: Seq<char>,
    pod_prefix: Seq<char>,
    by_selector: bool,
)
    ensures
        group_usages(Seq::empty(), resource, pod_prefix, by_selector).len() == 0,
        group_usages(items.push(pod), resource, pod_prefix, by_selector) == group_usages(
            items,
            resource,
            pod_prefix,
            by_selector,
        ) + if in_group(pod, pod_prefix, by_selector) {
            pod_usages(pod.data@, resource)
        } else {
            Seq::empty()
        },
{
    assert(items.push(pod).drop_last() =~= items);
    let rest = group_usages(items, resource, pod_prefix, by_selector);
    assert(rest + Seq::<Seq<char>>::empty() =~= rest);
}

/// Every usage of every pod in the group is among the group's usages, and nothing
/// else is.
pub proof fn a_groups_usages_are_those_of_its_pods(
    items: Seq<LiveObject>,
    resource: Seq<char>,
    pod_prefix: Seq<char>,
    by_selector: bool,
    u: Seq<char>,
)
    ensures
        group_usages(items, resource, pod_prefix, by_selector).contains(u) <==> exists|i: int|
            0 <= i < items.len() && in_group(#[trigger] items[i], pod_prefix, by_selector)
                && pod_usages(items[i].data@, resource).contains(u),
    decreases items.len(),
{
    if items.len() > 0 {
        let init = items.drop_last();
        let pod = items.last();
        a_groups_usages_are_those_of_its_pods(init, resource, pod_prefix, by_selector, u);
        each_pod_of_a_group_adds_its_usages(init, pod, resource, pod_prefix, by_selector);
        assert(init.push(pod) =~= items);
        assert(items[items.len() - 1] == pod);
        assert forall|i: int| 0 <= i < init.len() implies init[i] == #[trigger] items[i] by {}
        let before = group_usages(init, resource, pod_prefix, by_selector);
        let own = pod_usages(pod.data@, resource);
        let all = group_usages(items, resource, pod_prefix, by_selector);
        if before.contains(u) {
            let k = choose|k: int| 0 <= k < before.len() && before[k] == u;
            assert(all[k] == u);
            let i = choose|i: int|
                0 <= i < init.len() && in_group(#[trigger] init[i], pod_prefix, by_selector)
                    && pod_usages(init[i].data@, resource).contains(u);
            assert(in_group(items[i], pod_prefix, by_selector));
        }
        if in_group(pod, pod_prefix, by_selector) && own.contains(u) {
            let k = choose|k: int| 0 <= k < own.len() && own[k] == u;
            assert(all[before.len() + k] == u);
        }
        if all.contains(u) {
            let k = choose|k: int| 0 <= k < all.len() && all[k] == u;
            if k < before.len() {
                assert(before[k] == u);
            } else {
                assert(own[k - before.len()] == u);
            }
        }
        if exists|i: int|
            0 <= i < items.len() && in_group(#[trigger] items[i], pod_prefix, by_selector)
                && pod_usages(items[i].data@, resource).contains(u) {
            let i = choose|i: int|
                0 <= i < items.len() && in_group(#[trigger] items[i], pod_prefix, by_selector)
                    && pod_usages(items[i].data@, resource).contains(u);
            if i < init.len() {
                assert(in_group(init[i], pod_prefix, by_selector));
            }
        }
    }
}

/// The highest of readings is a reading wherever one could be read, and no reading
/// exceeds it; one more reading never lowers it.
pub proof fn one_more_reading_never_lowers_the_highest(parsed: Seq<Option<u64>>, o: Option<u64>)
    ensures
        highest_of(Seq::empty()) == 0,
        highest_of(parsed.push(o)) >= highest_of(parsed),
        o is None ==> highest_of(parsed.push(o)) == highest_of(parsed),
        o matches Some(v) ==> highest_of(parsed.push(o)) >= v && (highest_of(parsed.push(o)) == v
            || highest_of(parsed.push(o)) == highest_of(parsed)),
{
    the_highest_bounds_every_reading(parsed);
    assert(parsed.push(o).drop_last() =~= parsed);
}

// ─────────────────────── quantities of pods and owners ───────────────────────

/// A container is found by its name: the first of the containers that has it.
pub proof fn a_container_is_found_by_its_name(items: Seq<JsonView>, name: Seq<char>, i: int)
    requires
        0 <= i < items.len(),
        member_text(items[i], "name"@) == Some(name),
        forall|j: int| 0 <= j < i ==> member_text(#[trigger] items[j], "name"@) != Some(name),
    ensures
        named_item(items, name) == Some(items[i]),
    decreases items.len(),
{
    if i > 0 {
        let rest = items.drop_first();
        assert(member_text(items[0], "name"@) != Some(name));
        assert forall|j: int| 0 <= j < i - 1 implies member_text(#[trigger] rest[j], "name"@)
            != Some(name) by {
            assert(member_text(items[j + 1], "name"@) != Some(name));
        }
        assert(rest[i - 1] == items[i]);
        a_container_is_found_by_its_name(rest, name, i - 1);
    }
}

/// No container is found by a name that none has.
pub proof fn a_container_without_the_name_is_not_found(items: Seq<JsonView>, name: Seq<char>)
    requires
        forall|j: int|
            0 <= j < items.len() ==> member_text(#[trigger] items[j], "name"@) != Some(name),
    ensures
        named_item(items, name) is None,
    decreases items.len(),
{
    if items.len() > 0 {
        let rest = items.drop_first();
        assert(member_text(items[0], "name"@) != Some(name));
        assert forall|j: int| 0 <= j < rest.len() implies member_text(#[trigger] rest[j], "name"@)
            != Some(name) by {
            assert(member_text(items[j + 1], "name"@) != Some(name));
        }
        a_container_without_the_name_is_not_found(rest, name);
    }
}

/// Where the wanted container stands: the first with the name, or without one the
/// first of all.
pub open spec fn is_wanted(items: Seq<JsonView>, want: Option<Seq<char>>, i: int) -> bool {
    &&& 0 <= i < items.len()
    &&& match want {
        Some(name) => member_text(items[i], "name"@) == Some(name) && forall|j: int|
            0 <= j < i ==> member_text(#[trigger] items[j], "name"@) != Some(name),
        None => i == 0,
    }
}

proof fn lemma_wanted(items: Seq<JsonView>, want: Option<Seq<char>>, i: int)
    requires
        is_wanted(items, want, i),
    ensures
        crate::json::wanted_item(items, want) == Some(items[i]),
{
    if want is Some {
        a_container_is_found_by_its_name(items, want->0, i);
    }
}

proof fn lemma_path1(a: Seq<char>)
    ensures
        slash_path(seq![a]) == "/"@ + a,
{
    assert(seq![a].drop_first() =~= Seq::<Seq<char>>::empty());
    reveal_with_fuel(slash_path, 2);
    assert("/"@ + a + Seq::<char>::empty() =~= "/"@ + a);
}

proof fn lemma_path2(a: Seq<char>, b: Seq<char>)
    ensures
        slash_path(seq![a, b]) == "/"@ + a + ("/"@ + b),
{
    assert(seq![a, b].drop_first() =~= seq![b]);
    lemma_path1(b);
}

proof fn lemma_path3(a: Seq<char>, b: Seq<char>, c: Seq<char>)
    ensures
        slash_path(seq![a, b, c]) == "/"@ + a + ("/"@ + b + ("/"@ + c)),
{
    assert(seq![a, b, c].drop_first() =~= seq![b, c]);
    lemma_path2(b, c);
}

proof fn lemma_path4(a: Seq<char>, b: Seq<char>, c: Seq<char>, d: Seq<char>)
    ensures
        slash_path(seq![a, b, c, d]) == "/"@ + a + ("/"@ + b + ("/"@ + c + ("/"@ + d))),
{
    assert(seq![a, b, c, d].drop_first() =~= seq![b, c, d]);
    lemma_path3(b, c, d);
}

/// A container's limit or request on a pod is what stands, in the wanted container
/// of `spec.containers`, below `resources`, the kind and the resource.
pub proof fn a_pods_quantity_is_its_containers(
    pod: JsonView,
    items: Seq<JsonView>,
    container: Option<Seq<char>>,
    kind: Seq<char>,
    resource: Seq<char>,
    i: int,
)
    requires
        no_array_above(pod, seq!["spec"@, "containers"@]),
        below(pod, seq!["spec"@, "containers"@]) == Some(JsonView::Array(items)),
        is_wanted(items, container, i),
        no_array_above(items[i], seq!["resources"@, kind, resource]),
        plain_key(kind),
        plain_key(resource),
    ensures
        pod_quantity(pod, container, kind, resource) == text_below(
            items[i],
            seq!["resources"@, kind, resource],
        ),
{
    reveal_strlit("/spec/containers");
    reveal_strlit("spec");
    reveal_strlit("containers");
    reveal_strlit("resources");
    reveal_strlit("/resources/");
    reveal_strlit("/");
    lemma_path2("spec"@, "containers"@);
    lemma_path3("resources"@, kind, resource);
    assert("/"@ + "spec"@ + ("/"@ + "containers"@) =~= "/spec/containers"@);
    assert("/"@ + "resources"@ + ("/"@ + kind + ("/"@ + resource)) =~= "/resources/"@ + kind + "/"@
        + resource);
    lemma_wanted(items, container, i);
    a_pointer_descends_by_its_keys(pod, seq!["spec"@, "containers"@]);
    a_pointer_descends_by_its_keys(items[i], seq!["resources"@, kind, resource]);
}

/// Each pod adds its quantity behind those of the pods in front of it, where it has
/// one.
pub proof fn each_pod_gives_its_quantity(
    pods: Seq<LiveObject>,
    pod: LiveObject,
    container: Option<Seq<char>>,
    kind: Seq<char>,
    resource: Seq<char>,
)
    ensures
        pod_quantities_of(Seq::empty(), container, kind, resource).len() == 0,
        pod_quantities_of(pods.push(pod), container, kind, resource) == match pod_quantity(
            pod.data@,
            container,
            kind,
            resource,
        ) {
            Some(q) => pod_quantities_of(pods, container, kind, resource).push(q),
            None => pod_quantities_of(pods, container, kind, resource),
        },
{
    assert(pods.push(pod).drop_last() =~= pods);
}

/// The quantity of every pod is among those of the pods, and nothing else is.
pub proof fn quantities_are_those_of_the_pods(
    pods: Seq<LiveObject>,
    container: Option<Seq<char>>,
    kind: Seq<char>,
    resource: Seq<char>,
    q: Seq<char>,
)
    ensures
        pod_quantities_of(pods, container, kind, resource).contains(q) <==> exists|i: int|
            0 <= i < pods.len() && pod_quantity(
                (#[trigger] pods[i]).data@,
                container,
                kind,
                resource,
            ) == Some(q),
    decreases pods.len(),
{
    if pods.len() > 0 {
        let init = pods.drop_last();
        let pod = pods.last();
        quantities_are_those_of_the_pods(init, container, kind, resource, q);
        assert(pods[pods.len() - 1] == pod);
        assert forall|i: int| 0 <= i < init.len() implies init[i] == #[trigger] pods[i] by {}
        let before = pod_quantities_of(init, container, kind, resource);
        let all = pod_quantities_of(pods, container, kind, resource);
        if before.contains(q) {
            let k = choose|k: int| 0 <= k < before.len() && before[k] == q;
            assert(all[k] == q);
            let i = choose|i: int|
                0 <= i < init.len() && pod_quantity(
                    (#[trigger] init[i]).data@,
                    container,
                    kind,
                    resource,
                ) == Some(q);
            assert(pod_quantity(pods[i].data@, container, kind, resource) == Some(q));
        }
        if pod_quantity(pod.data@, container, kind, resource) == Some(q) {
            assert(all[before.len() as int] == q);
        }
        if all.contains(q) {
            let k = choose|k: int| 0 <= k < all.len() && all[k] == q;
            if k < before.len() {
                assert(before[k] == q);
            }
        }
        if exists|i: int|
            0 <= i < pods.len() && pod_quantity(
                (#[trigger] pods[i]).data@,
                container,
                kind,
                resource,
            ) == Some(q) {
            let i = choose|i: int|
                0 <= i < pods.len() && pod_quantity(
                    (#[trigger] pods[i]).data@,
                    container,
                    kind,
                    resource,
                ) == Some(q);
            if i < init.len() {
                assert(pod_quantity(init[i].data@, container, kind, resource) == Some(q));
            }
        }
    }
}

/// A number or a text that stands in an object, as a text.
pub open spec fn printed(o: Option<JsonView>, s: Option<Seq<char>>) -> bool {
    &&& o is None ==> s is None
    &&& o matches Some(JsonView::Text(t)) ==> s == Some(t)
    &&& o matches Some(JsonView::Number(n)) ==> s == Some(n)
}

/// Where an owner's quantity stands: the limit of a cluster object below
/// `spec.resources.limits`, the request of a volume claim below
/// `spec.resources.requests.storage`, the size of a cluster's storage below
/// `spec.storage.size`, the replicas below `spec.replicas`.
pub proof fn an_owners_quantity_stands_below_its_spec(
    data: JsonView,
    layout: LimitLayout,
    resource: Seq<char>,
)
    requires
        plain_key(resource),
        no_array_above(data, seq!["spec"@, "resources"@, "limits"@, resource]),
        no_array_above(data, seq!["spec"@, "resources"@, "requests"@, "storage"@]),
        no_array_above(data, seq!["spec"@, "storage"@, "size"@]),
        no_array_above(data, seq!["spec"@, "replicas"@]),
    ensures
        layout is ClusterTopLevel ==> quantity_of(data, layout, resource) == text_below(
            data,
            seq!["spec"@, "resources"@, "limits"@, resource],
        ),
        layout is PvcRequest ==> quantity_of(data, layout, resource) == text_below(
            data,
            seq!["spec"@, "resources"@, "requests"@, "storage"@],
        ),
        layout is ClusterStorage ==> quantity_of(data, layout, resource) == text_below(
            data,
            seq!["spec"@, "storage"@, "size"@],
        ),
        layout is Replica ==> printed(
            below(data, seq!["spec"@, "replicas"@]),
            quantity_of(data, layout, resource),
        ),
        layout is PodResize || layout is PodRequestResize || layout is Host || layout is ConfigFile
            || layout is ApiCall || layout is PodNetworkBandwidth ==> quantity_of(
            data,
            layout,
            resource,
        ) is None,
{
    reveal_strlit("spec");
    reveal_strlit("resources");
    reveal_strlit("limits");
    reveal_strlit("requests");
    reveal_strlit("storage");
    reveal_strlit("size");
    reveal_strlit("replicas");
    reveal_strlit("/");
    reveal_strlit("/spec/resources/limits/");
    reveal_strlit("/spec/resources/requests/storage");
    reveal_strlit("/spec/storage/size");
    reveal_strlit("/spec/replicas");
    lemma_path4("spec"@, "resources"@, "limits"@, resource);
    lemma_path4("spec"@, "resources"@, "requests"@, "storage"@);
    lemma_path3("spec"@, "storage"@, "size"@);
    lemma_path2("spec"@, "replicas"@);
    assert("/"@ + "spec"@ + ("/"@ + "resources"@ + ("/"@ + "limits"@ + ("/"@ + resource)))
        =~= "/spec/resources/limits/"@ + resource);
    assert("/"@ + "spec"@ + ("/"@ + "resources"@ + ("/"@ + "requests"@ + ("/"@ + "storage"@)))
        =~= "/spec/resources/requests/storage"@);
    assert("/"@ + "spec"@ + ("/"@ + "storage"@ + ("/"@ + "size"@)) =~= "/spec/storage/size"@);
    assert("/"@ + "spec"@ + ("/"@ + "replicas"@) =~= "/spec/replicas"@);
    a_pointer_descends_by_its_keys(data, seq!["spec"@, "resources"@, "limits"@, resource]);
    a_pointer_descends_by_its_keys(data, seq!["spec"@, "resources"@, "requests"@, "storage"@]);
    a_pointer_descends_by_its_keys(data, seq!["spec"@, "storage"@, "size"@]);
    a_pointer_descends_by_its_keys(data, seq!["spec"@, "replicas"@]);
}

/// The quantity of a layout with a field path is what stands at that path.
pub proof fn a_quantity_at_a_path_stands_there(
    data: JsonView,
    layout: LimitLayout,
    resource: Seq<char>,
    keys: Seq<Seq<char>>,
)
    requires
        plain_keys(keys),
        no_array_above(data, keys),
        (layout matches LimitLayout::CrField { field_path, .. } && field_path@ == slash_path(keys))
            || (layout matches LimitLayout::DestinationRuleField { field_path, .. } && field_path@
            == slash_path(keys)) || (layout matches LimitLayout::NamespaceEnvelope {
            field_path,
            ..
        } && field_path@ == slash_path(keys)) || (layout matches LimitLayout::ControllerSetpoint {
            field_path,
            ..
        } && field_path@ == slash_path(keys)),
    ensures
        printed(below(data, keys), quantity_of(data, layout, resource)),
{
    a_pointer_descends_by_its_keys(data, keys);
}

/// The quantity of a pod template is the limit of the wanted container among those
/// of `spec.template.spec.containers`.
pub proof fn a_templates_quantity_is_its_containers(
    data: JsonView,
    items: Seq<JsonView>,
    layout: LimitLayout,
    container: Option<String>,
    resource: Seq<char>,
    i: int,
)
    requires
        layout == (LimitLayout::PodTemplate { container }),
        no_array_above(data, seq!["spec"@, "template"@, "spec"@, "containers"@]),
        below(data, seq!["spec"@, "template"@, "spec"@, "containers"@]) == Some(
            JsonView::Array(items),
        ),
        is_wanted(
            items,
            match container {
                Some(c) => Some(c@),
                None => None,
            },
            i,
        ),
        no_array_above(items[i], seq!["resources"@, "limits"@, resource]),
        plain_key(resource),
    ensures
        quantity_of(data, layout, resource) == text_below(
            items[i],
            seq!["resources"@, "limits"@, resource],
        ),
{
    reveal_strlit("spec");
    reveal_strlit("template");
    reveal_strlit("containers");
    reveal_strlit("resources");
    reveal_strlit("limits");
    reveal_strlit("/");
    reveal_strlit("/spec/template/spec/containers");
    reveal_strlit("/resources/limits/");
    lemma_path4("spec"@, "template"@, "spec"@, "containers"@);
    lemma_path3("resources"@, "limits"@, resource);
    assert("/"@ + "spec"@ + ("/"@ + "template"@ + ("/"@ + "spec"@ + ("/"@ + "containers"@)))
        =~= "/spec/template/spec/containers"@);
    assert("/"@ + "resources"@ + ("/"@ + "limits"@ + ("/"@ + resource)) =~= "/resources/limits/"@
        + resource);
    lemma_wanted(
        items,
        match container {
            Some(c) => Some(c@),
            None => None,
        },
        i,
    );
    a_pointer_descends_by_its_keys(data, seq!["spec"@, "template"@, "spec"@, "containers"@]);
    a_pointer_descends_by_its_keys(items[i], seq!["resources"@, "limits"@, resource]);
}

// ─────────────────────── selectors, policies, restarts ───────────────────────

/// Each label that is a text adds `key=value` behind the ones in front of it, and
/// any other adds nothing; the pairs are joined with commas.
pub proof fn each_label_is_selected(m: Seq<(Seq<char>, JsonView)>, key: Seq<char>, v: JsonView)
    ensures
        label_pairs(Seq::empty()).len() == 0,
        label_pairs(m.push((key, v))) == match v {
            JsonView::Text(s) => label_pairs(m).push(key + "="@ + s),
            _ => label_pairs(m),
        },
{
    assert(m.push((key, v)).drop_last() =~= m);
}

/// Texts are joined one behind the other, with the separator between each two.
pub proof fn joining_puts_a_separator_between(items: Seq<Seq<char>>, s: Seq<char>, sep: Seq<char>)
    ensures
        joined(Seq::empty(), sep).len() == 0,
        joined(seq![s], sep) == s,
        items.len() > 0 ==> joined(items.push(s), sep) == joined(items, sep) + sep + s,
{
    assert(items.push(s).drop_last() =~= items);
}

/// The selector of an owner's pods is made of the labels below
/// `spec.selector.matchLabels`; without one of them there is none.
pub proof fn a_selector_is_made_of_the_matched_labels(owner: JsonView)
    requires
        no_array_above(owner, seq!["spec"@, "selector"@, "matchLabels"@]),
    ensures
        match below(owner, seq!["spec"@, "selector"@, "matchLabels"@]) {
            Some(JsonView::Object(m)) => if joined(label_pairs(m), ","@).len() > 0 {
                owner_selector_of(owner) == Some(joined(label_pairs(m), ","@))
            } else {
                owner_selector_of(owner) is None
            },
            _ => owner_selector_of(owner) is None,
        },
{
    reveal_strlit("spec");
    reveal_strlit("selector");
    reveal_strlit("matchLabels");
    reveal_strlit("/");
    reveal_strlit("/spec/selector/matchLabels");
    lemma_path3("spec"@, "selector"@, "matchLabels"@);
    assert("/"@ + "spec"@ + ("/"@ + "selector"@ + ("/"@ + "matchLabels"@))
        =~= "/spec/selector/matchLabels"@);
    a_pointer_descends_by_its_keys(owner, seq!["spec"@, "selector"@, "matchLabels"@]);
}

/// Resizing a resource needs no restart exactly where the wanted container of
/// `spec.containers` has, in its `resizePolicy`, one for that resource whose
/// `restartPolicy` is `NotRequired`.
pub proof fn no_restart_is_needed_where_the_policy_says_so(
    pod: JsonView,
    items: Seq<JsonView>,
    container: Option<Seq<char>>,
    resource: Seq<char>,
    i: int,
)
    requires
        no_array_above(pod, seq!["spec"@, "containers"@]),
        below(pod, seq!["spec"@, "containers"@]) == Some(JsonView::Array(items)),
        is_wanted(items, container, i),
        !(items[i] is Array),
    ensures
        not_required(pod, container, resource) <==> match items[i].member("resizePolicy"@) {
            Some(JsonView::Array(policies)) => exists|k: int|
                0 <= k < policies.len() && member_text(#[trigger] policies[k], "resourceName"@)
                    == Some(resource) && member_text(policies[k], "restartPolicy"@) == Some(
                    "NotRequired"@,
                ),
            _ => false,
        },
{
    reveal_strlit("/spec/containers");
    reveal_strlit("spec");
    reveal_strlit("containers");
    reveal_strlit("/resizePolicy");
    reveal_strlit("resizePolicy");
    reveal_strlit("/");
    lemma_path2("spec"@, "containers"@);
    lemma_path1("resizePolicy"@);
    assert("/"@ + "spec"@ + ("/"@ + "containers"@) =~= "/spec/containers"@);
    assert("/"@ + "resizePolicy"@ =~= "/resizePolicy"@);
    lemma_wanted(items, container, i);
    a_pointer_descends_by_its_keys(pod, seq!["spec"@, "containers"@]);
    let keys = seq!["resizePolicy"@];
    assert(keys.drop_first() =~= Seq::<Seq<char>>::empty());
    reveal_with_fuel(below, 2);
    reveal_with_fuel(no_array_above, 2);
    a_pointer_descends_by_its_keys(items[i], keys);
}

/// A container restarts exactly where it waits in a crash loop, or waits at all
/// after it restarted.
pub proof fn a_container_restarts_where_it_waits_to(status: JsonView)
    requires
        no_array_above(status, seq!["state"@, "waiting"@, "reason"@]),
    ensures
        status_restarts(status) <==> text_below(status, seq!["state"@, "waiting"@, "reason"@])
            == Some("CrashLoopBackOff"@) || (below(status, seq!["state"@, "waiting"@]) is Some && (
        status.member("restartCount"@) matches Some(n) && n.natural() matches Some(c) && c > 0)),
{
    reveal_strlit("state");
    reveal_strlit("waiting");
    reveal_strlit("reason");
    reveal_strlit("restartCount");
    reveal_strlit("/");
    reveal_strlit("/state/waiting/reason");
    reveal_strlit("/state/waiting");
    reveal_strlit("/restartCount");
    lemma_path3("state"@, "waiting"@, "reason"@);
    lemma_path2("state"@, "waiting"@);
    lemma_path1("restartCount"@);
    assert("/"@ + "state"@ + ("/"@ + "waiting"@ + ("/"@ + "reason"@))
        =~= "/state/waiting/reason"@);
    assert("/"@ + "state"@ + ("/"@ + "waiting"@) =~= "/state/waiting"@);
    assert("/"@ + "restartCount"@ =~= "/restartCount"@);
    let three = seq!["state"@, "waiting"@, "reason"@];
    let two = seq!["state"@, "waiting"@];
    let one = seq!["restartCount"@];
    assert(three.drop_first() =~= seq!["waiting"@, "reason"@]);
    assert(three.drop_first().drop_first() =~= seq!["reason"@]);
    assert(two.drop_first() =~= seq!["waiting"@]);
    assert(two.drop_first().drop_first() =~= Seq::<Seq<char>>::empty());
    assert(one.drop_first() =~= Seq::<Seq<char>>::empty());
    reveal_with_fuel(below, 4);
    reveal_with_fuel(no_array_above, 4);
    a_pointer_descends_by_its_keys(status, three);
    a_pointer_descends_by_its_keys(status, two);
    a_pointer_descends_by_its_keys(status, one);
}

/// A pod restarts exactly where some container among its `status.containerStatuses`
/// does.
pub proof fn a_pod_restarts_where_a_container_does(pod: JsonView)
    requires
        no_array_above(pod, seq!["status"@, "containerStatuses"@]),
    ensures
        pod_restarts(pod) <==> match below(pod, seq!["status"@, "containerStatuses"@]) {
            Some(JsonView::Array(statuses)) => exists|i: int|
                0 <= i < statuses.len() && status_restarts(#[trigger] statuses[i]),
            _ => false,
        },
{
    reveal_strlit("status");
    reveal_strlit("containerStatuses");
    reveal_strlit("/");
    reveal_strlit("/status/containerStatuses");
    lemma_path2("status"@, "containerStatuses"@);
    assert("/"@ + "status"@ + ("/"@ + "containerStatuses"@) =~= "/status/containerStatuses"@);
    a_pointer_descends_by_its_keys(pod, seq!["status"@, "containerStatuses"@]);
}

// ─────────────────────── what is written ───────────────────────

/// An object with one member.
pub open spec fn only(key: Seq<char>, value: JsonView) -> JsonView {
    JsonView::Object(seq![(key, value)])
}

/// A quantity as it is written: cpu in millicores with an `m`, anything else as a
/// bare number.
pub open spec fn written(resource: Seq<char>, value: u64) -> JsonView {
    JsonView::Text(
        if resource == "cpu"@ {
            decimal(value as nat) + "m"@
        } else {
            decimal(value as nat)
        },
    )
}

/// What a patch sends sets exactly the field of its layout, to exactly the patch's
/// value, and nothing else of the object's `spec`.
pub proof fn a_patch_sets_exactly_its_field(patch: SsaPatch)
    ensures
        ({
            let q = written(patch.resource@, patch.value);
            let n = JsonView::Number(decimal(patch.value as nat));
            let sends = |content: JsonView|
                apply_plan_of(patch) == ApplyPlanView::Send(body_of(patch.target, content));
            &&& patch.layout is ClusterTopLevel ==> sends(
                only("resources"@, only("limits"@, only(patch.resource@, q))),
            )
            &&& patch.layout is PvcRequest ==> sends(
                only("resources"@, only("requests"@, only("storage"@, q))),
            )
            &&& patch.layout is ClusterStorage ==> sends(only("storage"@, only("size"@, q)))
            &&& patch.layout is Replica ==> sends(only("replicas"@, n))
            &&& patch.layout matches LimitLayout::PodTemplate { container: Some(c) } ==> sends(
                template_spec(c@, patch.resource@, patch.value),
            )
            &&& patch.layout matches LimitLayout::PodTemplate { container: None }
                ==> apply_plan_of(patch) is NeedsContainer
            &&& patch.layout matches LimitLayout::PodResize { container } ==> apply_plan_of(patch)
                == (ApplyPlanView::Resize { container })
            &&& patch.layout matches LimitLayout::CrField { field_path, .. } ==> sends(
                under_spec(field_path@, n),
            )
            &&& patch.layout matches LimitLayout::DestinationRuleField { field_path, .. } ==> sends(
                under_spec(field_path@, n),
            )
            &&& patch.layout matches LimitLayout::NamespaceEnvelope { field_path, .. } ==> sends(
                under_spec(field_path@, n),
            )
            &&& patch.layout matches LimitLayout::ControllerSetpoint { field_path, .. } ==> sends(
                under_spec(field_path@, n),
            )
            &&& patch.layout is PodRequestResize || patch.layout is Host || patch.layout
                is ConfigFile || patch.layout is ApiCall || patch.layout is PodNetworkBandwidth
                ==> apply_plan_of(patch) is Refused
        }),
{
}

/// A pod template's content sets the limit of the named container alone.
pub proof fn a_template_sets_one_containers_limit(
    container: Seq<char>,
    resource: Seq<char>,
    value: u64,
)
    ensures
        template_spec(container, resource, value) == only(
            "template"@,
            only(
                "spec"@,
                only(
                    "containers"@,
                    JsonView::Array(
                        seq![
                            JsonView::Object(
                                seq![
                                    ("name"@, JsonView::Text(container)),
                                    (
                                        "resources"@,
                                        only("limits"@, only(resource, written(resource, value))),
                                    ),
                                ],
                            ),
                        ],
                    ),
                ),
            ),
        ),
{
}

/// What a patch sends is addressed to its target: the kind with its API version,
/// the name and the namespace.
pub proof fn a_patch_is_addressed_to_its_target(target: Target, content: JsonView)
    ensures
        text_below(body_of(target, content), seq!["apiVersion"@]) == Some(
            api_version_of(group_version_of(target.api_version@, target.kind@)),
        ),
        text_below(body_of(target, content), seq!["kind"@]) == Some(target.kind@),
        text_below(body_of(target, content), seq!["metadata"@, "name"@]) == Some(target.name@),
        text_below(body_of(target, content), seq!["metadata"@, "namespace"@]) == Some(
            target.namespace@,
        ),
        below(body_of(target, content), seq!["spec"@]) == Some(content),
        body_of(target, content)->Object_0.len() == 4,
{
    reveal_strlit("apiVersion");
    reveal_strlit("kind");
    reveal_strlit("metadata");
    reveal_strlit("spec");
    reveal_strlit("name");
    reveal_strlit("namespace");
    let m = body_of(target, content)->Object_0;
    assert("kind"@[0] != "spec"@[0]);
    assert("apiVersion"@.len() != "metadata"@.len());
    assert("kind"@.len() != "metadata"@.len());
    assert(m[0].0 != "metadata"@ && m[1].0 != "metadata"@);
    assert(m[2].0 == "metadata"@);
    a_member_is_the_first_with_its_key(m, "apiVersion"@, 0);
    a_member_is_the_first_with_its_key(m, "kind"@, 1);
    a_member_is_the_first_with_its_key(m, "metadata"@, 2);
    a_member_is_the_first_with_its_key(m, "spec"@, 3);
    let meta = m[2].1->Object_0;
    assert("name"@.len() != "namespace"@.len());
    assert(meta =~= seq![
        ("name"@, JsonView::Text(target.name@)),
        ("namespace"@, JsonView::Text(target.namespace@)),
    ]);
    a_member_is_the_first_with_its_key(meta, "name"@, 0);
    a_member_is_the_first_with_its_key(meta, "namespace"@, 1);
    assert(seq!["apiVersion"@].drop_first() =~= Seq::<Seq<char>>::empty());
    assert(seq!["kind"@].drop_first() =~= Seq::<Seq<char>>::empty());
    assert(seq!["spec"@].drop_first() =~= Seq::<Seq<char>>::empty());
    assert(seq!["metadata"@, "name"@].drop_first() =~= seq!["name"@]);
    assert(seq!["metadata"@, "namespace"@].drop_first() =~= seq!["namespace"@]);
    assert(seq!["name"@].drop_first() =~= Seq::<Seq<char>>::empty());
    assert(seq!["namespace"@].drop_first() =~= Seq::<Seq<char>>::empty());
    let o = m[2].1;
    let whole = body_of(target, content);
    let name = seq!["metadata"@, "name"@];
    let namespace = seq!["metadata"@, "namespace"@];
    assert(whole.member("metadata"@) == Some(o));
    assert(o.member("name"@) == Some(JsonView::Text(target.name@)));
    assert(o.member("namespace"@) == Some(JsonView::Text(target.namespace@)));
    reveal_with_fuel(below, 3);
    assert(below(whole, name) == below(o, name.drop_first()));
    assert(below(o, seq!["name"@]) == Some(JsonView::Text(target.name@)));
    assert(below(whole, namespace) == below(o, namespace.drop_first()));
    assert(below(o, seq!["namespace"@]) == Some(JsonView::Text(target.namespace@)));
}

/// A resize names one container, and carries its resources alone.
pub proof fn a_resize_names_one_container(container: Seq<char>, resources: JsonView)
    ensures
        resize_body_of(container, resources) == only(
            "spec"@,
            only(
                "containers"@,
                JsonView::Array(
                    seq![
                        JsonView::Object(
                            seq![("name"@, JsonView::Text(container)), ("resources"@, resources)],
                        ),
                    ],
                ),
            ),
        ),
{
}

/// A carve of a reservation writes the request alone. A carve of a limit writes the
/// limit, and the request with it exactly where the pod is guaranteed or its
/// request would exceed the limit.
pub proof fn a_resize_writes_limit_or_request(
    qos: Seq<char>,
    resource: Seq<char>,
    value: u64,
    current_request: Option<u64>,
)
    ensures
        request_block(resource, value) == only(
            "requests"@,
            only(resource, written(resource, value)),
        ),
        limit_block(qos, resource, value, current_request) == {
            let q = only(resource, written(resource, value));
            let with_request = JsonView::Object(seq![("limits"@, q), ("requests"@, q)]);
            if qos == "Guaranteed"@ {
                with_request
            } else {
                match current_request {
                    Some(held) => if held > value {
                        with_request
                    } else {
                        only("limits"@, q)
                    },
                    None => only("limits"@, q),
                }
            }
        },
{
}

/// The class that a pod has is the one that its `status.qosClass` names, and
/// `Burstable` where it names none.
pub proof fn a_pods_class_stands_in_its_status(pod: JsonView)
    requires
        no_array_above(pod, seq!["status"@, "qosClass"@]),
    ensures
        pod_class(pod) == match text_below(pod, seq!["status"@, "qosClass"@]) {
            Some(q) => q,
            None => "Burstable"@,
        },
{
    reveal_strlit("status");
    reveal_strlit("qosClass");
    reveal_strlit("/");
    reveal_strlit("/status/qosClass");
    lemma_path2("status"@, "qosClass"@);
    assert("/"@ + "status"@ + ("/"@ + "qosClass"@) =~= "/status/qosClass"@);
    a_pointer_descends_by_its_keys(pod, seq!["status"@, "qosClass"@]);
}

/// Each pod with a name and a container is resized once, in the order of the pods,
/// under its own name and container. A pod without a name is passed over; the first
/// that has no container ends the run, and the run is whole exactly where there is
/// none.
pub proof fn every_named_pod_is_resized_once(
    pods: Seq<LiveObject>,
    container: Option<Seq<char>>,
    n: int,
)
    requires
        0 <= n <= pods.len(),
    ensures
        ({
            let (steps, whole) = resizes_of(pods, container, n);
            &&& whole <==> forall|i: int|
                0 <= i < n && (#[trigger] pods[i]).name is Some ==> resized_container(
                    pods[i],
                    container,
                ) is Some
            &&& forall|k: int|
                0 <= k < steps.len() ==> {
                    let s = #[trigger] steps[k];
                    &&& 0 <= s.pod < n
                    &&& pods[s.pod].name matches Some(name)
                    &&& name@ == s.name
                    &&& resized_container(pods[s.pod], container) == Some(s.container)
                }
            &&& forall|k: int, l: int|
                0 <= k < l < steps.len() ==> (#[trigger] steps[k]).pod < (#[trigger] steps[l]).pod
            &&& whole ==> forall|i: int|
                0 <= i < n && (#[trigger] pods[i]).name is Some ==> exists|k: int|
                    0 <= k < steps.len() && (#[trigger] steps[k]).pod == i
        }),
    decreases n,
{
    if n > 0 {
        every_named_pod_is_resized_once(pods, container, n - 1);
        let (before, was_whole) = resizes_of(pods, container, n - 1);
        let (steps, whole) = resizes_of(pods, container, n);
        assert forall|k: int| 0 <= k < before.len() implies before[k] == #[trigger] steps[k] by {}
        if whole {
            assert(was_whole);
            assert forall|i: int|
                0 <= i < n && (#[trigger] pods[i]).name is Some implies exists|k: int|
                0 <= k < steps.len() && (#[trigger] steps[k]).pod == i by {
                if i < n - 1 {
                    let k = choose|k: int| 0 <= k < before.len() && (#[trigger] before[k]).pod == i;
                    assert(steps[k].pod == i);
                } else {
                    assert(steps[before.len() as int].pod == i);
                }
            }
        }
        if !was_whole {
            let i = choose|i: int|
                0 <= i < n - 1 && (#[trigger] pods[i]).name is Some && resized_container(
                    pods[i],
                    container,
                ) is None;
            assert(pods[i].name is Some);
        } else if !whole {
            assert(pods[n - 1].name is Some);
        }
    }
}

/// The container that is resized is the one asked for, or else the first of the
/// pod's `spec.containers`.
pub proof fn the_first_container_is_resized_unless_one_is_asked_for(
    pod: LiveObject,
    container: Seq<char>,
    spec: JsonView,
    items: Seq<JsonView>,
)
    requires
        pod.data@ is Object,
        pod.data@.member("spec"@) == Some(spec),
        spec is Object,
        spec.member("containers"@) == Some(JsonView::Array(items)),
        items.len() > 0,
        items[0] is Object,
    ensures
        resized_container(pod, Some(container)) == Some(container),
        resized_container(pod, None) == member_text(items[0], "name"@),
{
    lemma_first_name(pod.data@, spec, items);
}

proof fn lemma_first_name(pod: JsonView, spec: JsonView, items: Seq<JsonView>)
    requires
        pod is Object,
        pod.member("spec"@) == Some(spec),
        spec is Object,
        spec.member("containers"@) == Some(JsonView::Array(items)),
        items.len() > 0,
        items[0] is Object,
    ensures
        pointed_text(pod, "/spec/containers/0/name"@) == member_text(items[0], "name"@),
{
    reveal_strlit("spec");
    reveal_strlit("containers");
    reveal_strlit("name");
    reveal_strlit("/");
    reveal_strlit("0");
    reveal_strlit("/spec/containers/0/name");
    let r3 = "/"@ + "name"@ + Seq::<char>::empty();
    let r2 = "/"@ + "0"@ + r3;
    let r1 = "/"@ + "containers"@ + r2;
    assert("/spec/containers/0/name"@ =~= "/"@ + "spec"@ + r1);
    crate::json::lemma_point_into(pod, "spec"@, r1);
    crate::json::lemma_point_into(spec, "containers"@, r2);
    crate::json::lemma_point_into(items[0], "name"@, Seq::empty());
    // one step into the array
    let a = JsonView::Array(items);
    assert(r2.skip(1) =~= "0"@ + seq!['/'] + r3.skip(1));
    crate::json::lemma_pieces_first("0"@, r3.skip(1), '/');
    let tokens = crate::text::pieces(r2.skip(1), '/');
    assert(tokens[0] == "0"@);
    assert(tokens.drop_first() =~= crate::text::pieces(r3.skip(1), '/'));
    lemma_zero_is_the_first();
    assert(token_step(a, "0"@) == Some(items[0]));
    assert(walk(a, tokens) == walk(items[0], tokens.drop_first()));
    assert(pointed(a, r2) == pointed(items[0], r3));
}

proof fn lemma_zero_is_the_first()
    ensures
        crate::json::token_index(crate::json::token_key("0"@)) == Some(0u64),
{
    reveal_strlit("0");
    let zero = "0"@;
    assert(zero.skip(1) =~= Seq::<char>::empty());
    reveal_with_fuel(crate::json::untilded, 2);
    assert(crate::json::untilded(zero, '1', '/') =~= zero);
    assert(crate::json::untilded(zero, '0', '~') =~= zero);
    crate::text::a_number_reads_back_from_its_numeral(0);
    assert(decimal(0) =~= zero);
}

// ─────────────────────── addresses and owners ───────────────────────

/// The group and version of a target that names its API version are what stands in
/// front of the first slash and behind it; without a slash there is only a version.
/// Put together again they are what was named.
pub proof fn a_named_api_version_is_taken_apart(
    group: Seq<char>,
    version: Seq<char>,
    kind: Seq<char>,
)
    requires
        !group.contains('/'),
        !version.contains('/'),
        version.len() > 0,
    ensures
        group_version_of(group + "/"@ + version, kind) == (group, version),
        group_version_of(version, kind) == (Seq::<char>::empty(), version),
        api_version_of((group, version)) == if group.len() == 0 {
            version
        } else {
            group + "/"@ + version
        },
{
    reveal_strlit("/");
    let s = group + "/"@ + version;
    crate::text::lemma_index_or_end(s, '/');
    crate::text::lemma_index_or_end(version, '/');
    let n = crate::text::index_or_end(s, '/') as int;
    assert(s[group.len() as int] == '/');
    if n < group.len() {
        assert(s[n] == group[n]);
        assert(group.contains(group[n]));
    }
    assert(n == group.len());
    assert(s.take(n) =~= group);
    assert(s.skip(n + 1) =~= version);
    let k = crate::text::index_or_end(version, '/') as int;
    if k < version.len() {
        assert(version.contains(version[k]));
    }
}

/// A target that names no API version has that of its kind: a database cluster its
/// operator's, a volume claim the core's, anything else that of workloads.
pub proof fn a_kind_implies_its_api_version(kind: Seq<char>)
    ensures
        ({
            let gv = group_version_of(Seq::empty(), kind);
            &&& gv.1 == "v1"@
            &&& kind == "Cluster"@ ==> gv.0 == "postgresql.cnpg.io"@
            &&& kind == "PersistentVolumeClaim"@ ==> gv.0.len() == 0
            &&& kind != "Cluster"@ && kind != "PersistentVolumeClaim"@ ==> gv.0 == "apps"@
        }),
{
    reveal_strlit("Cluster");
    reveal_strlit("PersistentVolumeClaim");
    assert("Cluster"@.len() != "PersistentVolumeClaim"@.len());
}

/// Where the owners of a layout's field are looked for: at the field that the
/// layout writes, level by level.
pub proof fn owners_are_looked_for_where_the_layout_writes(
    owner: JsonView,
    layout: LimitLayout,
    resource: Seq<char>,
)
    ensures
        layout is ClusterTopLevel ==> written_path(owner, layout, resource) == Some(
            seq!["f:spec"@, "f:resources"@, "f:limits"@, "f:"@ + resource],
        ),
        layout is PvcRequest ==> written_path(owner, layout, resource) == Some(
            seq!["f:spec"@, "f:resources"@, "f:requests"@, "f:storage"@],
        ),
        layout is ClusterStorage ==> written_path(owner, layout, resource) == Some(
            seq!["f:spec"@, "f:storage"@, "f:size"@],
        ),
        layout matches LimitLayout::PodTemplate { container: Some(c) } ==> written_path(
            owner,
            layout,
            resource,
        ) == Some(
            seq![
                "f:spec"@,
                "f:template"@,
                "f:spec"@,
                "f:containers"@,
                "k:{\"name\":\""@ + c@ + "\"}"@,
                "f:resources"@,
                "f:limits"@,
                "f:"@ + resource,
            ],
        ),
        !(layout is ClusterTopLevel || layout is PvcRequest || layout is ClusterStorage || layout
            is PodTemplate) ==> written_path(owner, layout, resource) is None,
{
}

/// A manager owns a field exactly where its `fieldsV1` has, one below the other, a
/// member for each level of the field's path.
pub proof fn a_manager_owns_what_its_fields_hold(entry: JsonView, segments: Seq<Seq<char>>)
    ensures
        crate::managed_fields::entry_owns(entry, segments) <==> (entry.member(
            "fieldsV1"@,
        ) matches Some(fields) && below(fields, segments) is Some),
        crate::managed_fields::entry_manager(entry) == match entry.member("manager"@) {
            Some(JsonView::Text(m)) => m,
            _ => Seq::empty(),
        },
{
    if entry.member("fieldsV1"@) is Some {
        lemma_has_path(entry.member("fieldsV1"@)->0, segments);
    }
}

proof fn lemma_has_path(fields: JsonView, segments: Seq<Seq<char>>)
    ensures
        crate::managed_fields::has_path(fields, segments) == (below(fields, segments) is Some),
    decreases segments.len(),
{
    if segments.len() > 0 && fields.member(segments[0]) is Some {
        lemma_has_path(fields.member(segments[0])->0, segments.drop_first());
    }
}

/// Each entry that owns the field adds its manager behind those in front of it,
/// under the field's own name.
pub proof fn each_owning_entry_adds_its_manager(
    entries: Seq<JsonView>,
    entry: JsonView,
    segments: Seq<Seq<char>>,
    field: Seq<char>,
)
    ensures
        crate::managed_fields::owners_of(
            JsonView::Array(Seq::empty()),
            segments,
            field,
        ).len() == 0,
        crate::managed_fields::owners_of(
            JsonView::Array(entries.push(entry)),
            segments,
            field,
        ) == if crate::managed_fields::entry_owns(entry, segments) {
            crate::managed_fields::owners_of(JsonView::Array(entries), segments, field).push(
                crate::managed_fields::OwnerView {
                    manager: crate::managed_fields::entry_manager(entry),
                    field,
                },
            )
        } else {
            crate::managed_fields::owners_of(JsonView::Array(entries), segments, field)
        },
{
    assert(entries.push(entry).drop_last() =~= entries);
    let f = |m: Seq<char>| crate::managed_fields::OwnerView { manager: m, field };
    let before = crate::managed_fields::managers_of(entries, segments);
    let m = crate::managed_fields::entry_manager(entry);
    assert(before.push(m).map_values(f) =~= before.map_values(f).push(f(m)));
}

/// A proof of a preserved class covers a patch exactly where the patch carries the
/// proof's value and resource, on the layout of reservations, and names the proof's
/// container or none.
pub proof fn a_proof_covers_only_its_own_change(
    preserved: crate::request::PreservedView,
    resource: Seq<char>,
    value: u64,
    layout: LimitLayout,
)
    ensures
        disagreement(preserved, resource, value, layout) is None <==> {
            &&& preserved.to == value
            &&& match preserved.resource {
                crate::request::RequestResource::Memory => resource == "memory"@,
                crate::request::RequestResource::Cpu => resource == "cpu"@,
            }
            &&& layout matches LimitLayout::PodRequestResize { container }
            &&& container matches Some(c) ==> c@ == preserved.container
        },
{
}

// ─────────────────────── first containers ───────────────────────

/// A number in a pointer stands for the item at that place of an array, and for
/// nothing where the array is shorter.
pub proof fn a_number_points_to_an_item(items: Seq<JsonView>, n: u64)
    ensures
        token_step(JsonView::Array(items), decimal(n as nat)) == if n < items.len() {
            Some(items[n as int])
        } else {
            None
        },
{
    let key = decimal(n as nat);
    crate::text::a_numeral_is_made_of_digits(n as nat);
    crate::text::a_number_reads_back_from_its_numeral(n);
    assert(plain_key(key)) by {
        assert forall|i: int| 0 <= i < key.len() implies (#[trigger] key[i]) != '/' && key[i]
            != '~' by {}
    }
    crate::json::lemma_untilded_plain(key, '1', '/');
    crate::json::lemma_untilded_plain(key, '0', '~');
}

/// A template's container is the one that is asked for, or else the first of
/// `spec.template.spec.containers`, by its name.
pub proof fn the_first_container_is_managed_unless_one_is_asked_for(
    data: JsonView,
    items: Seq<JsonView>,
    want: Seq<char>,
)
    requires
        below(data, seq!["spec"@, "template"@, "spec"@, "containers"@]) == Some(
            JsonView::Array(items),
        ),
        no_array_above(data, seq!["spec"@, "template"@, "spec"@, "containers"@]),
        items.len() > 0,
        !(items[0] is Array),
    ensures
        container_name_of(data, Some(want)) == Some(want),
        container_name_of(data, None) == member_text(items[0], "name"@),
{
    reveal_strlit("/");
    reveal_strlit("spec");
    reveal_strlit("template");
    reveal_strlit("containers");
    reveal_strlit("name");
    reveal_strlit("/spec/template/spec/containers/0/name");
    let s = "spec"@;
    let t = "template"@;
    let c = "containers"@;
    assert(seq![s, t, s, c].drop_first() =~= seq![t, s, c]);
    assert(seq![t, s, c].drop_first() =~= seq![s, c]);
    assert(seq![s, c].drop_first() =~= seq![c]);
    assert(seq![c].drop_first() =~= Seq::<Seq<char>>::empty());
    reveal_with_fuel(below, 5);
    let a = data.member(s)->0;
    let b = a.member(t)->0;
    let d = b.member(s)->0;
    let end = "/"@ + decimal(0) + ("/"@ + "name"@);
    assert(decimal(0) =~= seq!['0']);
    assert("/"@ + s + ("/"@ + t + ("/"@ + s + ("/"@ + c + end)))
        =~= "/spec/template/spec/containers/0/name"@);
    crate::json::lemma_point_into(data, s, "/"@ + t + ("/"@ + s + ("/"@ + c + end)));
    crate::json::lemma_point_into(a, t, "/"@ + s + ("/"@ + c + end));
    crate::json::lemma_point_into(b, s, "/"@ + c + end);
    crate::json::lemma_point_into(d, c, end);
    let array = JsonView::Array(items);
    let zero = decimal(0);
    assert(end.skip(1) =~= zero + seq!['/'] + "name"@);
    crate::json::lemma_pieces_first(zero, "name"@, '/');
    crate::json::lemma_pieces_last("name"@, '/');
    let tokens = crate::text::pieces(end.skip(1), '/');
    assert(tokens =~= seq![zero, "name"@]);
    assert(tokens.drop_first() =~= seq!["name"@]);
    assert(seq!["name"@].drop_first() =~= Seq::<Seq<char>>::empty());
    a_number_points_to_an_item(items, 0);
    reveal_with_fuel(walk, 3);
    assert(walk(array, tokens) == walk(items[0], seq!["name"@]));
    crate::json::lemma_untilded_plain("name"@, '1', '/');
    crate::json::lemma_untilded_plain("name"@, '0', '~');
    assert(walk(items[0], seq!["name"@]) == items[0].member("name"@));
}

/// Without an array of containers no container says that it needs no restart.
pub proof fn without_containers_a_restart_is_expected(
    pod: JsonView,
    container: Option<Seq<char>>,
    resource: Seq<char>,
)
    requires
        no_array_above(pod, seq!["spec"@, "containers"@]),
        !(below(pod, seq!["spec"@, "containers"@]) matches Some(JsonView::Array(_))),
    ensures
        !not_required(pod, container, resource),
{
    reveal_strlit("/spec/containers");
    reveal_strlit("spec");
    reveal_strlit("containers");
    reveal_strlit("/");
    lemma_path2("spec"@, "containers"@);
    assert("/"@ + "spec"@ + ("/"@ + "containers"@) =~= "/spec/containers"@);
    a_pointer_descends_by_its_keys(pod, seq!["spec"@, "containers"@]);
}

/// Two provisioners are known to report a whole node's usage; every other reports
/// that of its volumes.
pub proof fn only_two_provisioners_report_a_whole_node(provisioner: Seq<char>)
    ensures
        reports_the_node("rancher.io/local-path"@),
        reports_the_node("kubernetes.io/host-path"@),
        reports_the_node(provisioner) && provisioner != "rancher.io/local-path"@ ==> provisioner
            == "kubernetes.io/host-path"@,
{
}

/// A reading makes a usage known, and a missing one takes none away.
pub proof fn one_reading_makes_a_usage_known(parsed: Seq<Option<u64>>, o: Option<u64>)
    ensures
        !any_read(Seq::empty()),
        any_read(parsed.push(o)) <==> any_read(parsed) || o is Some,
{
    let all = parsed.push(o);
    if any_read(parsed) {
        let i = choose|i: int| 0 <= i < parsed.len() && #[trigger] parsed[i] is Some;
        assert(all[i] is Some);
    }
    if o is Some {
        assert(all[parsed.len() as int] is Some);
    }
    if any_read(all) && !(o is Some) {
        let i = choose|i: int| 0 <= i < all.len() && #[trigger] all[i] is Some;
        assert(parsed[i] is Some);
    }
}

} // verus!
