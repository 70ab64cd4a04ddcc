//! Who owns a field of an object, from the object's record of managed fields.
//!
//! The record has one entry per manager. An entry holds the fields that the
//! manager owns as nested objects, one level per segment of a field's path.

use vstd::prelude::*;

use crate::dimension::FieldOwner;
use crate::json::{items_view, json_view, lemma_items_view, Json, JsonView};

verus! {

/// The nested path is there.
pub open spec fn has_path(fields: JsonView, segments: Seq<Seq<char>>) -> bool
    decreases segments.len(),
{
    if segments.len() == 0 {
        true
    } else {
        match fields.member(segments[0]) {
            Some(next) => has_path(next, segments.drop_first()),
            None => false,
        }
    }
}

/// Whether the nested path is there.
pub fn owns_path(fields_v1: &Json, segments: &[String]) -> (r: bool)
    ensures
        r == has_path(fields_v1@, crate::text::texts(segments@)),
{
    let ghost all = crate::text::texts(segments@);
    let mut cur: &Json = fields_v1;
    let mut i: usize = 0;
    assert(all.skip(0) =~= all);
    while i < segments.len()
        invariant
            i <= segments.len(),
            all == crate::text::texts(segments@),
            has_path(fields_v1@, all) == has_path(cur@, all.skip(i as int)),
        decreases segments.len() - i,
    {
        assert(all.skip(i as int)[0] == segments@[i as int]@);
        assert(all.skip(i as int).drop_first() =~= all.skip(i + 1));
        match cur.get(segments[i].as_str()) {
            Some(next) => {
                cur = next;
            },
            None => {
                return false;
            },
        }
        i = i + 1;
    }
    true
}

/// The entry's manager owns the path.
pub open spec fn entry_owns(entry: JsonView, segments: Seq<Seq<char>>) -> bool {
    match entry.member("fieldsV1"@) {
        Some(fields) => has_path(fields, segments),
        None => false,
    }
}

/// The entry's manager; an entry without a name has an empty one.
pub open spec fn entry_manager(entry: JsonView) -> Seq<char> {
    match crate::json::member_text(entry, "manager"@) {
        Some(m) => m,
        None => Seq::empty(),
    }
}

/// The managers that own the path, in the order of their entries.
pub open spec fn managers_of(entries: Seq<JsonView>, segments: Seq<Seq<char>>) -> Seq<Seq<char>>
    decreases entries.len(),
{
    if entries.len() == 0 {
        Seq::empty()
    } else if entry_owns(entries.last(), segments) {
        managers_of(entries.drop_last(), segments).push(entry_manager(entries.last()))
    } else {
        managers_of(entries.drop_last(), segments)
    }
}

/// An owner with its texts as characters.
pub struct OwnerView {
    /// The manager's name.
    pub manager: Seq<char>,
    /// The dotted name of the field.
    pub field: Seq<char>,
}

/// The owners with their texts as characters.
pub open spec fn owners_view(owners: Seq<FieldOwner>) -> Seq<OwnerView> {
    owners.map_values(|o: FieldOwner| OwnerView { manager: o.manager@, field: o.field@ })
}

/// The owners of a field: each manager that owns its path, under the field's
/// dotted name.
pub open spec fn owners_of(
    managed_fields: JsonView,
    segments: Seq<Seq<char>>,
    logical_field: Seq<char>,
) -> Seq<OwnerView> {
    match managed_fields.items() {
        None => Seq::empty(),
        Some(entries) => managers_of(entries, segments).map_values(
            |m: Seq<char>| OwnerView { manager: m, field: logical_field },
        ),
    }
}

/// The owners of a field.
#[must_use]
pub fn field_owners(managed_fields: &Json, segments: &[String], logical_field: &str) -> (r: Vec<
    FieldOwner,
>)
    ensures
        owners_view(r@) == owners_of(
            managed_fields@,
            crate::text::texts(segments@),
            logical_field@,
        ),
{
    let mut owners: Vec<FieldOwner> = Vec::new();
    let entries = match managed_fields.as_array() {
        Some(v) => v,
        None => {
            assert(owners_view(owners@) =~= Seq::<OwnerView>::empty());
            return owners;
        },
    };
    let ghost all = items_view(entries@);
    let ghost segs = crate::text::texts(segments@);
    let ghost label = |m: Seq<char>| OwnerView { manager: m, field: logical_field@ };
    proof {
        lemma_items_view(entries@);
        assert(all.take(0) =~= Seq::<JsonView>::empty());
        assert(owners_view(owners@) =~= managers_of(all.take(0), segs).map_values(label));
    }
    let mut i: usize = 0;
    while i < entries.len()
        invariant
            i <= entries.len(),
            all == items_view(entries@),
            all.len() == entries.len(),
            forall|k: int| 0 <= k < entries.len() ==> #[trigger] all[k] == json_view(entries@[k]),
            segs == crate::text::texts(segments@),
            label == (|m: Seq<char>| OwnerView { manager: m, field: logical_field@ }),
            owners_view(owners@) == managers_of(all.take(i as int), segs).map_values(label),
        decreases entries.len() - i,
    {
        assert(all.take(i + 1).drop_last() =~= all.take(i as int));
        assert(all.take(i + 1).last() == entries@[i as int]@);
        let ghost before = owners@;
        let e = &entries[i];
        match e.get("fieldsV1") {
            Some(fields) => {
                if owns_path(fields, segments) {
                    let manager = match e.get_str("manager") {
                        Some(m) => m.to_owned(),
                        None => String::new(),
                    };
                    assert(manager@ =~= entry_manager(e@));
                    owners.push(FieldOwner { manager, field: logical_field.to_owned() });
                    proof {
                        let o = OwnerView { manager: entry_manager(e@), field: logical_field@ };
                        assert(owners_view(owners@) =~= owners_view(before).push(o));
                        assert(managers_of(all.take(i + 1), segs).map_values(label) =~= managers_of(
                            all.take(i as int),
                            segs,
                        ).map_values(label).push(o));
                    }
                }
            },
            None => {},
        }
        i = i + 1;
    }
    assert(all.take(all.len() as int) =~= all);
    owners
}

/// The path of a container's limit in a pod template.
pub open spec fn pod_template_limit_path(container: Seq<char>, resource: Seq<char>) -> Seq<
    Seq<char>,
> {
    seq![
        "f:spec"@,
        "f:template"@,
        "f:spec"@,
        "f:containers"@,
        "k:{\"name\":\""@ + container + "\"}"@,
        "f:resources"@,
        "f:limits"@,
        "f:"@ + resource,
    ]
}

/// The path of a container's limit in a pod template.
#[must_use]
pub fn pod_template_limit_segments(container: &str, resource: &str) -> (r: Vec<String>)
    ensures
        crate::text::texts(r@) == pod_template_limit_path(container@, resource@),
{
    let mut key = "k:{\"name\":\"".to_owned();
    key.append(container);
    key.append("\"}");
    let mut leaf = "f:".to_owned();
    leaf.append(resource);
    let r = vec![
        "f:spec".to_owned(),
        "f:template".to_owned(),
        "f:spec".to_owned(),
        "f:containers".to_owned(),
        key,
        "f:resources".to_owned(),
        "f:limits".to_owned(),
        leaf,
    ];
    assert(crate::text::texts(r@) =~= pod_template_limit_path(container@, resource@));
    r
}

/// The path of a database cluster's limit.
#[must_use]
pub fn cnpg_cluster_limit_segments(resource: &str) -> (r: Vec<String>)
    ensures
        crate::text::texts(r@) == seq!["f:spec"@, "f:resources"@, "f:limits"@, "f:"@ + resource@],
{
    let mut leaf = "f:".to_owned();
    leaf.append(resource);
    let r = vec!["f:spec".to_owned(), "f:resources".to_owned(), "f:limits".to_owned(), leaf];
    assert(crate::text::texts(r@) =~= seq![
        "f:spec"@,
        "f:resources"@,
        "f:limits"@,
        "f:"@ + resource@,
    ]);
    r
}

/// The path of a workload's replica count.
#[must_use]
pub fn replicas_segments() -> (r: Vec<String>)
    ensures
        crate::text::texts(r@) == seq!["f:spec"@, "f:replicas"@],
{
    let r = vec!["f:spec".to_owned(), "f:replicas".to_owned()];
    assert(crate::text::texts(r@) =~= seq!["f:spec"@, "f:replicas"@]);
    r
}

/// The path of the size that a volume claim asks for.
#[must_use]
pub fn pvc_request_segments() -> (r: Vec<String>)
    ensures
        crate::text::texts(r@) == seq!["f:spec"@, "f:resources"@, "f:requests"@, "f:storage"@],
{
    let r = vec![
        "f:spec".to_owned(),
        "f:resources".to_owned(),
        "f:requests".to_owned(),
        "f:storage".to_owned(),
    ];
    assert(crate::text::texts(r@) =~= seq![
        "f:spec"@,
        "f:resources"@,
        "f:requests"@,
        "f:storage"@,
    ]);
    r
}

/// The path of a database cluster's storage size.
#[must_use]
pub fn cnpg_storage_segments() -> (r: Vec<String>)
    ensures
        crate::text::texts(r@) == seq!["f:spec"@, "f:storage"@, "f:size"@],
{
    let r = vec!["f:spec".to_owned(), "f:storage".to_owned(), "f:size".to_owned()];
    assert(crate::text::texts(r@) =~= seq!["f:spec"@, "f:storage"@, "f:size"@]);
    r
}

/// A manager is an owner exactly when one of its entries has the whole path:
/// whoever owns only other fields never is.
pub proof fn only_owners_of_the_path_are_owners(
    entries: Seq<JsonView>,
    segments: Seq<Seq<char>>,
    manager: Seq<char>,
)
    ensures
        managers_of(entries, segments).contains(manager) <==> exists|i: int|
            0 <= i < entries.len() && #[trigger] entry_owns(entries[i], segments) && entry_manager(
                entries[i],
            ) == manager,
    decreases entries.len(),
{
    if entries.len() > 0 {
        let rest = entries.drop_last();
        let before = managers_of(rest, segments);
        let after = managers_of(entries, segments);
        only_owners_of_the_path_are_owners(rest, segments, manager);
        if entry_owns(entries.last(), segments) {
            assert(after == before.push(entry_manager(entries.last())));
            assert(after[before.len() as int] == entry_manager(entries.last()));
        }
        if before.contains(manager) {
            let k = choose|k: int| 0 <= k < before.len() && before[k] == manager;
            assert(after[k] == manager);
            let i = choose|i: int|
                0 <= i < rest.len() && #[trigger] entry_owns(rest[i], segments) && entry_manager(
                    rest[i],
                ) == manager;
            assert(entry_owns(entries[i], segments));
        }
        if after.contains(manager) && !before.contains(manager) {
            let k = choose|k: int| 0 <= k < after.len() && after[k] == manager;
            if k < before.len() {
                assert(before[k] == manager);
            }
            assert(entry_owns(entries[entries.len() - 1], segments));
        }
        if exists|i: int|
            0 <= i < entries.len() && #[trigger] entry_owns(entries[i], segments) && entry_manager(
                entries[i],
            ) == manager {
            let i = choose|i: int|
                0 <= i < entries.len() && #[trigger] entry_owns(entries[i], segments)
                    && entry_manager(entries[i]) == manager;
            if i < rest.len() {
                assert(rest[i] == entries[i]);
                assert(entry_owns(rest[i], segments));
                let k = choose|k: int| 0 <= k < before.len() && before[k] == manager;
                assert(after[k] == manager);
            }
        }
    }
}

/// A path is there exactly where its parts lead down, one inside the other.
pub proof fn a_path_is_there_where_it_leads_down(fields: JsonView, segments: Seq<Seq<char>>)
    ensures
        has_path(fields, segments) <==> crate::kube_laws::below(fields, segments) is Some,
    decreases segments.len(),
{
    if segments.len() > 0 {
        match fields.member(segments[0]) {
            Some(next) => {
                a_path_is_there_where_it_leads_down(next, segments.drop_first());
            },
            None => {},
        }
    }
}

} // verus!
