//! Laws on the canonical texts that declarations and proposals are addressed by: a
//! text stands for one declaration alone.

use vstd::prelude::*;

use crate::json::{
    compact, compact_members, joined, json_char, json_chars, json_quoted,
    optional_number, JsonView,
};
use crate::manifest::{
    assignment_json, origin_json, proposal_json, AssignmentView, OriginView,
};
use crate::request::{block_json, container_json, hex_char, hex_of, ContainerResources};
use crate::text::{a_numeral_is_made_of_digits, decimal};

verus! {

// ─────────────────────── JSON strings ───────────────────────

proof fn lemma_json_chars_first(s: Seq<char>)
    requires
        s.len() > 0,
    ensures
        json_chars(s) == json_char(s[0]) + json_chars(s.skip(1)),
    decreases s.len(),
{
    if s.len() == 1 {
        assert(s.drop_last() =~= Seq::<char>::empty());
        assert(s.skip(1) =~= Seq::<char>::empty());
        assert(json_chars(s) =~= json_char(s[0]) + json_chars(s.skip(1)));
    } else {
        let init = s.drop_last();
        lemma_json_chars_first(init);
        assert(s.skip(1).drop_last() =~= init.skip(1));
        assert(s.skip(1).last() == s.last());
        assert(json_chars(s) =~= json_char(s[0]) + json_chars(s.skip(1)));
    }
}

proof fn lemma_json_char_ends(c: char, d: char, x: Seq<char>, y: Seq<char>)
    requires
        json_char(c) + x == json_char(d) + y,
    ensures
        c == d,
        x == y,
{
    let s = json_char(c) + x;
    let t = json_char(d) + y;
    assert(s[0] == json_char(c)[0] && t[0] == json_char(d)[0]);
    if json_char(c).len() >= 2 {
        assert(s[1] == json_char(c)[1]);
    }
    if json_char(d).len() >= 2 {
        assert(t[1] == json_char(d)[1]);
    }
    if json_char(c).len() == 6 && json_char(d).len() == 6 {
        assert(s[4] == json_char(c)[4] && s[5] == json_char(c)[5]);
        assert(t[4] == json_char(d)[4] && t[5] == json_char(d)[5]);
    }
    assert(c == d);
    let n = json_char(c).len() as int;
    assert(x =~= s.skip(n));
    assert(y =~= t.skip(n));
}

proof fn lemma_json_chars_end(a: Seq<char>, b: Seq<char>, x: Seq<char>, y: Seq<char>)
    requires
        json_chars(a) + (seq!['"'] + x) == json_chars(b) + (seq!['"'] + y),
    ensures
        a == b,
        x == y,
    decreases a.len(),
{
    let s = json_chars(a) + (seq!['"'] + x);
    let t = json_chars(b) + (seq!['"'] + y);
    if a.len() == 0 && b.len() == 0 {
        assert(a =~= b);
        assert(x =~= s.skip(1));
        assert(y =~= t.skip(1));
    } else if a.len() == 0 {
        lemma_json_chars_first(b);
        assert(t[0] == json_char(b[0])[0]);
        assert(s[0] == '"');
    } else if b.len() == 0 {
        lemma_json_chars_first(a);
        assert(s[0] == json_char(a[0])[0]);
        assert(t[0] == '"');
    } else {
        lemma_json_chars_first(a);
        lemma_json_chars_first(b);
        let x2 = json_chars(a.skip(1)) + (seq!['"'] + x);
        let y2 = json_chars(b.skip(1)) + (seq!['"'] + y);
        assert(s =~= json_char(a[0]) + x2);
        assert(t =~= json_char(b[0]) + y2);
        lemma_json_char_ends(a[0], b[0], x2, y2);
        lemma_json_chars_end(a.skip(1), b.skip(1), x, y);
        assert(a =~= seq![a[0]] + a.skip(1));
        assert(b =~= seq![b[0]] + b.skip(1));
    }
}

/// A JSON string ends at its own closing mark: whatever follows, what was quoted and
/// what follows can be told from the text.
pub proof fn a_json_string_ends_at_its_mark(a: Seq<char>, b: Seq<char>, x: Seq<char>, y: Seq<char>)
    requires
        json_quoted(a) + x == json_quoted(b) + y,
    ensures
        a == b,
        x == y,
{
    let s = json_quoted(a) + x;
    let t = json_quoted(b) + y;
    assert(s.skip(1) =~= json_chars(a) + (seq!['"'] + x));
    assert(t.skip(1) =~= json_chars(b) + (seq!['"'] + y));
    lemma_json_chars_end(a, b, x, y);
}

// ─────────────────────── numbers ───────────────────────

/// The text starts with no digit.
pub open spec fn starts_past_digits(s: Seq<char>) -> bool {
    s.len() > 0 && !('0' <= s[0] <= '9')
}

/// A number ends in front of the first character that is no digit.
pub proof fn a_numeral_ends_at_its_last_digit(m: u64, n: u64, x: Seq<char>, y: Seq<char>)
    requires
        decimal(m as nat) + x == decimal(n as nat) + y,
        starts_past_digits(x),
        starts_past_digits(y),
    ensures
        m == n,
        x == y,
{
    let a = decimal(m as nat);
    let b = decimal(n as nat);
    let s = a + x;
    let t = b + y;
    a_numeral_is_made_of_digits(m as nat);
    a_numeral_is_made_of_digits(n as nat);
    if a.len() < b.len() {
        assert(s[a.len() as int] == x[0]);
        assert(t[a.len() as int] == b[a.len() as int]);
    } else if b.len() < a.len() {
        assert(t[b.len() as int] == y[0]);
        assert(s[b.len() as int] == a[b.len() as int]);
    }
    assert(a =~= s.take(a.len() as int));
    assert(b =~= t.take(b.len() as int));
    assert(x =~= s.skip(a.len() as int));
    assert(y =~= t.skip(b.len() as int));
    crate::text::a_number_reads_back_from_its_numeral(m);
    crate::text::a_number_reads_back_from_its_numeral(n);
}

proof fn lemma_optional_number_ends(
    m: Option<u64>,
    n: Option<u64>,
    x: Seq<char>,
    y: Seq<char>,
)
    requires
        optional_number(m) + x == optional_number(n) + y,
        starts_past_digits(x),
        starts_past_digits(y),
    ensures
        m == n,
        x == y,
{
    reveal_strlit("null");
    let s = optional_number(m) + x;
    let t = optional_number(n) + y;
    match (m, n) {
        (Some(p), Some(q)) => {
            a_numeral_ends_at_its_last_digit(p, q, x, y);
        },
        (Some(p), None) => {
            a_numeral_is_made_of_digits(p as nat);
            assert(s[0] == decimal(p as nat)[0]);
            assert(t[0] == 'n');
        },
        (None, Some(q)) => {
            a_numeral_is_made_of_digits(q as nat);
            assert(t[0] == decimal(q as nat)[0]);
            assert(s[0] == 'n');
        },
        (None, None) => {
            assert(x =~= s.skip(4));
            assert(y =~= t.skip(4));
        },
    }
}

// ─────────────────────── fixed words ───────────────────────

proof fn lemma_same_front(w: Seq<char>, x: Seq<char>, y: Seq<char>)
    requires
        w + x == w + y,
    ensures
        x == y,
{
    assert(x =~= (w + x).skip(w.len() as int));
    assert(y =~= (w + y).skip(w.len() as int));
}

proof fn lemma_regrouped(a: Seq<char>, b: Seq<char>, c: Seq<char>)
    ensures
        a + b + c == a + (b + c),
{
    assert(a + b + c =~= a + (b + c));
}

proof fn lemma_container_parts(c: ContainerResources, x: Seq<char>)
    ensures
        container_json(c) + x == "{\"name\":"@ + (json_quoted(c.name@) + (",\"cpuRequest\":"@ + (
        optional_number(c.cpu_request) + (",\"cpuLimit\":"@ + (optional_number(c.cpu_limit) + (
        ",\"memoryRequest\":"@ + (optional_number(c.memory_request) + (",\"memoryLimit\":"@ + (
        optional_number(c.memory_limit) + ("}"@ + x)))))))))),
{
    let p1 = "{\"name\":"@;
    let p2 = p1 + json_quoted(c.name@);
    let p3 = p2 + ",\"cpuRequest\":"@;
    let p4 = p3 + optional_number(c.cpu_request);
    let p5 = p4 + ",\"cpuLimit\":"@;
    let p6 = p5 + optional_number(c.cpu_limit);
    let p7 = p6 + ",\"memoryRequest\":"@;
    let p8 = p7 + optional_number(c.memory_request);
    let p9 = p8 + ",\"memoryLimit\":"@;
    let p10 = p9 + optional_number(c.memory_limit);
    let x1 = "}"@ + x;
    let x2 = optional_number(c.memory_limit) + x1;
    let x3 = ",\"memoryLimit\":"@ + x2;
    let x4 = optional_number(c.memory_request) + x3;
    let x5 = ",\"memoryRequest\":"@ + x4;
    let x6 = optional_number(c.cpu_limit) + x5;
    let x7 = ",\"cpuLimit\":"@ + x6;
    let x8 = optional_number(c.cpu_request) + x7;
    let x9 = ",\"cpuRequest\":"@ + x8;
    lemma_regrouped(p10, "}"@, x);
    lemma_regrouped(p9, optional_number(c.memory_limit), x1);
    lemma_regrouped(p8, ",\"memoryLimit\":"@, x2);
    lemma_regrouped(p7, optional_number(c.memory_request), x3);
    lemma_regrouped(p6, ",\"memoryRequest\":"@, x4);
    lemma_regrouped(p5, optional_number(c.cpu_limit), x5);
    lemma_regrouped(p4, ",\"cpuLimit\":"@, x6);
    lemma_regrouped(p3, optional_number(c.cpu_request), x7);
    lemma_regrouped(p2, ",\"cpuRequest\":"@, x8);
    lemma_regrouped(p1, json_quoted(c.name@), x9);
}

/// Two declarations of a container hold the same.
pub open spec fn same_container(c: ContainerResources, d: ContainerResources) -> bool {
    c.name@ == d.name@ && c.cpu_request == d.cpu_request && c.cpu_limit == d.cpu_limit
        && c.memory_request == d.memory_request && c.memory_limit == d.memory_limit
}

/// The text of a container ends at its own brace, and tells its name and its four
/// quantities.
pub proof fn a_containers_text_tells_all_it_declares(
    c: ContainerResources,
    d: ContainerResources,
    x: Seq<char>,
    y: Seq<char>,
)
    requires
        container_json(c) + x == container_json(d) + y,
    ensures
        same_container(c, d),
        x == y,
{
    reveal_strlit(",\"cpuLimit\":");
    reveal_strlit(",\"memoryRequest\":");
    reveal_strlit(",\"memoryLimit\":");
    reveal_strlit("}");
    let c5 = "}"@ + x;
    let d5 = "}"@ + y;
    let c4 = ",\"memoryLimit\":"@ + (optional_number(c.memory_limit) + c5);
    let d4 = ",\"memoryLimit\":"@ + (optional_number(d.memory_limit) + d5);
    let c3 = ",\"memoryRequest\":"@ + (optional_number(c.memory_request) + c4);
    let d3 = ",\"memoryRequest\":"@ + (optional_number(d.memory_request) + d4);
    let c2 = ",\"cpuLimit\":"@ + (optional_number(c.cpu_limit) + c3);
    let d2 = ",\"cpuLimit\":"@ + (optional_number(d.cpu_limit) + d3);
    let c1 = ",\"cpuRequest\":"@ + (optional_number(c.cpu_request) + c2);
    let d1 = ",\"cpuRequest\":"@ + (optional_number(d.cpu_request) + d2);
    lemma_container_parts(c, x);
    lemma_container_parts(d, y);
    lemma_same_front("{\"name\":"@, json_quoted(c.name@) + c1, json_quoted(d.name@) + d1);
    a_json_string_ends_at_its_mark(c.name@, d.name@, c1, d1);
    lemma_same_front(
        ",\"cpuRequest\":"@,
        optional_number(c.cpu_request) + c2,
        optional_number(d.cpu_request) + d2,
    );
    lemma_optional_number_ends(c.cpu_request, d.cpu_request, c2, d2);
    lemma_same_front(
        ",\"cpuLimit\":"@,
        optional_number(c.cpu_limit) + c3,
        optional_number(d.cpu_limit) + d3,
    );
    lemma_optional_number_ends(c.cpu_limit, d.cpu_limit, c3, d3);
    lemma_same_front(
        ",\"memoryRequest\":"@,
        optional_number(c.memory_request) + c4,
        optional_number(d.memory_request) + d4,
    );
    lemma_optional_number_ends(c.memory_request, d.memory_request, c4, d4);
    lemma_same_front(
        ",\"memoryLimit\":"@,
        optional_number(c.memory_limit) + c5,
        optional_number(d.memory_limit) + d5,
    );
    lemma_optional_number_ends(c.memory_limit, d.memory_limit, c5, d5);
    lemma_same_front("}"@, x, y);
}

proof fn lemma_joined_first(items: Seq<Seq<char>>, sep: Seq<char>)
    requires
        items.len() > 1,
    ensures
        joined(items, sep) == items[0] + (sep + joined(items.skip(1), sep)),
    decreases items.len(),
{
    let init = items.drop_last();
    let rest = items.skip(1);
    assert(rest.last() == items.last());
    if items.len() == 2 {
        assert(init.len() == 1 && init[0] == items[0]);
        assert(rest.len() == 1 && rest[0] == items[1]);
        assert(joined(init, sep) == items[0]);
        assert(joined(rest, sep) == items[1]);
        assert(joined(items, sep) =~= items[0] + (sep + joined(rest, sep)));
    } else {
        lemma_joined_first(init, sep);
        assert(rest.drop_last() =~= init.skip(1));
        assert(joined(items, sep) =~= items[0] + (sep + joined(rest, sep)));
    }
}

/// The texts of the containers, with a comma between each two.
spec fn container_texts(cs: Seq<ContainerResources>) -> Seq<Seq<char>> {
    cs.map_values(|c: ContainerResources| container_json(c))
}

proof fn lemma_containers_text(cs: Seq<ContainerResources>, x: Seq<char>)
    requires
        cs.len() > 0,
    ensures
        joined(container_texts(cs), ","@) + x == container_json(cs[0]) + (if cs.len() == 1 {
            x
        } else {
            ","@ + (joined(container_texts(cs.skip(1)), ","@) + x)
        }),
{
    let items = container_texts(cs);
    assert(items[0] == container_json(cs[0]));
    if cs.len() > 1 {
        lemma_joined_first(items, ","@);
        assert(items.skip(1) =~= container_texts(cs.skip(1)));
        assert(joined(items, ","@) + x =~= container_json(cs[0]) + (","@ + (joined(
            container_texts(cs.skip(1)),
            ","@,
        ) + x)));
    }
}

proof fn lemma_containers_end(
    cs: Seq<ContainerResources>,
    ds: Seq<ContainerResources>,
)
    requires
        joined(container_texts(cs), ","@) + "]}"@ == joined(container_texts(ds), ","@) + "]}"@,
    ensures
        cs.len() == ds.len(),
        forall|i: int| 0 <= i < cs.len() ==> same_container(#[trigger] cs[i], ds[i]),
    decreases cs.len(),
{
    reveal_strlit("]}");
    reveal_strlit(",");
    reveal_strlit("{\"name\":");
    let s = joined(container_texts(cs), ","@) + "]}"@;
    let t = joined(container_texts(ds), ","@) + "]}"@;
    if cs.len() > 0 {
        lemma_containers_text(cs, "]}"@);
        assert(s[0] == '{');
    } else {
        assert(s[0] == ']');
    }
    if ds.len() > 0 {
        lemma_containers_text(ds, "]}"@);
        assert(t[0] == '{');
    } else {
        assert(t[0] == ']');
    }
    if cs.len() > 0 && ds.len() > 0 {
        let x = if cs.len() == 1 {
            "]}"@
        } else {
            ","@ + (joined(container_texts(cs.skip(1)), ","@) + "]}"@)
        };
        let y = if ds.len() == 1 {
            "]}"@
        } else {
            ","@ + (joined(container_texts(ds.skip(1)), ","@) + "]}"@)
        };
        a_containers_text_tells_all_it_declares(cs[0], ds[0], x, y);
        assert(x[0] == if cs.len() == 1 { ']' } else { ',' });
        assert(y[0] == if ds.len() == 1 { ']' } else { ',' });
        if cs.len() > 1 {
            lemma_same_front(
                ","@,
                joined(container_texts(cs.skip(1)), ","@) + "]}"@,
                joined(container_texts(ds.skip(1)), ","@) + "]}"@,
            );
            lemma_containers_end(cs.skip(1), ds.skip(1));
            assert forall|i: int| 0 <= i < cs.len() implies same_container(
                #[trigger] cs[i],
                ds[i],
            ) by {
                if i > 0 {
                    assert(same_container(cs.skip(1)[i - 1], ds.skip(1)[i - 1]));
                }
            }
        }
    }
}

/// The canonical text of a pod's declarations stands for those declarations alone:
/// whatever two pods differ in, a container, its name, its place or one of its
/// quantities, their texts differ.
pub proof fn a_canonical_text_stands_for_one_block(
    cs: Seq<ContainerResources>,
    ds: Seq<ContainerResources>,
)
    ensures
        block_json(cs) == block_json(ds) <==> cs.len() == ds.len() && forall|i: int|
            0 <= i < cs.len() ==> same_container(#[trigger] cs[i], ds[i]),
{
    let w = "{\"containers\":["@;
    let s = joined(container_texts(cs), ","@) + "]}"@;
    let t = joined(container_texts(ds), ","@) + "]}"@;
    assert(block_json(cs) =~= w + s);
    assert(block_json(ds) =~= w + t);
    if block_json(cs) == block_json(ds) {
        lemma_same_front(w, s, t);
        lemma_containers_end(cs, ds);
    }
    if cs.len() == ds.len() && (forall|i: int|
        0 <= i < cs.len() ==> same_container(#[trigger] cs[i], ds[i])) {
        assert(container_texts(cs) =~= container_texts(ds)) by {
            assert forall|i: int| 0 <= i < cs.len() implies container_texts(cs)[i]
                == container_texts(ds)[i] by {
                assert(same_container(cs[i], ds[i]));
            }
        }
    }
}

// ─────────────────────── proposals ───────────────────────

/// The text of an assignment ends at its own brace, and tells its marker and its
/// value.
pub proof fn an_assignments_text_tells_marker_and_value(
    a: AssignmentView,
    b: AssignmentView,
    x: Seq<char>,
    y: Seq<char>,
)
    requires
        assignment_json(a) + x == assignment_json(b) + y,
    ensures
        a.marker == b.marker,
        a.value == b.value,
        x == y,
{
    let a2 = ",\"value\":"@ + (json_quoted(a.value) + ("}"@ + x));
    let b2 = ",\"value\":"@ + (json_quoted(b.value) + ("}"@ + y));
    assert(assignment_json(a) + x =~= "{\"marker\":"@ + (json_quoted(a.marker) + a2));
    assert(assignment_json(b) + y =~= "{\"marker\":"@ + (json_quoted(b.marker) + b2));
    lemma_same_front("{\"marker\":"@, json_quoted(a.marker) + a2, json_quoted(b.marker) + b2);
    a_json_string_ends_at_its_mark(a.marker, b.marker, a2, b2);
    lemma_same_front(
        ",\"value\":"@,
        json_quoted(a.value) + ("}"@ + x),
        json_quoted(b.value) + ("}"@ + y),
    );
    a_json_string_ends_at_its_mark(a.value, b.value, "}"@ + x, "}"@ + y);
    lemma_same_front("}"@, x, y);
}

/// The text of an origin stands for that origin alone.
pub proof fn an_origins_text_tells_the_origin(a: OriginView, b: OriginView)
    requires
        origin_json(a) + "}"@ == origin_json(b) + "}"@,
    ensures
        a == b,
{
    reveal_strlit("{\"origin\":\"carve\",\"resource\":");
    reveal_strlit("{\"origin\":\"transition\",\"from\":");
    let end = "}"@ + "}"@;
    match (a, b) {
        (
            OriginView::Carve { resource: r, container: c },
            OriginView::Carve { resource: s, container: d },
        ) => {
            let w = "{\"origin\":\"carve\",\"resource\":"@;
            let x = ",\"container\":"@ + (json_quoted(c) + end);
            let y = ",\"container\":"@ + (json_quoted(d) + end);
            assert(origin_json(a) + "}"@ =~= w + (json_quoted(r) + x));
            assert(origin_json(b) + "}"@ =~= w + (json_quoted(s) + y));
            lemma_same_front(w, json_quoted(r) + x, json_quoted(s) + y);
            a_json_string_ends_at_its_mark(r, s, x, y);
            lemma_same_front(",\"container\":"@, json_quoted(c) + end, json_quoted(d) + end);
            a_json_string_ends_at_its_mark(c, d, end, end);
        },
        (
            OriginView::Transition { before: r, after: c },
            OriginView::Transition { before: s, after: d },
        ) => {
            let w = "{\"origin\":\"transition\",\"from\":"@;
            let x = ",\"to\":"@ + (json_quoted(c) + end);
            let y = ",\"to\":"@ + (json_quoted(d) + end);
            assert(origin_json(a) + "}"@ =~= w + (json_quoted(r) + x));
            assert(origin_json(b) + "}"@ =~= w + (json_quoted(s) + y));
            lemma_same_front(w, json_quoted(r) + x, json_quoted(s) + y);
            a_json_string_ends_at_its_mark(r, s, x, y);
            lemma_same_front(",\"to\":"@, json_quoted(c) + end, json_quoted(d) + end);
            a_json_string_ends_at_its_mark(c, d, end, end);
        },
        (OriginView::Carve { .. }, OriginView::Transition { .. }) => {
            assert((origin_json(a) + "}"@)[11] == 'c');
            assert((origin_json(b) + "}"@)[11] == 't');
        },
        (OriginView::Transition { .. }, OriginView::Carve { .. }) => {
            assert((origin_json(a) + "}"@)[11] == 't');
            assert((origin_json(b) + "}"@)[11] == 'c');
        },
    }
}

/// The texts of the assignments.
spec fn assignment_texts(all: Seq<AssignmentView>) -> Seq<Seq<char>> {
    all.map_values(|a: AssignmentView| assignment_json(a))
}

proof fn lemma_assignments_text(all: Seq<AssignmentView>, x: Seq<char>)
    requires
        all.len() > 0,
    ensures
        joined(assignment_texts(all), ","@) + x == assignment_json(all[0]) + (if all.len() == 1 {
            x
        } else {
            ","@ + (joined(assignment_texts(all.skip(1)), ","@) + x)
        }),
{
    let items = assignment_texts(all);
    assert(items[0] == assignment_json(all[0]));
    if all.len() > 1 {
        lemma_joined_first(items, ","@);
        assert(items.skip(1) =~= assignment_texts(all.skip(1)));
        assert(joined(items, ","@) + x =~= assignment_json(all[0]) + (","@ + (joined(
            assignment_texts(all.skip(1)),
            ","@,
        ) + x)));
    }
}

proof fn lemma_assignments_end(
    all: Seq<AssignmentView>,
    other: Seq<AssignmentView>,
    x: Seq<char>,
    y: Seq<char>,
)
    requires
        x.len() > 0 && x[0] == ']',
        y.len() > 0 && y[0] == ']',
        joined(assignment_texts(all), ","@) + x == joined(assignment_texts(other), ","@) + y,
    ensures
        all == other,
        x == y,
    decreases all.len(),
{
    reveal_strlit(",");
    reveal_strlit("{\"marker\":");
    let s = joined(assignment_texts(all), ","@) + x;
    let t = joined(assignment_texts(other), ","@) + y;
    if all.len() > 0 {
        lemma_assignments_text(all, x);
        assert(s[0] == '{');
    } else {
        assert(s[0] == ']');
        assert(s =~= x);
    }
    if other.len() > 0 {
        lemma_assignments_text(other, y);
        assert(t[0] == '{');
    } else {
        assert(t[0] == ']');
        assert(t =~= y);
    }
    if all.len() == 0 {
        assert(all =~= other);
    } else {
        let x2 = if all.len() == 1 {
            x
        } else {
            ","@ + (joined(assignment_texts(all.skip(1)), ","@) + x)
        };
        let y2 = if other.len() == 1 {
            y
        } else {
            ","@ + (joined(assignment_texts(other.skip(1)), ","@) + y)
        };
        an_assignments_text_tells_marker_and_value(all[0], other[0], x2, y2);
        assert(x2[0] == if all.len() == 1 { ']' } else { ',' });
        assert(y2[0] == if other.len() == 1 { ']' } else { ',' });
        if all.len() > 1 {
            lemma_same_front(
                ","@,
                joined(assignment_texts(all.skip(1)), ","@) + x,
                joined(assignment_texts(other.skip(1)), ","@) + y,
            );
            lemma_assignments_end(all.skip(1), other.skip(1), x, y);
            assert(all =~= seq![all[0]] + all.skip(1));
            assert(other =~= seq![other[0]] + other.skip(1));
        }
        assert(all =~= other);
    }
}

proof fn lemma_proposal_parts(path: Seq<char>, all: Seq<AssignmentView>, origin: OriginView)
    ensures
        proposal_json(path, all, origin) == "{\"path\":"@ + (json_quoted(path) + (
        ",\"assignments\":["@ + (joined(assignment_texts(all), ","@) + ("],\"origin\":"@ + (
        origin_json(origin) + "}"@))))),
{
    let p1 = "{\"path\":"@;
    let p2 = p1 + json_quoted(path);
    let p3 = p2 + ",\"assignments\":["@;
    let p4 = p3 + joined(assignment_texts(all), ","@);
    let p5 = p4 + "],\"origin\":"@;
    let x1 = origin_json(origin) + "}"@;
    let x2 = "],\"origin\":"@ + x1;
    let x3 = joined(assignment_texts(all), ","@) + x2;
    let x4 = ",\"assignments\":["@ + x3;
    lemma_regrouped(p5, origin_json(origin), "}"@);
    lemma_regrouped(p4, "],\"origin\":"@, x1);
    lemma_regrouped(p3, joined(assignment_texts(all), ","@), x2);
    lemma_regrouped(p2, ",\"assignments\":["@, x3);
    lemma_regrouped(p1, json_quoted(path), x4);
}

/// The canonical text of a proposal stands for its path, its assignments in their
/// order and its origin, and for no others.
pub proof fn a_canonical_text_stands_for_one_proposal(
    path: Seq<char>,
    all: Seq<AssignmentView>,
    origin: OriginView,
    other_path: Seq<char>,
    other: Seq<AssignmentView>,
    other_origin: OriginView,
)
    requires
        proposal_json(path, all, origin) == proposal_json(other_path, other, other_origin),
    ensures
        path == other_path,
        all == other,
        origin == other_origin,
{
    reveal_strlit("],\"origin\":");
    let w = "{\"path\":"@;
    let mid = ",\"assignments\":["@;
    let x3 = "],\"origin\":"@ + (origin_json(origin) + "}"@);
    let y3 = "],\"origin\":"@ + (origin_json(other_origin) + "}"@);
    let x2 = mid + (joined(assignment_texts(all), ","@) + x3);
    let y2 = mid + (joined(assignment_texts(other), ","@) + y3);
    lemma_proposal_parts(path, all, origin);
    lemma_proposal_parts(other_path, other, other_origin);
    lemma_same_front(w, json_quoted(path) + x2, json_quoted(other_path) + y2);
    a_json_string_ends_at_its_mark(path, other_path, x2, y2);
    lemma_same_front(
        mid,
        joined(assignment_texts(all), ","@) + x3,
        joined(assignment_texts(other), ","@) + y3,
    );
    lemma_assignments_end(all, other, x3, y3);
    lemma_same_front(
        "],\"origin\":"@,
        origin_json(origin) + "}"@,
        origin_json(other_origin) + "}"@,
    );
    an_origins_text_tells_the_origin(origin, other_origin);
}

// ─────────────────────── digests ───────────────────────

/// Bytes are written with two hexadecimal digits each, in lower case, and no two
/// sequences of bytes are written alike.
pub proof fn a_digests_digits_tell_its_bytes(a: Seq<u8>, b: Seq<u8>)
    ensures
        hex_of(a).len() == 2 * a.len(),
        forall|i: int|
            0 <= i < hex_of(a).len() ==> ('0' <= #[trigger] hex_of(a)[i] <= '9' || 'a' <= hex_of(
                a,
            )[i] <= 'f'),
        hex_of(a) == hex_of(b) ==> a == b,
    decreases a.len(),
{
    if a.len() > 0 {
        a_digests_digits_tell_its_bytes(a.drop_last(), b.drop_last());
        let s = hex_of(a);
        let init = hex_of(a.drop_last());
        assert forall|i: int| 0 <= i < s.len() implies ('0' <= #[trigger] s[i] <= '9' || 'a'
            <= s[i] <= 'f') by {
            if i < init.len() {
                assert(s[i] == init[i]);
            }
        }
    }
    if hex_of(a) == hex_of(b) {
        lemma_hex_len(b);
        if a.len() > 0 {
            let s = hex_of(a);
            let t = hex_of(b);
            assert(s.take(s.len() - 2) =~= hex_of(a.drop_last()));
            assert(t.take(t.len() - 2) =~= hex_of(b.drop_last()));
            let x = a.last() as int;
            let y = b.last() as int;
            assert(s[s.len() - 2] == hex_char(x / 16) && s[s.len() - 1] == hex_char(x % 16));
            assert(t[t.len() - 2] == hex_char(y / 16) && t[t.len() - 1] == hex_char(y % 16));
            assert(x == y);
            assert(a =~= a.drop_last().push(a.last()));
            assert(b =~= b.drop_last().push(b.last()));
        } else {
            assert(a =~= b);
        }
    }
}

proof fn lemma_hex_len(a: Seq<u8>)
    ensures
        hex_of(a).len() == 2 * a.len(),
    decreases a.len(),
{
    if a.len() > 0 {
        lemma_hex_len(a.drop_last());
    }
}

// ─────────────────────── JSON ───────────────────────

/// Characters that stand for themselves in a JSON string.
spec fn bare_in_json(s: Seq<char>) -> bool {
    forall|i: int|
        0 <= i < s.len() ==> (#[trigger] s[i] != '"' && s[i] != '\\' && s[i] as int >= 0x20)
}

proof fn lemma_bare_chars(s: Seq<char>)
    requires
        bare_in_json(s),
    ensures
        json_chars(s) == s,
        json_quoted(s) == seq!['"'] + s + seq!['"'],
    decreases s.len(),
{
    if s.len() > 0 {
        let init = s.drop_last();
        assert forall|i: int| 0 <= i < init.len() implies (#[trigger] init[i] != '"' && init[i]
            != '\\' && init[i] as int >= 0x20) by {
            assert(init[i] == s[i]);
        }
        lemma_bare_chars(init);
        assert(s.last() == s[s.len() - 1]);
        assert(json_chars(s) =~= s);
    } else {
        assert(json_chars(s) =~= s);
    }
}

/// A number or `null`, as a JSON value.
pub open spec fn number_or_null(o: Option<u64>) -> JsonView {
    match o {
        Some(n) => JsonView::Number(decimal(n as nat)),
        None => JsonView::Null,
    }
}

proof fn lemma_two_members(k: Seq<char>, v: JsonView, l: Seq<char>, w: JsonView)
    ensures
        compact(JsonView::Object(seq![(k, v), (l, w)])) == "{"@ + (json_quoted(k) + ":"@ + compact(
            v,
        )) + ","@ + (json_quoted(l) + ":"@ + compact(w)) + "}"@,
{
    let m = seq![(k, v), (l, w)];
    let a = json_quoted(k) + ":"@ + compact(v);
    let b = json_quoted(l) + ":"@ + compact(w);
    assert(m.drop_last() =~= seq![(k, v)]);
    assert(seq![(k, v)].drop_last() =~= Seq::<(Seq<char>, JsonView)>::empty());
    assert(compact_members(seq![(k, v)].drop_last()) =~= Seq::<Seq<char>>::empty());
    assert(compact_members(seq![(k, v)]) =~= seq![a]);
    assert(compact_members(m) =~= seq![a, b]);
    assert(seq![a, b].drop_last() =~= seq![a]);
    assert(joined(seq![a], ","@) == a);
    assert(joined(seq![a, b], ","@) == a + ","@ + b);
    let c = "{"@ + (a + ","@ + b) + "}"@;
    assert(compact(JsonView::Object(m)) == c);
    assert(c =~= "{"@ + a + ","@ + b + "}"@);
}

/// The text of an assignment is JSON: an object of its marker and its value.
pub proof fn an_assignments_text_is_json(a: AssignmentView)
    ensures
        assignment_json(a) == compact(
            JsonView::Object(
                seq![
                    ("marker"@, JsonView::Text(a.marker)),
                    ("value"@, JsonView::Text(a.value)),
                ],
            ),
        ),
{
    reveal_strlit("marker");
    reveal_strlit("value");
    reveal_strlit("{\"marker\":");
    reveal_strlit(",\"value\":");
    reveal_strlit("{");
    reveal_strlit(",");
    reveal_strlit(":");
    lemma_bare_chars("marker"@);
    lemma_bare_chars("value"@);
    lemma_two_members(
        "marker"@,
        JsonView::Text(a.marker),
        "value"@,
        JsonView::Text(a.value),
    );
    let m = json_quoted(a.marker);
    let v = json_quoted(a.value);
    assert("{\"marker\":"@ =~= "{"@ + (seq!['"'] + "marker"@ + seq!['"'] + ":"@));
    assert(",\"value\":"@ =~= ","@ + (seq!['"'] + "value"@ + seq!['"'] + ":"@));
    assert(assignment_json(a) =~= "{"@ + (json_quoted("marker"@) + ":"@ + m) + ","@ + (json_quoted(
        "value"@,
    ) + ":"@ + v) + "}"@);
}

proof fn lemma_members_push(m: Seq<(Seq<char>, JsonView)>, k: Seq<char>, v: JsonView)
    requires
        m.len() > 0,
    ensures
        joined(compact_members(m.push((k, v))), ","@) == joined(compact_members(m), ","@) + (","@
            + json_quoted(k) + ":"@) + compact(v),
{
    let a = json_quoted(k) + ":"@ + compact(v);
    assert(m.push((k, v)).drop_last() =~= m);
    let before = compact_members(m);
    lemma_members_len(m);
    assert(compact_members(m.push((k, v))) == before.push(a));
    assert(before.push(a).drop_last() =~= before);
    assert(joined(before, ","@) + ","@ + a =~= joined(before, ","@) + (","@ + json_quoted(k)
        + ":"@) + compact(v));
}

proof fn lemma_members_len(m: Seq<(Seq<char>, JsonView)>)
    ensures
        compact_members(m).len() == m.len(),
    decreases m.len(),
{
    if m.len() > 0 {
        lemma_members_len(m.drop_last());
    }
}

/// The text of a container is JSON: an object of its name and its four quantities,
/// each a number or `null`.
pub proof fn a_containers_text_is_json(c: ContainerResources)
    ensures
        container_json(c) == compact(
            JsonView::Object(
                seq![
                    ("name"@, JsonView::Text(c.name@)),
                    ("cpuRequest"@, number_or_null(c.cpu_request)),
                    ("cpuLimit"@, number_or_null(c.cpu_limit)),
                    ("memoryRequest"@, number_or_null(c.memory_request)),
                    ("memoryLimit"@, number_or_null(c.memory_limit)),
                ],
            ),
        ),
{
    reveal_strlit("name");
    reveal_strlit("cpuRequest");
    reveal_strlit("cpuLimit");
    reveal_strlit("memoryRequest");
    reveal_strlit("memoryLimit");
    lemma_bare_chars("name"@);
    lemma_bare_chars("cpuRequest"@);
    lemma_bare_chars("cpuLimit"@);
    lemma_bare_chars("memoryRequest"@);
    lemma_bare_chars("memoryLimit"@);
    let m1 = seq![("name"@, JsonView::Text(c.name@))];
    let m2 = m1.push(("cpuRequest"@, number_or_null(c.cpu_request)));
    let m3 = m2.push(("cpuLimit"@, number_or_null(c.cpu_limit)));
    let m4 = m3.push(("memoryRequest"@, number_or_null(c.memory_request)));
    let m5 = m4.push(("memoryLimit"@, number_or_null(c.memory_limit)));
    assert(m5 =~= seq![
        ("name"@, JsonView::Text(c.name@)),
        ("cpuRequest"@, number_or_null(c.cpu_request)),
        ("cpuLimit"@, number_or_null(c.cpu_limit)),
        ("memoryRequest"@, number_or_null(c.memory_request)),
        ("memoryLimit"@, number_or_null(c.memory_limit)),
    ]);
    lemma_members_push(m1, "cpuRequest"@, number_or_null(c.cpu_request));
    lemma_members_push(m2, "cpuLimit"@, number_or_null(c.cpu_limit));
    lemma_members_push(m3, "memoryRequest"@, number_or_null(c.memory_request));
    lemma_members_push(m4, "memoryLimit"@, number_or_null(c.memory_limit));
    lemma_member_words();
    let a = json_quoted("name"@) + ":"@ + compact(JsonView::Text(c.name@));
    assert(m1.drop_last() =~= Seq::<(Seq<char>, JsonView)>::empty());
    assert(compact_members(m1.drop_last()) =~= Seq::<Seq<char>>::empty());
    assert(compact_members(m1) =~= seq![a]);
    assert(joined(compact_members(m1), ","@) == a);
    assert(compact(number_or_null(c.cpu_request)) == optional_number(c.cpu_request));
    assert(compact(number_or_null(c.cpu_limit)) == optional_number(c.cpu_limit));
    assert(compact(number_or_null(c.memory_request)) == optional_number(c.memory_request));
    assert(compact(number_or_null(c.memory_limit)) == optional_number(c.memory_limit));
    let n = json_quoted("name"@) + ":"@;
    let q = json_quoted(c.name@);
    let j4 = a + ",\"cpuRequest\":"@ + optional_number(c.cpu_request) + ",\"cpuLimit\":"@
        + optional_number(c.cpu_limit) + ",\"memoryRequest\":"@ + optional_number(
        c.memory_request,
    ) + ",\"memoryLimit\":"@ + optional_number(c.memory_limit);
    assert(joined(compact_members(m5), ","@) == j4);
    lemma_braced(c, n, q);
}

/// The words between the quantities of a container are the names of members.
proof fn lemma_member_words()
    ensures
        ",\"cpuRequest\":"@ == ","@ + json_quoted("cpuRequest"@) + ":"@,
        ",\"cpuLimit\":"@ == ","@ + json_quoted("cpuLimit"@) + ":"@,
        ",\"memoryRequest\":"@ == ","@ + json_quoted("memoryRequest"@) + ":"@,
        ",\"memoryLimit\":"@ == ","@ + json_quoted("memoryLimit"@) + ":"@,
        "{\"name\":"@ == "{"@ + (json_quoted("name"@) + ":"@),
{
    reveal_strlit("name");
    reveal_strlit("cpuRequest");
    reveal_strlit("cpuLimit");
    reveal_strlit("memoryRequest");
    reveal_strlit("memoryLimit");
    reveal_strlit("{\"name\":");
    reveal_strlit(",\"cpuRequest\":");
    reveal_strlit(",\"cpuLimit\":");
    reveal_strlit(",\"memoryRequest\":");
    reveal_strlit(",\"memoryLimit\":");
    reveal_strlit(",");
    reveal_strlit(":");
    reveal_strlit("{");
    lemma_bare_chars("name"@);
    lemma_bare_chars("cpuRequest"@);
    lemma_bare_chars("cpuLimit"@);
    lemma_bare_chars("memoryRequest"@);
    lemma_bare_chars("memoryLimit"@);
    assert(",\"cpuRequest\":"@ =~= ","@ + json_quoted("cpuRequest"@) + ":"@);
    assert(",\"cpuLimit\":"@ =~= ","@ + json_quoted("cpuLimit"@) + ":"@);
    assert(",\"memoryRequest\":"@ =~= ","@ + json_quoted("memoryRequest"@) + ":"@);
    assert(",\"memoryLimit\":"@ =~= ","@ + json_quoted("memoryLimit"@) + ":"@);
    assert("{\"name\":"@ =~= "{"@ + (json_quoted("name"@) + ":"@));
}

proof fn lemma_braced(c: ContainerResources, n: Seq<char>, q: Seq<char>)
    requires
        "{\"name\":"@ == "{"@ + n,
        q == json_quoted(c.name@),
    ensures
        container_json(c) == "{"@ + ((n + q) + ",\"cpuRequest\":"@ + optional_number(c.cpu_request)
            + ",\"cpuLimit\":"@ + optional_number(c.cpu_limit) + ",\"memoryRequest\":"@
            + optional_number(c.memory_request) + ",\"memoryLimit\":"@ + optional_number(
            c.memory_limit,
        )) + "}"@,
{
    let b = "{"@;
    let s1 = n + q;
    let s2 = s1 + ",\"cpuRequest\":"@;
    let s3 = s2 + optional_number(c.cpu_request);
    let s4 = s3 + ",\"cpuLimit\":"@;
    let s5 = s4 + optional_number(c.cpu_limit);
    let s6 = s5 + ",\"memoryRequest\":"@;
    let s7 = s6 + optional_number(c.memory_request);
    let s8 = s7 + ",\"memoryLimit\":"@;
    lemma_regrouped(b, n, q);
    lemma_regrouped(b, s1, ",\"cpuRequest\":"@);
    lemma_regrouped(b, s2, optional_number(c.cpu_request));
    lemma_regrouped(b, s3, ",\"cpuLimit\":"@);
    lemma_regrouped(b, s4, optional_number(c.cpu_limit));
    lemma_regrouped(b, s5, ",\"memoryRequest\":"@);
    lemma_regrouped(b, s6, optional_number(c.memory_request));
    lemma_regrouped(b, s7, ",\"memoryLimit\":"@);
    lemma_regrouped(b, s8, optional_number(c.memory_limit));
}

/// The text of a carve is JSON: an object of its kind and what it is made for.
pub proof fn a_carves_text_is_json(resource: Seq<char>, container: Seq<char>)
    ensures
        origin_json((OriginView::Carve { resource, container })) == compact(
            JsonView::Object(
                seq![
                    ("origin"@, JsonView::Text("carve"@)),
                    ("resource"@, JsonView::Text(resource)),
                    ("container"@, JsonView::Text(container)),
                ],
            ),
        ),
{
    reveal_strlit("origin");
    reveal_strlit("carve");
    reveal_strlit("resource");
    reveal_strlit("container");
    reveal_strlit("{\"origin\":\"carve\",\"resource\":");
    reveal_strlit(",\"container\":");
    reveal_strlit(",");
    reveal_strlit(":");
    reveal_strlit("{");
    lemma_bare_chars("origin"@);
    lemma_bare_chars("carve"@);
    lemma_bare_chars("resource"@);
    lemma_bare_chars("container"@);
    let m1 = seq![("origin"@, JsonView::Text("carve"@))];
    let m2 = m1.push(("resource"@, JsonView::Text(resource)));
    let m3 = m2.push(("container"@, JsonView::Text(container)));
    assert(m3 =~= seq![
        ("origin"@, JsonView::Text("carve"@)),
        ("resource"@, JsonView::Text(resource)),
        ("container"@, JsonView::Text(container)),
    ]);
    lemma_members_push(m1, "resource"@, JsonView::Text(resource));
    lemma_members_push(m2, "container"@, JsonView::Text(container));
    let first = json_quoted("origin"@) + ":"@ + json_quoted("carve"@);
    assert(compact(JsonView::Text("carve"@)) == json_quoted("carve"@));
    assert(m1.last() == ("origin"@, JsonView::Text("carve"@)));
    assert(m1.drop_last() =~= Seq::<(Seq<char>, JsonView)>::empty());
    assert(compact_members(m1.drop_last()) =~= Seq::<Seq<char>>::empty());
    assert(compact_members(m1) =~= seq![first]);
    assert(joined(compact_members(m1), ","@) == first);
    let w2 = ","@ + json_quoted("resource"@) + ":"@;
    let w3 = ","@ + json_quoted("container"@) + ":"@;
    assert("{\"origin\":\"carve\",\"resource\":"@ =~= "{"@ + (first + w2));
    assert(",\"container\":"@ =~= w3);
    let q = json_quoted(resource);
    let r = json_quoted(container);
    lemma_regrouped("{"@, first + w2, q);
    lemma_regrouped("{"@, first + w2 + q, w3);
    lemma_regrouped("{"@, first + w2 + q + w3, r);
}

/// The text of a change of class is JSON: an object of its kind and what it is made for.
pub proof fn a_transitions_text_is_json(before: Seq<char>, after: Seq<char>)
    ensures
        origin_json((OriginView::Transition { before, after })) == compact(
            JsonView::Object(
                seq![
                    ("origin"@, JsonView::Text("transition"@)),
                    ("from"@, JsonView::Text(before)),
                    ("to"@, JsonView::Text(after)),
                ],
            ),
        ),
{
    reveal_strlit("origin");
    reveal_strlit("transition");
    reveal_strlit("from");
    reveal_strlit("to");
    reveal_strlit("{\"origin\":\"transition\",\"from\":");
    reveal_strlit(",\"to\":");
    reveal_strlit(",");
    reveal_strlit(":");
    reveal_strlit("{");
    lemma_bare_chars("origin"@);
    lemma_bare_chars("transition"@);
    lemma_bare_chars("from"@);
    lemma_bare_chars("to"@);
    let m1 = seq![("origin"@, JsonView::Text("transition"@))];
    let m2 = m1.push(("from"@, JsonView::Text(before)));
    let m3 = m2.push(("to"@, JsonView::Text(after)));
    assert(m3 =~= seq![
        ("origin"@, JsonView::Text("transition"@)),
        ("from"@, JsonView::Text(before)),
        ("to"@, JsonView::Text(after)),
    ]);
    lemma_members_push(m1, "from"@, JsonView::Text(before));
    lemma_members_push(m2, "to"@, JsonView::Text(after));
    let first = json_quoted("origin"@) + ":"@ + json_quoted("transition"@);
    assert(compact(JsonView::Text("transition"@)) == json_quoted("transition"@));
    assert(m1.last() == ("origin"@, JsonView::Text("transition"@)));
    assert(m1.drop_last() =~= Seq::<(Seq<char>, JsonView)>::empty());
    assert(compact_members(m1.drop_last()) =~= Seq::<Seq<char>>::empty());
    assert(compact_members(m1) =~= seq![first]);
    assert(joined(compact_members(m1), ","@) == first);
    let w2 = ","@ + json_quoted("from"@) + ":"@;
    let w3 = ","@ + json_quoted("to"@) + ":"@;
    assert("{\"origin\":\"transition\",\"from\":"@ =~= "{"@ + (first + w2));
    assert(",\"to\":"@ =~= w3);
    let q = json_quoted(before);
    let r = json_quoted(after);
    lemma_regrouped("{"@, first + w2, q);
    lemma_regrouped("{"@, first + w2 + q, w3);
    lemma_regrouped("{"@, first + w2 + q + w3, r);
}

} // verus!
