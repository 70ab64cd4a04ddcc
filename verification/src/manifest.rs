//! The durable side of a carve: one scalar of one manifest is set at the line
//! that carries its marker, every other byte stays, and the change is committed
//! behind a wall.

use vstd::prelude::*;

use crate::json::{join_texts, joined, json_quoted, quote_json};
use crate::request::{
    blake3_digest, hex_of, ClassTransitionProposal, CommitReceipt, ContainerResources,
    ContentAddr, WriterError, WriterErrorView,
};
use crate::gate::LiveWitness;
use crate::marked_line::{
    a_plain_value_reads_back, a_set_value_stands_in_its_line, carries, carries_marker, find_scalar,
    is_plain, line_after, lemma_scalar_span, reads_back, replaced, scalar_span,
};
use crate::text::{
    chars_of, debug_quoted, debug_text, decimal, decimal_text, full_lines, index_or_end,
    lemma_index_or_end, lemma_texts_push, same_text, split_full_lines, starts, strip_prefix,
    text_between, texts, trim_end, utf8_text, without_trailing, CharClass,
};

verus! {

// ─────────────────────── setting one scalar ───────────────────────

/// The places of the lines that carry the marker.
pub open spec fn carriers(lines: Seq<Seq<char>>, marker: Seq<char>) -> Seq<int>
    decreases lines.len(),
{
    if lines.len() == 0 {
        Seq::empty()
    } else if carries(lines.last(), marker) {
        carriers(lines.drop_last(), marker).push(lines.len() - 1)
    } else {
        carriers(lines.drop_last(), marker)
    }
}

/// The lines one behind the other.
pub open spec fn flattened(lines: Seq<Seq<char>>) -> Seq<char>
    decreases lines.len(),
{
    if lines.len() == 0 {
        Seq::empty()
    } else {
        flattened(lines.drop_last()) + lines.last()
    }
}

/// One change of a scalar.
#[derive(Debug, PartialEq, Eq)]
pub struct ScalarEdit {
    /// The line, counted from one.
    pub line: usize,
    /// The value before.
    pub from: String,
    /// The value after.
    pub to: String,
}

/// A change with its texts as characters.
pub struct EditView {
    /// The line, counted from one.
    pub line: int,
    /// The value before.
    pub from: Seq<char>,
    /// The value after.
    pub to: Seq<char>,
}

impl View for ScalarEdit {
    type V = EditView;

    open spec fn view(&self) -> EditView {
        EditView { line: self.line as int, from: self.from@, to: self.to@ }
    }
}

/// What came of setting a scalar.
#[derive(Debug, PartialEq, Eq)]
pub enum EditOutcome {
    /// It had the value already.
    Unchanged { line: usize, value: String },
    /// It was changed.
    Changed { edit: ScalarEdit, rendered: Vec<u8> },
}

/// An outcome with its texts as characters.
pub enum OutcomeView {
    /// It had the value already.
    Unchanged { line: int, value: Seq<char> },
    /// It was changed.
    Changed { edit: EditView, rendered: Seq<u8> },
}

impl View for EditOutcome {
    type V = OutcomeView;

    open spec fn view(&self) -> OutcomeView {
        match *self {
            EditOutcome::Unchanged { line, value } => OutcomeView::Unchanged {
                line: line as int,
                value: value@,
            },
            EditOutcome::Changed { edit, rendered } => OutcomeView::Changed {
                edit: edit@,
                rendered: rendered@,
            },
        }
    }
}

/// Why a scalar was not set.
#[derive(Debug, PartialEq, Eq)]
pub enum EditError {
    /// The manifest is no text.
    NotUtf8,
    /// No line carries the marker.
    MarkerNotFound { marker: String },
    /// Several lines carry the marker.
    MarkerAmbiguous { marker: String, lines: Vec<usize> },
    /// The line has no scalar.
    NotAScalarAssignment { marker: String, line: usize },
}

/// An error with its texts as characters.
#[allow(inconsistent_fields)]
pub enum EditErrorView {
    /// The manifest is no text.
    NotUtf8,
    /// No line carries the marker.
    MarkerNotFound { marker: Seq<char> },
    /// Several lines carry the marker.
    MarkerAmbiguous { marker: Seq<char>, lines: Seq<int> },
    /// The line has no scalar.
    NotAScalarAssignment { marker: Seq<char>, line: int },
}

/// Numbers as integers.
pub open spec fn as_ints(v: Seq<usize>) -> Seq<int> {
    v.map_values(|x: usize| x as int)
}

impl View for EditError {
    type V = EditErrorView;

    open spec fn view(&self) -> EditErrorView {
        match *self {
            EditError::NotUtf8 => EditErrorView::NotUtf8,
            EditError::MarkerNotFound { marker } => EditErrorView::MarkerNotFound {
                marker: marker@,
            },
            EditError::MarkerAmbiguous { marker, lines } => EditErrorView::MarkerAmbiguous {
                marker: marker@,
                lines: as_ints(lines@),
            },
            EditError::NotAScalarAssignment { marker, line } => {
                EditErrorView::NotAScalarAssignment { marker: marker@, line: line as int }
            },
        }
    }
}

/// What setting the scalar at the marker of a text comes to. Exactly one line
/// must carry the marker, and it must have a scalar.
pub open spec fn edit_of(text: Seq<char>, marker: Seq<char>, new: Seq<char>) -> Result<
    OutcomeView,
    EditErrorView,
> {
    let lines = full_lines(text);
    let hits = carriers(lines, marker);
    if hits.len() == 0 {
        Err(EditErrorView::MarkerNotFound { marker })
    } else if hits.len() > 1 {
        Err(EditErrorView::MarkerAmbiguous { marker, lines: hits.map_values(|i: int| i + 1) })
    } else {
        let hit = hits[0];
        match scalar_span(lines[hit]) {
            None => Err(EditErrorView::NotAScalarAssignment { marker, line: hit + 1 }),
            Some((a, b)) => {
                let from = lines[hit].subrange(a, b);
                if from == new {
                    Ok(OutcomeView::Unchanged { line: hit + 1, value: from })
                } else {
                    Ok(
                        OutcomeView::Changed {
                            edit: EditView { line: hit + 1, from, to: new },
                            rendered: vstd::utf8::encode_utf8(
                                flattened(lines.update(hit, replaced(lines[hit], a, b, new))),
                            ),
                        },
                    )
                }
            },
        }
    }
}

/// What setting the scalar at the marker of a manifest comes to.
pub open spec fn edit_bytes(source: Seq<u8>, marker: Seq<char>, new: Seq<char>) -> Result<
    OutcomeView,
    EditErrorView,
> {
    if vstd::utf8::valid_utf8(source) {
        edit_of(vstd::utf8::decode_utf8(source), marker, new)
    } else {
        Err(EditErrorView::NotUtf8)
    }
}

/// The view of what came of setting a scalar.
pub open spec fn edit_result(r: Result<EditOutcome, EditError>) -> Result<
    OutcomeView,
    EditErrorView,
> {
    match r {
        Ok(o) => Ok(o@),
        Err(e) => Err(e@),
    }
}

fn find_carriers(lines: &Vec<String>, marker: &str) -> (r: Vec<usize>)
    ensures
        as_ints(r@) == carriers(texts(lines@), marker@),
        forall|k: int| 0 <= k < r.len() ==> #[trigger] r@[k] < lines.len(),
{
    let mut hits: Vec<usize> = Vec::new();
    let mut i: usize = 0;
    let ghost all = texts(lines@);
    assert(all.take(0) =~= Seq::<Seq<char>>::empty());
    assert(as_ints(hits@) =~= carriers(all.take(0), marker@));
    while i < lines.len()
        invariant
            i <= lines.len(),
            all == texts(lines@),
            as_ints(hits@) == carriers(all.take(i as int), marker@),
            forall|k: int| 0 <= k < hits.len() ==> #[trigger] hits@[k] < lines.len(),
        decreases lines.len() - i,
    {
        assert(all.take(i + 1).drop_last() =~= all.take(i as int));
        assert(all.take(i + 1).last() == lines@[i as int]@);
        let ghost before = hits@;
        let v = chars_of(lines[i].as_str());
        if carries_marker(&v, marker) {
            hits.push(i);
            assert(as_ints(hits@) =~= as_ints(before).push(i as int));
        }
        i = i + 1;
    }
    assert(all.take(lines.len() as int) =~= all);
    hits
}

fn render_lines(lines: &Vec<String>, hit: usize, line: &str) -> (r: String)
    requires
        hit < lines.len(),
    ensures
        r@ == flattened(texts(lines@).update(hit as int, line@)),
{
    let mut out = String::new();
    let mut i: usize = 0;
    let ghost all = texts(lines@).update(hit as int, line@);
    assert(all.take(0) =~= Seq::<Seq<char>>::empty());
    while i < lines.len()
        invariant
            i <= lines.len(),
            hit < lines.len(),
            all == texts(lines@).update(hit as int, line@),
            out@ == flattened(all.take(i as int)),
        decreases lines.len() - i,
    {
        assert(all.take(i + 1).drop_last() =~= all.take(i as int));
        assert(all.take(i + 1).last() == all[i as int]);
        if i == hit {
            out.append(line);
        } else {
            assert(all[i as int] == lines@[i as int]@);
            out.append(lines[i].as_str());
        }
        i = i + 1;
    }
    assert(all.take(lines.len() as int) =~= all);
    out
}

/// Sets the scalar of the one line that carries the marker. Every other byte
/// stays; where several lines carry the marker none is chosen.
pub fn set_scalar_at_marker(source: &[u8], marker: &str, new_value: &str) -> (r: Result<
    EditOutcome,
    EditError,
>)
    ensures
        edit_result(r) == edit_bytes(source@, marker@, new_value@),
{
    let text = match utf8_text(source) {
        Some(t) => t,
        None => {
            return Err(EditError::NotUtf8);
        },
    };
    proof {
        vstd::utf8::encode_utf8_decode_utf8(text@);
        assert(vstd::utf8::decode_utf8(source@) == text@);
    }
    let lines = split_full_lines(text);
    let hits = find_carriers(&lines, marker);
    let ghost all = full_lines(text@);
    let ghost hit_ints = carriers(all, marker@);
    assert(hit_ints.len() == hits.len());
    if hits.len() == 0 {
        return Err(EditError::MarkerNotFound { marker: marker.to_owned() });
    }
    if hits.len() > 1 {
        let mut numbers: Vec<usize> = Vec::new();
        let mut k: usize = 0;
        while k < hits.len()
            invariant
                k <= hits.len(),
                numbers.len() == k,
                forall|j: int| 0 <= j < hits.len() ==> #[trigger] hits@[j] < lines.len(),
                forall|j: int| 0 <= j < k ==> #[trigger] numbers@[j] == hits@[j] + 1,
            decreases hits.len() - k,
        {
            numbers.push(hits[k] + 1);
            k = k + 1;
        }
        assert(as_ints(numbers@) =~= hit_ints.map_values(|i: int| i + 1)) by {
            assert forall|j: int| 0 <= j < numbers.len() implies as_ints(numbers@)[j]
                == hit_ints.map_values(|i: int| i + 1)[j] by {
                assert(as_ints(hits@)[j] == hits@[j]);
                assert(numbers@[j] == hits@[j] + 1);
            }
        }
        return Err(EditError::MarkerAmbiguous { marker: marker.to_owned(), lines: numbers });
    }
    let hit: usize = hits[0];
    assert(hit_ints[0] == hit) by {
        assert(as_ints(hits@)[0] == hit);
    }
    let v = chars_of(lines[hit].as_str());
    assert(all[hit as int] == v@) by {
        assert(texts(lines@)[hit as int] == lines@[hit as int]@);
    }
    match find_scalar(&v) {
        None => Err(EditError::NotAScalarAssignment { marker: marker.to_owned(), line: hit + 1 }),
        Some((a, b)) => {
            let from = text_between(&v, a, b);
            if same_text(from.as_str(), new_value) {
                return Ok(EditOutcome::Unchanged { line: hit + 1, value: from });
            }
            let mut line = text_between(&v, 0, a);
            line.append(new_value);
            line.append(text_between(&v, b, v.len()).as_str());
            assert(v@.subrange(0, a as int) =~= v@.take(a as int));
            assert(v@.subrange(b as int, v.len() as int) =~= v@.skip(b as int));
            let rendered = render_lines(&lines, hit, line.as_str());
            Ok(
                EditOutcome::Changed {
                    edit: ScalarEdit { line: hit + 1, from, to: new_value.to_owned() },
                    rendered: rendered.as_str().as_bytes_vec(),
                },
            )
        },
    }
}

// ─────────────────────── setting several scalars ───────────────────────

/// A value for the scalar at a marker.
#[derive(Debug, PartialEq, Eq)]
pub struct ScalarAssignment {
    /// The marker.
    pub marker: String,
    /// The value.
    pub value: String,
}

/// What came of setting several scalars.
#[derive(Debug, PartialEq, Eq)]
pub struct ApplyOutcome {
    /// The manifest after.
    pub rendered: Vec<u8>,
    /// The changes made, in order.
    pub changes: Vec<ScalarEdit>,
    /// How many scalars had their value already.
    pub already_correct: usize,
}

/// An outcome with its texts as characters.
pub struct ApplyView {
    /// The manifest after.
    pub rendered: Seq<u8>,
    /// The changes made, in order.
    pub changes: Seq<EditView>,
    /// How many scalars had their value already.
    pub already_correct: int,
}

/// The views of changes.
pub open spec fn edits_view(v: Seq<ScalarEdit>) -> Seq<EditView> {
    v.map_values(|e: ScalarEdit| e@)
}

impl View for ApplyOutcome {
    type V = ApplyView;

    open spec fn view(&self) -> ApplyView {
        ApplyView {
            rendered: self.rendered@,
            changes: edits_view(self.changes@),
            already_correct: self.already_correct as int,
        }
    }
}

/// What setting several scalars comes to, one after the other. The first that
/// cannot be set fails the whole.
pub open spec fn apply_of(source: Seq<u8>, assignments: Seq<ScalarAssignment>) -> Result<
    ApplyView,
    EditErrorView,
>
    decreases assignments.len(),
{
    if assignments.len() == 0 {
        Ok(ApplyView { rendered: source, changes: Seq::empty(), already_correct: 0 })
    } else {
        match apply_of(source, assignments.drop_last()) {
            Err(e) => Err(e),
            Ok(before) => match edit_bytes(
                before.rendered,
                assignments.last().marker@,
                assignments.last().value@,
            ) {
                Err(e) => Err(e),
                Ok(OutcomeView::Unchanged { .. }) => Ok(
                    ApplyView { already_correct: before.already_correct + 1, ..before },
                ),
                Ok(OutcomeView::Changed { edit, rendered }) => Ok(
                    ApplyView { rendered, changes: before.changes.push(edit), ..before },
                ),
            },
        }
    }
}

/// The view of what came of setting several scalars.
pub open spec fn apply_result(r: Result<ApplyOutcome, EditError>) -> Result<
    ApplyView,
    EditErrorView,
> {
    match r {
        Ok(o) => Ok(o@),
        Err(e) => Err(e@),
    }
}

proof fn lemma_apply_error_stays(source: Seq<u8>, assignments: Seq<ScalarAssignment>, n: int)
    requires
        0 <= n <= assignments.len(),
        apply_of(source, assignments.take(n)) is Err,
    ensures
        apply_of(source, assignments) == apply_of(source, assignments.take(n)),
    decreases assignments.len() - n,
{
    if n < assignments.len() {
        assert(assignments.take(n + 1).drop_last() =~= assignments.take(n));
        lemma_apply_error_stays(source, assignments, n + 1);
    } else {
        assert(assignments.take(n) =~= assignments);
    }
}

fn copy_bytes(source: &[u8]) -> (r: Vec<u8>)
    ensures
        r@ == source@,
{
    let mut r: Vec<u8> = Vec::new();
    let mut i: usize = 0;
    while i < source.len()
        invariant
            i <= source.len(),
            r@ == source@.take(i as int),
        decreases source.len() - i,
    {
        r.push(source[i]);
        assert(r@ =~= source@.take(i + 1));
        i = i + 1;
    }
    assert(source@.take(source.len() as int) =~= source@);
    r
}

/// Sets several scalars, all or none.
pub fn apply_all(source: &[u8], assignments: &[ScalarAssignment]) -> (r: Result<
    ApplyOutcome,
    EditError,
>)
    ensures
        apply_result(r) == apply_of(source@, assignments@),
{
    let mut current: Vec<u8> = copy_bytes(source);
    let mut changes: Vec<ScalarEdit> = Vec::new();
    let mut already_correct: usize = 0;
    let mut i: usize = 0;
    let ghost all = assignments@;
    assert(all.take(0) =~= Seq::<ScalarAssignment>::empty());
    assert(edits_view(changes@) =~= Seq::<EditView>::empty());
    while i < assignments.len()
        invariant
            i <= assignments.len(),
            all == assignments@,
            already_correct <= i,
            apply_of(source@, all.take(i as int)) == Ok::<ApplyView, EditErrorView>(
                ApplyView {
                    rendered: current@,
                    changes: edits_view(changes@),
                    already_correct: already_correct as int,
                },
            ),
        decreases assignments.len() - i,
    {
        assert(all.take(i + 1).drop_last() =~= all.take(i as int));
        assert(all.take(i + 1).last() == all[i as int]);
        let a = &assignments[i];
        match set_scalar_at_marker(current.as_slice(), a.marker.as_str(), a.value.as_str()) {
            Ok(EditOutcome::Unchanged { .. }) => {
                already_correct = already_correct + 1;
            },
            Ok(EditOutcome::Changed { edit, rendered }) => {
                let ghost before = changes@;
                changes.push(edit);
                assert(edits_view(changes@) =~= edits_view(before).push(edit@));
                current = rendered;
            },
            Err(e) => {
                proof {
                    lemma_apply_error_stays(source@, all, i + 1);
                }
                return Err(e);
            },
        }
        i = i + 1;
    }
    assert(all.take(assignments.len() as int) =~= all);
    Ok(ApplyOutcome { rendered: current, changes, already_correct })
}

// ─────────────────────── laws of setting ───────────────────────

proof fn lemma_encode_concat(a: Seq<char>, b: Seq<char>)
    ensures
        vstd::utf8::encode_utf8(a + b) == vstd::utf8::encode_utf8(a) + vstd::utf8::encode_utf8(b),
    decreases a.len(),
{
    if a.len() == 0 {
        assert(a + b =~= b);
        assert(vstd::utf8::encode_utf8(a) =~= Seq::<u8>::empty());
        assert(vstd::utf8::encode_utf8(a) + vstd::utf8::encode_utf8(b)
            =~= vstd::utf8::encode_utf8(b));
    } else {
        lemma_encode_concat(a.drop_first(), b);
        assert((a + b).drop_first() =~= a.drop_first() + b);
        assert((a + b)[0] == a[0]);
        let head = vstd::utf8::encode_scalar(a[0] as u32);
        assert(head + (vstd::utf8::encode_utf8(a.drop_first()) + vstd::utf8::encode_utf8(b)) =~= (
        head + vstd::utf8::encode_utf8(a.drop_first())) + vstd::utf8::encode_utf8(b));
    }
}

proof fn lemma_flattened_front(lines: Seq<Seq<char>>)
    requires
        lines.len() > 0,
    ensures
        flattened(lines) == lines[0] + flattened(lines.drop_first()),
    decreases lines.len(),
{
    if lines.len() == 1 {
        assert(lines.drop_last() =~= Seq::<Seq<char>>::empty());
        assert(lines.drop_first() =~= Seq::<Seq<char>>::empty());
        assert(flattened(lines.drop_last()) =~= Seq::<char>::empty());
        assert(flattened(lines) =~= lines[0]);
        assert(lines[0] + flattened(lines.drop_first()) =~= lines[0]);
    } else {
        let init = lines.drop_last();
        lemma_flattened_front(init);
        assert(init.drop_first() =~= lines.drop_first().drop_last());
        assert(lines.drop_first().last() == lines.last());
        assert((lines[0] + flattened(init.drop_first())) + lines.last() =~= lines[0] + (flattened(
            init.drop_first(),
        ) + lines.last()));
    }
}

proof fn lemma_flattened_split(lines: Seq<Seq<char>>, i: int)
    requires
        0 <= i < lines.len(),
    ensures
        flattened(lines) == flattened(lines.take(i)) + lines[i] + flattened(lines.skip(i + 1)),
    decreases lines.len() - i,
{
    if i == lines.len() - 1 {
        assert(lines.take(i) =~= lines.drop_last());
        assert(lines.skip(i + 1) =~= Seq::<Seq<char>>::empty());
        assert(flattened(lines) + Seq::<char>::empty() =~= flattened(lines));
    } else {
        let init = lines.drop_last();
        lemma_flattened_split(init, i);
        assert(init.take(i) =~= lines.take(i));
        assert(init.skip(i + 1) =~= lines.skip(i + 1).drop_last());
        assert(lines.skip(i + 1).last() == lines.last());
        let p = flattened(lines.take(i)) + lines[i];
        assert((p + flattened(init.skip(i + 1))) + lines.last() =~= p + (flattened(
            init.skip(i + 1),
        ) + lines.last()));
    }
}

proof fn lemma_index_is(s: Seq<char>, c: char, k: int)
    requires
        0 <= k <= s.len(),
        forall|j: int| 0 <= j < k ==> #[trigger] s[j] != c,
        k < s.len() ==> s[k] == c,
    ensures
        index_or_end(s, c) == k,
{
    lemma_index_or_end(s, c);
    let n = index_or_end(s, c);
    if n < k {
        assert(s[n as int] != c);
    }
}

/// Lines that are lines: none is empty, a line end stands only at the end of a
/// line, and every line but the last has one.
spec fn proper(lines: Seq<Seq<char>>) -> bool {
    &&& forall|i: int| 0 <= i < lines.len() ==> (#[trigger] lines[i]).len() > 0
    &&& forall|i: int, k: int|
        0 <= i < lines.len() && 0 <= k < lines[i].len() - 1 ==> #[trigger] lines[i][k] != '\n'
    &&& forall|i: int| 0 <= i < lines.len() - 1 ==> (#[trigger] lines[i]).last() == '\n'
}

proof fn lemma_full_lines(text: Seq<char>)
    ensures
        flattened(full_lines(text)) == text,
        proper(full_lines(text)),
    decreases text.len(),
{
    let n = index_or_end(text, '\n') as int;
    lemma_index_or_end(text, '\n');
    let lines = full_lines(text);
    if text.len() == 0 {
        assert(lines =~= Seq::<Seq<char>>::empty());
    } else if n >= text.len() {
        assert(lines =~= seq![text]);
        assert(lines.drop_last() =~= Seq::<Seq<char>>::empty());
        assert(flattened(lines.drop_last()) =~= Seq::<char>::empty());
        assert(flattened(lines) =~= text);
    } else {
        let first = text.take(n + 1);
        let rest = text.skip(n + 1);
        lemma_full_lines(rest);
        let tail = full_lines(rest);
        assert(lines =~= seq![first] + tail);
        assert(lines.drop_first() =~= tail);
        lemma_flattened_front(lines);
        assert(first + rest =~= text);
        assert forall|i: int| 0 <= i < lines.len() implies (#[trigger] lines[i]).len() > 0 by {
            if i > 0 {
                assert(lines[i] == tail[i - 1]);
            }
        }
        assert forall|i: int, k: int|
            0 <= i < lines.len() && 0 <= k < lines[i].len() - 1 implies #[trigger] lines[i][k]
            != '\n' by {
            if i > 0 {
                assert(lines[i] == tail[i - 1]);
                assert(tail[i - 1][k] != '\n');
            } else {
                assert(first[k] == text[k]);
            }
        }
        assert forall|i: int| 0 <= i < lines.len() - 1 implies (#[trigger] lines[i]).last()
            == '\n' by {
            if i > 0 {
                assert(lines[i] == tail[i - 1]);
                assert(tail[i - 1].last() == '\n');
            } else {
                assert(first.last() == text[n]);
            }
        }
    }
}

proof fn lemma_proper_lines(lines: Seq<Seq<char>>)
    requires
        proper(lines),
    ensures
        full_lines(flattened(lines)) == lines,
    decreases lines.len(),
{
    let text = flattened(lines);
    if lines.len() == 0 {
        assert(full_lines(text) =~= lines);
    } else {
        lemma_flattened_front(lines);
        let first = lines[0];
        let tail = lines.drop_first();
        let rest = flattened(tail);
        assert(text == first + rest);
        assert(proper(tail)) by {
            assert forall|i: int| 0 <= i < tail.len() implies (#[trigger] tail[i]).len() > 0 by {
                assert(tail[i] == lines[i + 1]);
            }
            assert forall|i: int, k: int|
                0 <= i < tail.len() && 0 <= k < tail[i].len() - 1 implies #[trigger] tail[i][k]
                != '\n' by {
                assert(tail[i] == lines[i + 1]);
                assert(lines[i + 1][k] != '\n');
            }
            assert forall|i: int| 0 <= i < tail.len() - 1 implies (#[trigger] tail[i]).last()
                == '\n' by {
                assert(tail[i] == lines[i + 1]);
                assert(lines[i + 1].last() == '\n');
            }
        }
        lemma_proper_lines(tail);
        let m = first.len() as int;
        assert forall|j: int| 0 <= j < m - 1 implies #[trigger] text[j] != '\n' by {
            assert(lines[0][j] != '\n');
            assert(text[j] == first[j]);
        }
        assert(text[m - 1] == first[m - 1]);
        if first.last() == '\n' {
            lemma_index_is(text, '\n', m - 1);
            assert(text.take(m) =~= first);
            assert(text.skip(m) =~= rest);
            assert(full_lines(text) =~= seq![first] + tail);
            assert(lines =~= seq![first] + tail);
        } else {
            assert(lines.len() == 1);
            assert(tail =~= Seq::<Seq<char>>::empty());
            assert(rest =~= Seq::<char>::empty());
            assert(text =~= first);
            lemma_index_is(text, '\n', m);
            assert(full_lines(text) =~= seq![text]);
            assert(lines =~= seq![first]);
        }
    }
}

proof fn lemma_replaced_text(lines: Seq<Seq<char>>, hit: int, a: int, b: int, new: Seq<char>)
    requires
        0 <= hit < lines.len(),
        0 <= a <= b <= lines[hit].len(),
    ensures
        ({
            let p = flattened(lines.take(hit)) + lines[hit].take(a);
            let q = lines[hit].skip(b) + flattened(lines.skip(hit + 1));
            &&& flattened(lines) == p + lines[hit].subrange(a, b) + q
            &&& flattened(lines.update(hit, replaced(lines[hit], a, b, new))) == p + new + q
        }),
{
    let line = lines[hit];
    let after = replaced(line, a, b, new);
    lemma_flattened_split(lines, hit);
    lemma_flattened_split(lines.update(hit, after), hit);
    assert(lines.update(hit, after).take(hit) =~= lines.take(hit));
    assert(lines.update(hit, after).skip(hit + 1) =~= lines.skip(hit + 1));
    let f = flattened(lines.take(hit));
    let g = flattened(lines.skip(hit + 1));
    assert(line =~= line.take(a) + line.subrange(a, b) + line.skip(b));
    assert(f + (line.take(a) + line.subrange(a, b) + line.skip(b)) + g =~= (f + line.take(a))
        + line.subrange(a, b) + (line.skip(b) + g));
    assert(f + (line.take(a) + new + line.skip(b)) + g =~= (f + line.take(a)) + new + (line.skip(b)
        + g));
}

proof fn lemma_encode_three(p: Seq<char>, m: Seq<char>, q: Seq<char>)
    ensures
        vstd::utf8::encode_utf8(p + m + q) == vstd::utf8::encode_utf8(p)
            + vstd::utf8::encode_utf8(m) + vstd::utf8::encode_utf8(q),
{
    lemma_encode_concat(p + m, q);
    lemma_encode_concat(p, m);
}

/// A scalar that is changed leaves every byte in front of it and behind it as
/// it was: the manifest before and after differ, and in the value alone.
pub proof fn every_other_byte_stays(
    source: Seq<u8>,
    marker: Seq<char>,
    new: Seq<char>,
    edit: EditView,
    rendered: Seq<u8>,
)
    requires
        edit_bytes(source, marker, new) == Ok::<OutcomeView, EditErrorView>(
            OutcomeView::Changed { edit, rendered },
        ),
    ensures
        edit.to == new,
        edit.from != new,
        rendered != source,
        exists|front: Seq<u8>, back: Seq<u8>|
            source == #[trigger] (front + vstd::utf8::encode_utf8(edit.from) + back) && rendered
                == front + vstd::utf8::encode_utf8(new) + back,
{
    let text = vstd::utf8::decode_utf8(source);
    vstd::utf8::decode_utf8_encode_utf8(source);
    lemma_full_lines(text);
    let lines = full_lines(text);
    let hit = carriers(lines, marker)[0];
    lemma_carriers(lines, marker);
    let (a, b) = scalar_span(lines[hit])->0;
    lemma_scalar_span(lines[hit]);
    lemma_replaced_text(lines, hit, a, b, new);
    let p = flattened(lines.take(hit)) + lines[hit].take(a);
    let q = lines[hit].skip(b) + flattened(lines.skip(hit + 1));
    lemma_encode_three(p, edit.from, q);
    lemma_encode_three(p, new, q);
    let front = vstd::utf8::encode_utf8(p);
    let back = vstd::utf8::encode_utf8(q);
    assert(source == front + vstd::utf8::encode_utf8(edit.from) + back);
    assert(rendered == front + vstd::utf8::encode_utf8(new) + back);
    vstd::utf8::encode_utf8_decode_utf8(edit.from);
    vstd::utf8::encode_utf8_decode_utf8(new);
    if rendered == source {
        let old_bytes = vstd::utf8::encode_utf8(edit.from);
        let new_bytes = vstd::utf8::encode_utf8(new);
        assert(old_bytes.len() == new_bytes.len());
        assert(old_bytes =~= source.subrange(
            front.len() as int,
            (front.len() + old_bytes.len()) as int,
        ));
        assert(new_bytes =~= source.subrange(
            front.len() as int,
            (front.len() + old_bytes.len()) as int,
        ));
    }
}

proof fn lemma_carriers(lines: Seq<Seq<char>>, marker: Seq<char>)
    ensures
        forall|k: int|
            0 <= k < carriers(lines, marker).len() ==> 0 <= #[trigger] carriers(lines, marker)[k]
                < lines.len() && carries(lines[carriers(lines, marker)[k]], marker),
    decreases lines.len(),
{
    if lines.len() > 0 {
        let init = lines.drop_last();
        lemma_carriers(init, marker);
        let cs = carriers(lines, marker);
        let before = carriers(init, marker);
        assert forall|k: int| 0 <= k < cs.len() implies 0 <= #[trigger] cs[k] < lines.len()
            && carries(lines[cs[k]], marker) by {
            if k < before.len() {
                assert(cs[k] == before[k]);
                assert(init[before[k]] == lines[before[k]]);
            }
        }
    }
}

/// Setting several scalars accounts for each of them, and where none changes,
/// the manifest comes out byte for byte as it went in.
pub proof fn a_manifest_without_changes_is_untouched(
    source: Seq<u8>,
    assignments: Seq<ScalarAssignment>,
)
    ensures
        apply_of(source, assignments) matches Ok(o) ==> o.changes.len() + o.already_correct
            == assignments.len() && o.already_correct >= 0 && (o.changes.len() == 0 ==> o.rendered
            == source),
    decreases assignments.len(),
{
    if assignments.len() > 0 {
        a_manifest_without_changes_is_untouched(source, assignments.drop_last());
    }
}

proof fn lemma_carriers_update(lines: Seq<Seq<char>>, marker: Seq<char>, i: int, line: Seq<char>)
    requires
        0 <= i < lines.len(),
        carries(lines[i], marker) == carries(line, marker),
    ensures
        carriers(lines.update(i, line), marker) == carriers(lines, marker),
    decreases lines.len(),
{
    let init = lines.drop_last();
    let next = lines.update(i, line);
    if i < lines.len() - 1 {
        lemma_carriers_update(init, marker, i, line);
        assert(next.drop_last() =~= init.update(i, line));
        assert(next.last() == lines.last());
    } else {
        assert(next.drop_last() =~= init);
        assert(next.last() == line);
    }
}

proof fn lemma_proper_update(lines: Seq<Seq<char>>, hit: int, a: int, b: int, new: Seq<char>)
    requires
        proper(lines),
        0 <= hit < lines.len(),
        0 <= a <= b < lines[hit].len(),
        !new.contains('\n'),
    ensures
        proper(lines.update(hit, replaced(lines[hit], a, b, new))),
{
    let line = lines[hit];
    let after = replaced(line, a, b, new);
    let next = lines.update(hit, after);
    assert(after.last() == line.last());
    assert forall|i: int| 0 <= i < next.len() implies (#[trigger] next[i]).len() > 0 by {
        if i != hit {
            assert(next[i] == lines[i]);
        }
    }
    assert forall|i: int, k: int|
        0 <= i < next.len() && 0 <= k < next[i].len() - 1 implies #[trigger] next[i][k] != '\n' by {
        if i != hit {
            assert(next[i] == lines[i]);
            assert(lines[i][k] != '\n');
        } else if k < a {
            assert(lines[hit][k] != '\n');
            assert(after[k] == line[k]);
        } else if k < a + new.len() {
            assert(after[k] == new[k - a]);
        } else {
            let o = k - new.len() + (b - a);
            assert(after[k] == line[o]);
            assert(lines[hit][o] != '\n');
        }
    }
    assert forall|i: int| 0 <= i < next.len() - 1 implies (#[trigger] next[i]).last() == '\n' by {
        if i != hit {
            assert(next[i] == lines[i]);
        }
        assert(lines[i].last() == '\n');
    }
}

/// Setting a scalar twice is setting it once: where the value can be read back
/// from its line, the second time changes nothing and finds the value there.
pub proof fn setting_twice_is_setting_once(
    source: Seq<u8>,
    marker: Seq<char>,
    new: Seq<char>,
    edit: EditView,
    rendered: Seq<u8>,
)
    requires
        edit_bytes(source, marker, new) == Ok::<OutcomeView, EditErrorView>(
            OutcomeView::Changed { edit, rendered },
        ),
        reads_back(lines_of(source)[edit.line - 1], new),
    ensures
        edit_bytes(rendered, marker, new) == Ok::<OutcomeView, EditErrorView>(
            OutcomeView::Unchanged { line: edit.line, value: new },
        ),
{
    let lines = lines_of(source);
    let hit = carriers(lines, marker)[0];
    let line = lines[hit];
    let (a, b) = scalar_span(line)->0;
    lemma_changed_lines(source, marker, new, edit, rendered);
    a_set_value_stands_in_its_line(line, new);
    let after = line_after(line, new);
    lemma_carriers_update(lines, marker, hit, after);
    assert(lines_of(rendered)[hit] == after);
    assert(after.subrange(a, a + new.len()) =~= new);
}

/// The lines of a manifest.
pub open spec fn lines_of(source: Seq<u8>) -> Seq<Seq<char>> {
    full_lines(vstd::utf8::decode_utf8(source))
}

/// Where a value that stays on its line is set, no other line changes.
proof fn lemma_changed_lines(
    source: Seq<u8>,
    marker: Seq<char>,
    new: Seq<char>,
    edit: EditView,
    rendered: Seq<u8>,
)
    requires
        edit_bytes(source, marker, new) == Ok::<OutcomeView, EditErrorView>(
            OutcomeView::Changed { edit, rendered },
        ),
        !new.contains('\n'),
    ensures
        ({
            let lines = lines_of(source);
            let hit = carriers(lines, marker)[0];
            let (a, b) = scalar_span(lines[hit])->0;
            &&& 0 <= hit < lines.len()
            &&& carries(lines[hit], marker)
            &&& 0 <= a <= b < lines[hit].len()
            &&& vstd::utf8::valid_utf8(rendered)
            &&& lines_of(rendered) == lines.update(hit, replaced(lines[hit], a, b, new))
        }),
{
    let text = vstd::utf8::decode_utf8(source);
    let lines = full_lines(text);
    let hit = carriers(lines, marker)[0];
    lemma_carriers(lines, marker);
    lemma_full_lines(text);
    let line = lines[hit];
    let (a, b) = scalar_span(line)->0;
    lemma_scalar_span(line);
    let next = lines.update(hit, replaced(line, a, b, new));
    lemma_proper_update(lines, hit, a, b, new);
    lemma_proper_lines(next);
    let rewritten = flattened(next);
    vstd::utf8::encode_utf8_valid_utf8(rewritten);
    vstd::utf8::encode_utf8_decode_utf8(rewritten);
}

/// The markers stand on lines of their own: no two are carried by the same line.
pub open spec fn apart(source: Seq<u8>, all: Seq<ScalarAssignment>) -> bool {
    forall|i: int, k: int|
        0 <= i < k < all.len() ==> carriers(lines_of(source), (#[trigger] all[i]).marker@)
            != carriers(lines_of(source), (#[trigger] all[k]).marker@)
}

/// Every value is a plain one.
pub open spec fn all_plain(all: Seq<ScalarAssignment>) -> bool {
    forall|i: int| 0 <= i < all.len() ==> is_plain((#[trigger] all[i]).value@)
}

spec fn is_settled(rendered: Seq<u8>, a: ScalarAssignment) -> bool {
    edit_bytes(rendered, a.marker@, a.value@) matches Ok(out) && out is Unchanged
}

/// What is settled stays settled while another line changes.
proof fn lemma_stays_settled(
    before: Seq<u8>,
    rendered: Seq<u8>,
    hit: int,
    after: Seq<char>,
    a: ScalarAssignment,
)
    requires
        is_settled(before, a),
        0 <= hit < lines_of(before).len(),
        carriers(lines_of(before), a.marker@)[0] != hit,
        vstd::utf8::valid_utf8(rendered),
        lines_of(rendered) == lines_of(before).update(hit, after),
        carriers(lines_of(rendered), a.marker@) == carriers(lines_of(before), a.marker@),
    ensures
        is_settled(rendered, a),
{
    let lines = lines_of(before);
    let own = carriers(lines, a.marker@);
    lemma_carriers(lines, a.marker@);
    assert(lines_of(rendered)[own[0]] == lines[own[0]]);
}

#[verifier::spinoff_prover]
proof fn lemma_settled(source: Seq<u8>, all: Seq<ScalarAssignment>, n: int)
    requires
        0 <= n <= all.len(),
        apply_of(source, all) is Ok,
        apart(source, all),
        all_plain(all),
    ensures
        apply_of(source, all.take(n)) matches Ok(o) && (forall|marker: Seq<char>| #[trigger]
            carriers(lines_of(o.rendered), marker) == carriers(lines_of(source), marker)) && (
        forall|k: int| 0 <= k < n ==> is_settled(o.rendered, #[trigger] all[k])),
    decreases n,
{
    if apply_of(source, all.take(n)) is Err {
        lemma_apply_error_stays(source, all, n);
    }
    if n > 0 {
        lemma_settled(source, all, n - 1);
        assert(all.take(n).drop_last() =~= all.take(n - 1));
        assert(all.take(n).last() == all[n - 1]);
        let before = apply_of(source, all.take(n - 1))->Ok_0.rendered;
        let a = all[n - 1];
        assert(is_plain(a.value@));
        let lines = lines_of(before);
        match edit_bytes(before, a.marker@, a.value@)->Ok_0 {
            OutcomeView::Unchanged { .. } => {
                assert(is_settled(before, a));
            },
            OutcomeView::Changed { edit, rendered } => {
                let hit = carriers(lines, a.marker@)[0];
                let line = lines[hit];
                lemma_carriers(lines, a.marker@);
                a_plain_value_reads_back(line, a.value@);
                assert forall|i: int| 0 <= i < a.value@.len() implies #[trigger] a.value@[i]
                    != '\n' by {}
                lemma_changed_lines(before, a.marker@, a.value@, edit, rendered);
                setting_twice_is_setting_once(before, a.marker@, a.value@, edit, rendered);
                a_set_value_stands_in_its_line(line, a.value@);
                let after = line_after(line, a.value@);
                assert(lines_of(rendered) == lines.update(hit, after));
                assert forall|marker: Seq<char>| #[trigger]
                    carriers(lines_of(rendered), marker) == carriers(lines_of(source), marker) by {
                    lemma_carriers_update(lines, marker, hit, after);
                }
                assert forall|k: int| 0 <= k < n implies is_settled(
                    rendered,
                    #[trigger] all[k],
                ) by {
                    if k < n - 1 {
                        assert(is_settled(before, all[k]));
                        let own = carriers(lines, all[k].marker@);
                        let other = carriers(lines, a.marker@);
                        assert(own.len() == 1);
                        assert(own == carriers(lines_of(source), all[k].marker@));
                        assert(other == carriers(lines_of(source), all[n - 1].marker@));
                        assert(own != other);
                        assert(own[0] != hit) by {
                            if own[0] == hit {
                                assert(own =~= other);
                            }
                        }
                        lemma_stays_settled(before, rendered, hit, after, all[k]);
                    }
                }
            },
        }
    }
}

proof fn lemma_all_settled(rendered: Seq<u8>, all: Seq<ScalarAssignment>, n: int)
    requires
        0 <= n <= all.len(),
        forall|k: int| 0 <= k < n ==> is_settled(rendered, #[trigger] all[k]),
    ensures
        apply_of(rendered, all.take(n)) == Ok::<ApplyView, EditErrorView>(
            ApplyView { rendered, changes: Seq::empty(), already_correct: n },
        ),
    decreases n,
{
    if n > 0 {
        lemma_all_settled(rendered, all, n - 1);
        assert(all.take(n).drop_last() =~= all.take(n - 1));
        assert(all.take(n).last() == all[n - 1]);
        assert(is_settled(rendered, all[n - 1]));
    }
}

/// What was committed is not committed again: where plain values were set at
/// markers on lines of their own, setting all of them a second time changes
/// nothing. The manifest came out as it went in exactly where nothing changed,
/// and every assignment is accounted for.
pub proof fn a_committed_proposal_is_not_committed_again(
    source: Seq<u8>,
    assignments: Seq<ScalarAssignment>,
)
    requires
        apply_of(source, assignments) is Ok,
        apart(source, assignments),
        all_plain(assignments),
    ensures
        ({
            let o = apply_of(source, assignments)->Ok_0;
            &&& apply_of(o.rendered, assignments) == Ok::<ApplyView, EditErrorView>(
                ApplyView {
                    rendered: o.rendered,
                    changes: Seq::empty(),
                    already_correct: assignments.len() as int,
                },
            )
            &&& o.changes.len() + o.already_correct == assignments.len()
            &&& o.changes.len() == 0 <==> o.rendered == source
        }),
{
    let n = assignments.len() as int;
    let o = apply_of(source, assignments)->Ok_0;
    lemma_settled(source, assignments, n);
    assert(assignments.take(n) =~= assignments);
    lemma_all_settled(o.rendered, assignments, n);
    a_manifest_without_changes_is_untouched(source, assignments);
}

// ─────────────────────── errors in words ───────────────────────

/// The decimal numerals of numbers.
pub open spec fn numerals(v: Seq<int>) -> Seq<Seq<char>> {
    v.map_values(|n: int| decimal(n as nat))
}

impl EditErrorView {
    /// The error in words.
    pub open spec fn words(self) -> Seq<char> {
        match self {
            EditErrorView::NotUtf8 => "manifest is not valid UTF-8"@,
            EditErrorView::MarkerNotFound { marker } => "no line carries the breathe marker "@
                + debug_quoted(marker),
            EditErrorView::MarkerAmbiguous { marker, lines } => "the breathe marker "@
                + debug_quoted(marker) + " appears on "@ + decimal(lines.len()) + " lines (["@
                + joined(numerals(lines), ", "@) + "]) — refusing to guess"@,
            EditErrorView::NotAScalarAssignment { marker, line } => "line "@ + decimal(line as nat)
                + " (marker "@ + debug_quoted(marker)
                + ") is not a `key: value` scalar assignment"@,
        }
    }
}

impl EditError {
    /// The error in words.
    #[must_use]
    pub fn message(&self) -> (r: String)
        ensures
            r@ == self@.words(),
    {
        match self {
            EditError::NotUtf8 => "manifest is not valid UTF-8".to_owned(),
            EditError::MarkerNotFound { marker } => {
                let mut s = "no line carries the breathe marker ".to_owned();
                s.append(debug_text(marker.as_str()).as_str());
                s
            },
            EditError::MarkerAmbiguous { marker, lines } => {
                let mut parts: Vec<String> = Vec::new();
                let mut i: usize = 0;
                let ghost all = numerals(as_ints(lines@));
                assert(texts(parts@) =~= all.take(0));
                while i < lines.len()
                    invariant
                        i <= lines.len(),
                        all == numerals(as_ints(lines@)),
                        texts(parts@) == all.take(i as int),
                    decreases lines.len() - i,
                {
                    broadcast use lemma_texts_push;

                    parts.push(decimal_text(lines[i] as u64));
                    assert(all.take(i as int).push(all[i as int]) =~= all.take(i + 1));
                    i = i + 1;
                }
                assert(all.take(lines.len() as int) =~= all);
                let mut s = "the breathe marker ".to_owned();
                s.append(debug_text(marker.as_str()).as_str());
                s.append(" appears on ");
                s.append(decimal_text(lines.len() as u64).as_str());
                s.append(" lines ([");
                s.append(join_texts(&parts, ", ").as_str());
                s.append("]) — refusing to guess");
                s
            },
            EditError::NotAScalarAssignment { marker, line } => {
                let mut s = "line ".to_owned();
                s.append(decimal_text(*line as u64).as_str());
                s.append(" (marker ");
                s.append(debug_text(marker.as_str()).as_str());
                s.append(") is not a `key: value` scalar assignment");
                s
            },
        }
    }
}

// ─────────────────────── proposals ───────────────────────

/// Where a scalar lives: the manifest and the marker of its line.
#[derive(Debug, PartialEq, Eq)]
pub struct ManifestCoordinate {
    /// The manifest's path.
    pub path: String,
    /// The marker.
    pub marker: String,
}

impl ManifestCoordinate {
    /// The place of a scalar.
    #[must_use]
    pub fn new(path: &str, marker: &str) -> (r: Self)
        ensures
            r.path@ == path@,
            r.marker@ == marker@,
    {
        ManifestCoordinate { path: path.to_owned(), marker: marker.to_owned() }
    }
}

/// What a proposal comes from.
#[derive(Debug, PartialEq, Eq)]
pub enum ProposalOrigin {
    /// A carve.
    Carve { resource: String, container: String },
    /// A change of class.
    Transition { from: String, to: String },
}

/// An origin with its texts as characters.
pub enum OriginView {
    /// A carve.
    Carve { resource: Seq<char>, container: Seq<char> },
    /// A change of class.
    Transition { before: Seq<char>, after: Seq<char> },
}

impl View for ProposalOrigin {
    type V = OriginView;

    open spec fn view(&self) -> OriginView {
        match *self {
            ProposalOrigin::Carve { resource, container } => OriginView::Carve {
                resource: resource@,
                container: container@,
            },
            ProposalOrigin::Transition { from, to } => OriginView::Transition {
                before: from@,
                after: to@,
            },
        }
    }
}

/// A proposal for a manifest, under the address of its content.
#[derive(Debug, PartialEq, Eq)]
pub struct AddressedProposal {
    path: String,
    assignments: Vec<ScalarAssignment>,
    origin: ProposalOrigin,
    addr: ContentAddr,
}

/// A scalar's marker and value as characters.
pub struct AssignmentView {
    /// The marker.
    pub marker: Seq<char>,
    /// The value.
    pub value: Seq<char>,
}

impl View for ScalarAssignment {
    type V = AssignmentView;

    open spec fn view(&self) -> AssignmentView {
        AssignmentView { marker: self.marker@, value: self.value@ }
    }
}

/// The views of assignments.
pub open spec fn assignments_view(v: Seq<ScalarAssignment>) -> Seq<AssignmentView> {
    v.map_values(|a: ScalarAssignment| a@)
}

/// A proposal with its texts as characters.
pub struct ProposalView {
    /// The manifest's path.
    pub path: Seq<char>,
    /// The scalars to set.
    pub assignments: Seq<AssignmentView>,
    /// What it comes from.
    pub origin: OriginView,
    /// The address of its content.
    pub addr: Seq<u8>,
}

impl ProposalView {
    /// The address is the one of the content: of the path, the scalars and the
    /// origin.
    pub open spec fn addressed(self) -> bool {
        self.addr == proposal_addr(self.path, self.assignments, self.origin)
    }
}

/// Proposals with equal content have equal addresses.
pub proof fn equal_content_has_an_equal_address(p: ProposalView, q: ProposalView)
    requires
        p.addressed(),
        q.addressed(),
        p.path == q.path,
        p.assignments == q.assignments,
        p.origin == q.origin,
    ensures
        p.addr == q.addr,
{
}

impl View for AddressedProposal {
    type V = ProposalView;

    closed spec fn view(&self) -> ProposalView {
        ProposalView {
            path: self.path@,
            assignments: assignments_view(self.assignments@),
            origin: self.origin@,
            addr: self.addr@,
        }
    }
}

/// The canonical text of one assignment.
pub open spec fn assignment_json(a: AssignmentView) -> Seq<char> {
    "{\"marker\":"@ + json_quoted(a.marker) + ",\"value\":"@ + json_quoted(a.value) + "}"@
}

/// The canonical text of an origin.
pub open spec fn origin_json(o: OriginView) -> Seq<char> {
    match o {
        OriginView::Carve { resource, container } => "{\"origin\":\"carve\",\"resource\":"@
            + json_quoted(resource) + ",\"container\":"@ + json_quoted(container) + "}"@,
        OriginView::Transition { before, after } => "{\"origin\":\"transition\",\"from\":"@
            + json_quoted(before) + ",\"to\":"@ + json_quoted(after) + "}"@,
    }
}

/// The canonical text of a proposal's content.
pub open spec fn proposal_json(
    path: Seq<char>,
    assignments: Seq<AssignmentView>,
    origin: OriginView,
) -> Seq<char> {
    "{\"path\":"@ + json_quoted(path) + ",\"assignments\":["@ + joined(
        assignments.map_values(|a: AssignmentView| assignment_json(a)),
        ","@,
    ) + "],\"origin\":"@ + origin_json(origin) + "}"@
}

/// The address of a proposal's content.
pub open spec fn proposal_addr(
    path: Seq<char>,
    assignments: Seq<AssignmentView>,
    origin: OriginView,
) -> Seq<u8> {
    blake3_digest(vstd::utf8::encode_utf8(proposal_json(path, assignments, origin)))
}

fn origin_json_text(origin: &ProposalOrigin) -> (r: String)
    ensures
        r@ == origin_json(origin@),
{
    match origin {
        ProposalOrigin::Carve { resource, container } => {
            let mut s = "{\"origin\":\"carve\",\"resource\":".to_owned();
            s.append(quote_json(resource.as_str()).as_str());
            s.append(",\"container\":");
            s.append(quote_json(container.as_str()).as_str());
            s.append("}");
            s
        },
        ProposalOrigin::Transition { from, to } => {
            let mut s = "{\"origin\":\"transition\",\"from\":".to_owned();
            s.append(quote_json(from.as_str()).as_str());
            s.append(",\"to\":");
            s.append(quote_json(to.as_str()).as_str());
            s.append("}");
            s
        },
    }
}

fn address_of(path: &str, assignments: &Vec<ScalarAssignment>, origin: &ProposalOrigin) -> (r:
    ContentAddr)
    ensures
        r@ == proposal_addr(path@, assignments_view(assignments@), origin@),
{
    let mut parts: Vec<String> = Vec::new();
    let mut i: usize = 0;
    let ghost all = assignments_view(assignments@).map_values(
        |a: AssignmentView| assignment_json(a),
    );
    assert(texts(parts@) =~= all.take(0));
    while i < assignments.len()
        invariant
            i <= assignments.len(),
            all == assignments_view(assignments@).map_values(
                |a: AssignmentView| assignment_json(a),
            ),
            texts(parts@) == all.take(i as int),
        decreases assignments.len() - i,
    {
        broadcast use lemma_texts_push;

        let mut part = "{\"marker\":".to_owned();
        part.append(quote_json(assignments[i].marker.as_str()).as_str());
        part.append(",\"value\":");
        part.append(quote_json(assignments[i].value.as_str()).as_str());
        part.append("}");
        parts.push(part);
        assert(all[i as int] == assignment_json(assignments@[i as int]@));
        assert(all.take(i as int).push(all[i as int]) =~= all.take(i + 1));
        i = i + 1;
    }
    assert(all.take(assignments.len() as int) =~= all);
    let mut s = "{\"path\":".to_owned();
    s.append(quote_json(path).as_str());
    s.append(",\"assignments\":[");
    s.append(join_texts(&parts, ",").as_str());
    s.append("],\"origin\":");
    s.append(origin_json_text(origin).as_str());
    s.append("}");
    ContentAddr::of(s.as_str().as_bytes())
}

/// How a quantity of a resource is written in a manifest: cpu in millicores
/// with an `m`, anything else as a bare number.
pub open spec fn scalar_words(resource: Seq<char>, raw: u64) -> Seq<char> {
    if resource == "cpu"@ {
        decimal(raw as nat) + "m"@
    } else {
        decimal(raw as nat)
    }
}

/// A quantity of a resource as it is written in a manifest.
pub fn render_scalar(resource: &str, raw: u64) -> (r: String)
    ensures
        r@ == scalar_words(resource@, raw),
{
    let mut s = decimal_text(raw);
    if same_text(resource, "cpu") {
        s.append("m");
    }
    s
}

/// One scalar that a change of class has to set: its key and its value.
pub struct ScalarView {
    /// The key.
    pub key: Seq<char>,
    /// The value.
    pub value: Seq<char>,
}

/// The scalar of a container's request, where it declares one.
pub open spec fn request_scalar(name: Seq<char>, resource: Seq<char>, request: Option<u64>) -> Seq<
    ScalarView,
> {
    match request {
        Some(raw) => seq![
            ScalarView {
                key: name + ".requests."@ + resource,
                value: scalar_words(resource, raw),
            },
        ],
        None => Seq::empty(),
    }
}

/// The scalars that a change of class has to set: for each container its memory
/// request, then its cpu request, as far as it declares them.
pub open spec fn scalars_of(cs: Seq<ContainerResources>) -> Seq<ScalarView>
    decreases cs.len(),
{
    if cs.len() == 0 {
        Seq::empty()
    } else {
        let c = cs.last();
        scalars_of(cs.drop_last()) + request_scalar(c.name@, "memory"@, c.memory_request)
            + request_scalar(c.name@, "cpu"@, c.cpu_request)
    }
}

/// The views of pairs of texts.
pub open spec fn scalars_view(v: Seq<(String, String)>) -> Seq<ScalarView> {
    v.map_values(|p: (String, String)| ScalarView { key: p.0@, value: p.1@ })
}

fn push_scalar(out: &mut Vec<(String, String)>, name: &str, resource: &str, request: Option<u64>)
    ensures
        scalars_view(final(out)@) == scalars_view(old(out)@) + request_scalar(
            name@,
            resource@,
            request,
        ),
{
    match request {
        Some(raw) => {
            let mut key = name.to_owned();
            key.append(".requests.");
            key.append(resource);
            let value = render_scalar(resource, raw);
            let ghost before = out@;
            out.push((key, value));
            assert(scalars_view(out@) =~= scalars_view(before) + request_scalar(
                name@,
                resource@,
                request,
            ));
        },
        None => {
            assert(scalars_view(out@) + Seq::<ScalarView>::empty() =~= scalars_view(out@));
        },
    }
}

/// The scalars that a change of class has to set.
pub fn required_scalars(p: &ClassTransitionProposal) -> (r: Vec<(String, String)>)
    ensures
        scalars_view(r@) == scalars_of(p.block.containers@),
{
    let cs = &p.block.containers;
    let mut out: Vec<(String, String)> = Vec::new();
    let mut i: usize = 0;
    assert(scalars_view(out@) =~= Seq::<ScalarView>::empty());
    assert(cs@.take(0) =~= Seq::<ContainerResources>::empty());
    while i < cs.len()
        invariant
            i <= cs.len(),
            scalars_view(out@) == scalars_of(cs@.take(i as int)),
        decreases cs.len() - i,
    {
        assert(cs@.take(i + 1).drop_last() =~= cs@.take(i as int));
        assert(cs@.take(i + 1).last() == cs@[i as int]);
        push_scalar(&mut out, cs[i].name.as_str(), "memory", cs[i].memory_request);
        push_scalar(&mut out, cs[i].name.as_str(), "cpu", cs[i].cpu_request);
        i = i + 1;
    }
    assert(cs@.take(cs.len() as int) =~= cs@);
    out
}

/// The scalars for which the manifest has no marker.
#[derive(Debug, PartialEq, Eq)]
pub struct CoordinateGap {
    /// Their keys.
    pub missing: Vec<String>,
}

/// The words for a gap.
pub open spec fn gap_words(missing: Seq<Seq<char>>) -> Seq<char> {
    if missing.len() == 0 {
        "the proposed block changes no scalar — nothing to commit"@
    } else {
        "no manifest marker for: "@ + joined(missing, ", "@)
    }
}

impl CoordinateGap {
    /// The gap in words.
    #[must_use]
    pub fn message(&self) -> (r: String)
        ensures
            r@ == gap_words(texts(self.missing@)),
    {
        if self.missing.len() == 0 {
            return "the proposed block changes no scalar — nothing to commit".to_owned();
        }
        let mut s = "no manifest marker for: ".to_owned();
        s.append(join_texts(&self.missing, ", ").as_str());
        s
    }
}

/// The marker of the first pair with the key.
pub open spec fn marker_of(markers: Seq<ScalarView>, key: Seq<char>) -> Option<Seq<char>>
    decreases markers.len(),
{
    if markers.len() == 0 {
        None
    } else {
        match marker_of(markers.drop_last(), key) {
            Some(m) => Some(m),
            None => if markers.last().key == key {
                Some(markers.last().value)
            } else {
                None
            },
        }
    }
}

/// The assignments of the scalars that have a marker.
pub open spec fn anchored(want: Seq<ScalarView>, markers: Seq<ScalarView>) -> Seq<AssignmentView>
    decreases want.len(),
{
    if want.len() == 0 {
        Seq::empty()
    } else {
        match marker_of(markers, want.last().key) {
            Some(marker) => anchored(want.drop_last(), markers).push(
                AssignmentView { marker, value: want.last().value },
            ),
            None => anchored(want.drop_last(), markers),
        }
    }
}

/// The keys of the scalars that have no marker.
pub open spec fn unanchored(want: Seq<ScalarView>, markers: Seq<ScalarView>) -> Seq<Seq<char>>
    decreases want.len(),
{
    if want.len() == 0 {
        Seq::empty()
    } else {
        match marker_of(markers, want.last().key) {
            Some(_) => unanchored(want.drop_last(), markers),
            None => unanchored(want.drop_last(), markers).push(want.last().key),
        }
    }
}

fn find_marker(markers: &[(String, String)], key: &str) -> (r: Option<String>)
    ensures
        match r {
            Some(m) => marker_of(scalars_view(markers@), key@) == Some(m@),
            None => marker_of(scalars_view(markers@), key@) is None,
        },
{
    let ghost all = scalars_view(markers@);
    let mut i: usize = 0;
    assert(all.take(0) =~= Seq::<ScalarView>::empty());
    while i < markers.len()
        invariant
            i <= markers.len(),
            all == scalars_view(markers@),
            marker_of(all.take(i as int), key@) is None,
        decreases markers.len() - i,
    {
        assert(all.take(i + 1).drop_last() =~= all.take(i as int));
        assert(all.take(i + 1).last() == all[i as int]);
        if same_text(markers[i].0.as_str(), key) {
            proof {
                lemma_marker_extends(all, key@, i + 1);
            }
            return Some(markers[i].1.clone());
        }
        i = i + 1;
    }
    assert(all.take(markers.len() as int) =~= all);
    None
}

proof fn lemma_marker_extends(markers: Seq<ScalarView>, key: Seq<char>, n: int)
    requires
        0 <= n <= markers.len(),
        marker_of(markers.take(n), key) is Some,
    ensures
        marker_of(markers, key) == marker_of(markers.take(n), key),
    decreases markers.len() - n,
{
    if n < markers.len() {
        assert(markers.take(n + 1).drop_last() =~= markers.take(n));
        lemma_marker_extends(markers, key, n + 1);
    } else {
        assert(markers.take(n) =~= markers);
    }
}

impl AddressedProposal {
    #[verifier::type_invariant]
    spec fn is_addressed(self) -> bool {
        self@.addressed()
    }

    /// A proposal to set one scalar to a carved value.
    #[must_use]
    pub fn carve(coord: &ManifestCoordinate, value: &str, resource: &str, container: &str) -> (r:
        Self)
        ensures
            r@ == ({
                let assignments = seq![
                    AssignmentView { marker: coord.marker@, value: value@ },
                ];
                let origin = OriginView::Carve { resource: resource@, container: container@ };
                ProposalView {
                    path: coord.path@,
                    assignments,
                    origin,
                    addr: proposal_addr(coord.path@, assignments, origin),
                }
            }),
    {
        let mut assignments: Vec<ScalarAssignment> = Vec::new();
        assignments.push(ScalarAssignment { marker: coord.marker.clone(), value: value.to_owned() });
        assert(assignments_view(assignments@) =~= seq![
            AssignmentView { marker: coord.marker@, value: value@ },
        ]);
        let origin = ProposalOrigin::Carve {
            resource: resource.to_owned(),
            container: container.to_owned(),
        };
        let addr = address_of(coord.path.as_str(), &assignments, &origin);
        AddressedProposal { path: coord.path.clone(), assignments, origin, addr }
    }

    /// A proposal to set the scalars of another class. Every scalar needs a
    /// marker; those without one are named.
    pub fn transition(
        path: &str,
        proposal: &ClassTransitionProposal,
        markers: &[(String, String)],
    ) -> (r: Result<Self, CoordinateGap>)
        ensures
            ({
                let want = scalars_of(proposal.block.containers@);
                let known = scalars_view(markers@);
                if want.len() == 0 || unanchored(want, known).len() > 0 {
                    r matches Err(g) && texts(g.missing@) == unanchored(want, known)
                } else {
                    let origin = OriginView::Transition {
                        before: proposal.from.name(),
                        after: proposal.to.name(),
                    };
                    r matches Ok(p) && p@ == (ProposalView {
                        path: path@,
                        assignments: anchored(want, known),
                        origin,
                        addr: proposal_addr(path@, anchored(want, known), origin),
                    })
                }
            }),
    {
        let want = required_scalars(proposal);
        let mut assignments: Vec<ScalarAssignment> = Vec::new();
        let mut missing: Vec<String> = Vec::new();
        let ghost all = scalars_view(want@);
        let ghost known = scalars_view(markers@);
        let mut i: usize = 0;
        assert(all.take(0) =~= Seq::<ScalarView>::empty());
        assert(assignments_view(assignments@) =~= Seq::<AssignmentView>::empty());
        assert(texts(missing@) =~= Seq::<Seq<char>>::empty());
        while i < want.len()
            invariant
                i <= want.len(),
                all == scalars_view(want@),
                known == scalars_view(markers@),
                assignments_view(assignments@) == anchored(all.take(i as int), known),
                texts(missing@) == unanchored(all.take(i as int), known),
            decreases want.len() - i,
        {
            broadcast use lemma_texts_push;

            assert(all.take(i + 1).drop_last() =~= all.take(i as int));
            assert(all.take(i + 1).last() == all[i as int]);
            match find_marker(markers, want[i].0.as_str()) {
                Some(marker) => {
                    let ghost before = assignments@;
                    let a = ScalarAssignment { marker, value: want[i].1.clone() };
                    assignments.push(a);
                    assert(assignments_view(assignments@) =~= assignments_view(before).push(a@));
                },
                None => {
                    missing.push(want[i].0.clone());
                },
            }
            i = i + 1;
        }
        assert(all.take(want.len() as int) =~= all);
        if want.len() == 0 || missing.len() > 0 {
            assert(texts(missing@).len() == missing.len());
            return Err(CoordinateGap { missing });
        }
        assert(texts(missing@).len() == 0);
        let origin = ProposalOrigin::Transition {
            from: proposal.from.as_str().to_owned(),
            to: proposal.to.as_str().to_owned(),
        };
        let addr = address_of(path, &assignments, &origin);
        Ok(AddressedProposal { path: path.to_owned(), assignments, origin, addr })
    }

    /// The manifest's path.
    #[must_use]
    pub fn path(&self) -> (r: &str)
        ensures
            r@ == self@.path,
    {
        self.path.as_str()
    }

    /// The scalars to set.
    #[must_use]
    pub fn assignments(&self) -> (r: &[ScalarAssignment])
        ensures
            r@ == self.assignments_seq(),
            assignments_view(r@) == self@.assignments,
    {
        self.assignments.as_slice()
    }

    /// The scalars to set, as stored.
    pub closed spec fn assignments_seq(self) -> Seq<ScalarAssignment> {
        self.assignments@
    }

    /// What the proposal comes from.
    #[must_use]
    pub fn origin(&self) -> (r: &ProposalOrigin)
        ensures
            r@ == self@.origin,
    {
        &self.origin
    }

    /// The address of the proposal's content.
    #[must_use]
    pub fn addr(&self) -> (r: ContentAddr)
        ensures
            r@ == self@.addr,
            self@.addressed(),
    {
        proof {
            use_type_invariant(self);
        }
        self.addr
    }
}

// ─────────────────────── the wall, and committing ───────────────────────

/// `path` lies inside `prefix`: `prefix`, trimmed of a trailing slash, is not
/// empty, and `path` is `prefix` itself or starts with it followed by a slash.
pub open spec fn within(path: Seq<char>, prefix: Seq<char>) -> bool {
    let p = without_trailing(prefix, CharClass::Slash);
    p.len() > 0 && (path == p || (starts(path, p) && path.len() > p.len() && path[p.len() as int]
        == '/'))
}

/// Whether a path lies inside a prefix.
#[must_use]
pub fn within_prefix(path: &str, prefix: &str) -> (r: bool)
    ensures
        r == within(path@, prefix@),
{
    let p = trim_end(prefix, CharClass::Slash);
    if p.as_str().is_empty() {
        return false;
    }
    if same_text(path, p.as_str()) {
        return true;
    }
    match strip_prefix(path, p.as_str()) {
        Some(rest) => chars_of(rest.as_str()).len() > 0 && chars_of(rest.as_str())[0] == '/',
        None => false,
    }
}

/// A repository error.
#[derive(Debug, PartialEq, Eq)]
pub enum RepoError {
    /// The manifest does not exist.
    NotFound { path: String },
    /// Reading or writing failed.
    Io { detail: String },
    /// Someone else committed meanwhile.
    Conflict { detail: String },
}

/// A repository error with its texts as characters.
pub enum RepoErrorView {
    /// The manifest does not exist.
    NotFound { path: Seq<char> },
    /// Reading or writing failed.
    Io { detail: Seq<char> },
    /// Someone else committed meanwhile.
    Conflict { detail: Seq<char> },
}

impl View for RepoError {
    type V = RepoErrorView;

    open spec fn view(&self) -> RepoErrorView {
        match *self {
            RepoError::NotFound { path } => RepoErrorView::NotFound { path: path@ },
            RepoError::Io { detail } => RepoErrorView::Io { detail: detail@ },
            RepoError::Conflict { detail } => RepoErrorView::Conflict { detail: detail@ },
        }
    }
}

impl RepoErrorView {
    /// The error in words.
    pub open spec fn words(self) -> Seq<char> {
        match self {
            RepoErrorView::NotFound { path } => "no such manifest: "@ + path,
            RepoErrorView::Io { detail } => "manifest repo I/O failed: "@ + detail,
            RepoErrorView::Conflict { detail } => "manifest repo conflict: "@ + detail,
        }
    }
}

impl RepoError {
    /// The error in words.
    #[must_use]
    pub fn message(&self) -> (r: String)
        ensures
            r@ == self@.words(),
    {
        match self {
            RepoError::NotFound { path } => {
                let mut s = "no such manifest: ".to_owned();
                s.append(path.as_str());
                s
            },
            RepoError::Io { detail } => {
                let mut s = "manifest repo I/O failed: ".to_owned();
                s.append(detail.as_str());
                s
            },
            RepoError::Conflict { detail } => {
                let mut s = "manifest repo conflict: ".to_owned();
                s.append(detail.as_str());
                s
            },
        }
    }
}

/// A writer's error from a repository's.
pub open spec fn transport_of(e: RepoErrorView) -> WriterErrorView {
    match e {
        RepoErrorView::Conflict { detail } => WriterErrorView::Conflict { detail },
        _ => WriterErrorView::Transport { detail: e.words() },
    }
}

/// A writer's error from a repository's.
#[must_use]
pub fn transport(e: RepoError) -> (r: WriterError)
    ensures
        r@ == transport_of(e@),
{
    match e {
        RepoError::Conflict { detail } => WriterError::Conflict { detail },
        other => WriterError::Transport { detail: other.message() },
    }
}

/// What came of proposing a commit.
#[derive(Debug, PartialEq, Eq)]
pub enum CommitOutcome {
    /// The manifest already held the proposal's values.
    AlreadyCommitted { addr: ContentAddr },
    /// It was committed.
    Committed(CommitReceipt),
}

/// The message of a commit that makes a proposal's changes.
pub open spec fn commit_message_of(p: ProposalView, outcome: ApplyView) -> Seq<char> {
    let head = match p.origin {
        OriginView::Carve { resource, container } => "breathe: reserve "@ + resource + " for "@
            + container,
        OriginView::Transition { before, after } => "breathe: "@ + before + " -> "@ + after,
    };
    head + "\n\n"@ + change_lines(p.path, outcome.changes) + "\nproposal: "@ + hex_of(p.addr)
        + "\n"@
}

/// One line for each change, in order.
pub open spec fn change_lines(path: Seq<char>, changes: Seq<EditView>) -> Seq<char>
    decreases changes.len(),
{
    if changes.len() == 0 {
        Seq::empty()
    } else {
        change_lines(path, changes.drop_last()) + path + ":"@ + decimal(
            changes.last().line as nat,
        ) + " "@ + changes.last().from + " -> "@ + changes.last().to + "\n"@
    }
}

fn change_lines_text(path: &str, changes: &Vec<ScalarEdit>) -> (r: String)
    ensures
        r@ == change_lines(path@, edits_view(changes@)),
{
    let mut s = String::new();
    let mut i: usize = 0;
    let ghost all = edits_view(changes@);
    assert(all.take(0) =~= Seq::<EditView>::empty());
    while i < changes.len()
        invariant
            i <= changes.len(),
            all == edits_view(changes@),
            s@ == change_lines(path@, all.take(i as int)),
        decreases changes.len() - i,
    {
        assert(all.take(i + 1).drop_last() =~= all.take(i as int));
        assert(all.take(i + 1).last() == all[i as int]);
        assert(all[i as int].line == changes@[i as int].line);
        s.append(path);
        s.append(":");
        s.append(decimal_text(changes[i].line as u64).as_str());
        s.append(" ");
        s.append(changes[i].from.as_str());
        s.append(" -> ");
        s.append(changes[i].to.as_str());
        s.append("\n");
        i = i + 1;
    }
    assert(all.take(changes.len() as int) =~= all);
    s
}

/// The message of a commit that makes a proposal's changes.
pub fn commit_message(p: &AddressedProposal, outcome: &ApplyOutcome) -> (r: String)
    ensures
        r@ == commit_message_of(p@, outcome@),
{
    let mut s = match p.origin() {
        ProposalOrigin::Carve { resource, container } => {
            let mut s = "breathe: reserve ".to_owned();
            s.append(resource.as_str());
            s.append(" for ");
            s.append(container.as_str());
            s
        },
        ProposalOrigin::Transition { from, to } => {
            let mut s = "breathe: ".to_owned();
            s.append(from.as_str());
            s.append(" -> ");
            s.append(to.as_str());
            s
        },
    };
    s.append("\n\n");
    s.append(change_lines_text(p.path(), &outcome.changes).as_str());
    s.append("\nproposal: ");
    s.append(p.addr().message().as_str());
    s.append("\n");
    s
}

/// Where a commit of a proposal stands.
#[derive(Debug, PartialEq, Eq)]
pub enum Committing {
    /// The repository is to be checked for uncommitted edits.
    AwaitClean,
    /// The manifest is to be read.
    AwaitRead,
    /// The commit is to be made.
    AwaitCommit { outcome: ApplyOutcome },
    /// It is done.
    Done(Result<CommitOutcome, WriterError>),
}

/// What to do first about committing a proposal: it must lie inside the wall.
pub fn begin_commit(p: &AddressedProposal, allowed_prefix: &str) -> (r: Committing)
    ensures
        if within(p@.path, allowed_prefix@) {
            r is AwaitClean
        } else {
            r matches Committing::Done(Err(e)) && e@ == (WriterErrorView::OutsideBlastRadius {
                path: p@.path,
                allowed_prefix: allowed_prefix@,
            })
        },
{
    if within_prefix(p.path(), allowed_prefix) {
        Committing::AwaitClean
    } else {
        Committing::Done(
            Err(
                WriterError::OutsideBlastRadius {
                    path: p.path().to_owned(),
                    allowed_prefix: allowed_prefix.to_owned(),
                },
            ),
        )
    }
}

/// The state after learning whether the repository is clean.
pub fn on_clean(r: Result<bool, RepoError>) -> (s: Committing)
    ensures
        match r {
            Err(e) => s matches Committing::Done(Err(we)) && we@ == transport_of(e@),
            Ok(true) => s is AwaitRead,
            Ok(false) => s == Committing::Done(Err(WriterError::RepoNotClean)),
        },
{
    match r {
        Err(e) => Committing::Done(Err(transport(e))),
        Ok(true) => Committing::AwaitRead,
        Ok(false) => Committing::Done(Err(WriterError::RepoNotClean)),
    }
}

/// The state after reading the manifest.
pub fn on_read(p: &AddressedProposal, r: Result<Vec<u8>, RepoError>) -> (s: Committing)
    ensures
        match r {
            Err(e) => s matches Committing::Done(Err(we)) && we@ == transport_of(e@),
            Ok(source) => match apply_of(source@, p.assignments_seq()) {
                Err(e) => s matches Committing::Done(Err(we)) && we@
                    == (WriterErrorView::Unanchorable { detail: e.words() }),
                Ok(o) => if o.changes.len() == 0 {
                    s matches Committing::Done(Ok(CommitOutcome::AlreadyCommitted { addr }))
                        && addr@ == p@.addr
                } else {
                    s matches Committing::AwaitCommit { outcome } && outcome@ == o
                },
            },
        },
{
    match r {
        Err(e) => Committing::Done(Err(transport(e))),
        Ok(source) => match apply_all(source.as_slice(), p.assignments()) {
            Err(e) => Committing::Done(
                Err(WriterError::Unanchorable { detail: e.message() }),
            ),
            Ok(outcome) => {
                if outcome.changes.len() == 0 {
                    Committing::Done(
                        Ok(CommitOutcome::AlreadyCommitted { addr: p.addr() }),
                    )
                } else {
                    Committing::AwaitCommit { outcome }
                }
            },
        },
    }
}

/// The state after the commit was made, or not.
pub fn on_committed(
    p: &AddressedProposal,
    outcome: &ApplyOutcome,
    r: Result<String, RepoError>,
) -> (s: Committing)
    ensures
        match r {
            Err(e) => s matches Committing::Done(Err(we)) && we@ == transport_of(e@),
            Ok(sha) => s matches Committing::Done(Ok(CommitOutcome::Committed(receipt)))
                && receipt.commit_sha@ == sha@ && receipt.addr@ == p@.addr && receipt.rendered_addr@
                == blake3_digest(outcome.rendered@),
        },
{
    match r {
        Err(e) => Committing::Done(Err(transport(e))),
        Ok(sha) => Committing::Done(
            Ok(
                CommitOutcome::Committed(
                    CommitReceipt {
                        commit_sha: sha,
                        addr: p.addr(),
                        rendered_addr: ContentAddr::of(outcome.rendered.as_slice()),
                    },
                ),
            ),
        ),
    }
}

/// A writer that commits to one repository, inside a wall that was fixed when it
/// was made.
pub struct GitManifestWriter<R> {
    repo: R,
    allowed_prefix: String,
}

impl<R> GitManifestWriter<R> {
    /// The wall.
    pub closed spec fn wall(self) -> Seq<char> {
        self.allowed_prefix@
    }

    /// The repository.
    pub closed spec fn target(self) -> R {
        self.repo
    }

    /// A writer for what lies inside the prefix.
    #[must_use]
    pub fn new(repo: R, allowed_prefix: &str) -> (r: Self)
        ensures
            r.target() == repo,
            r.wall() == allowed_prefix@,
    {
        GitManifestWriter { repo, allowed_prefix: allowed_prefix.to_owned() }
    }

    /// The repository.
    #[must_use]
    pub fn repo(&self) -> (r: &R)
        ensures
            *r == self.target(),
    {
        &self.repo
    }

    /// The start of a commit on someone's authority: a proposal outside the wall
    /// is refused before the repository is asked for anything.
    pub fn commit(&self, live: &LiveWitness, p: &AddressedProposal) -> (r: Committing)
        ensures
            if within(p@.path, self.wall()) {
                r is AwaitClean
            } else {
                r matches Committing::Done(Err(e)) && e@ == (WriterErrorView::OutsideBlastRadius {
                    path: p@.path,
                    allowed_prefix: self.wall(),
                })
            },
    {
        begin_commit(p, self.allowed_prefix.as_str())
    }
}

/// A manifest writer that never commits anything.
#[derive(Debug, Clone, Copy, Default)]
pub struct NullManifestWriter;

impl NullManifestWriter {
    /// Proposing always finds no writer configured.
    #[must_use]
    pub fn propose(&self, live: &LiveWitness, p: &AddressedProposal) -> (r: Result<
        CommitOutcome,
        WriterError,
    >)
        ensures
            r matches Err(e) && e@ is Disabled,
    {
        Err(WriterError::Disabled)
    }
}

// ─────────────────────── laws on proposals ───────────────────────

/// The scalar of a memory request: the bytes, as a bare number.
pub open spec fn memory_scalar(c: ContainerResources) -> ScalarView {
    ScalarView {
        key: c.name@ + ".requests.memory"@,
        value: decimal(c.memory_request->0 as nat),
    }
}

/// The scalar of a cpu request: the millicores, with an `m`.
pub open spec fn cpu_scalar(c: ContainerResources) -> ScalarView {
    ScalarView { key: c.name@ + ".requests.cpu"@, value: decimal(c.cpu_request->0 as nat) + "m"@ }
}

proof fn lemma_scalars_push(cs: Seq<ContainerResources>, c: ContainerResources)
    ensures
        scalars_of(cs.push(c)) == scalars_of(cs) + (if c.memory_request is Some {
            seq![memory_scalar(c)]
        } else {
            Seq::empty()
        }) + (if c.cpu_request is Some {
            seq![cpu_scalar(c)]
        } else {
            Seq::empty()
        }),
{
    reveal_strlit(".requests.");
    reveal_strlit("memory");
    reveal_strlit("cpu");
    reveal_strlit(".requests.memory");
    reveal_strlit(".requests.cpu");
    assert(cs.push(c).drop_last() =~= cs);
    assert("memory"@.len() != "cpu"@.len());
    assert(c.name@ + ".requests."@ + "memory"@ =~= c.name@ + ".requests.memory"@);
    assert(c.name@ + ".requests."@ + "cpu"@ =~= c.name@ + ".requests.cpu"@);
}

/// A change of class sets, for every container that declares a request, exactly
/// that request: its memory in bytes under `<name>.requests.memory`, its cpu in
/// millicores under `<name>.requests.cpu`. It sets nothing else.
pub proof fn every_declared_request_is_set_and_nothing_else(cs: Seq<ContainerResources>)
    ensures
        forall|i: int|
            #![trigger cs[i]]
            0 <= i < cs.len() && cs[i].memory_request is Some ==> scalars_of(cs).contains(
                memory_scalar(cs[i]),
            ),
        forall|i: int|
            #![trigger cs[i]]
            0 <= i < cs.len() && cs[i].cpu_request is Some ==> scalars_of(cs).contains(
                cpu_scalar(cs[i]),
            ),
        forall|k: int|
            #![trigger scalars_of(cs)[k]]
            0 <= k < scalars_of(cs).len() ==> exists|i: int|
                0 <= i < cs.len() && ((#[trigger] cs[i]).memory_request is Some && scalars_of(
                    cs,
                )[k] == memory_scalar(cs[i]) || cs[i].cpu_request is Some && scalars_of(cs)[k]
                    == cpu_scalar(cs[i])),
    decreases cs.len(),
{
    if cs.len() > 0 {
        let init = cs.drop_last();
        let c = cs.last();
        let before = scalars_of(init);
        let all = scalars_of(cs);
        every_declared_request_is_set_and_nothing_else(init);
        lemma_scalars_push(init, c);
        assert(init.push(c) =~= cs);
        assert forall|k: int| 0 <= k < before.len() implies before[k] == #[trigger] all[k] by {}
        let m = if c.memory_request is Some {
            1int
        } else {
            0int
        };
        assert forall|i: int|
            #![trigger cs[i]]
            0 <= i < cs.len() && cs[i].memory_request is Some implies all.contains(
            memory_scalar(cs[i]),
        ) by {
            if i < init.len() {
                assert(init[i] == cs[i]);
                let k = choose|k: int| 0 <= k < before.len() && before[k] == memory_scalar(init[i]);
                assert(all[k] == memory_scalar(cs[i]));
            } else {
                assert(all[before.len() as int] == memory_scalar(c));
            }
        }
        assert forall|i: int|
            #![trigger cs[i]]
            0 <= i < cs.len() && cs[i].cpu_request is Some implies all.contains(
            cpu_scalar(cs[i]),
        ) by {
            if i < init.len() {
                assert(init[i] == cs[i]);
                let k = choose|k: int| 0 <= k < before.len() && before[k] == cpu_scalar(init[i]);
                assert(all[k] == cpu_scalar(cs[i]));
            } else {
                assert(all[before.len() + m] == cpu_scalar(c));
            }
        }
        assert forall|k: int| #![trigger all[k]] 0 <= k < all.len() implies exists|i: int|
            0 <= i < cs.len() && ((#[trigger] cs[i]).memory_request is Some && all[k]
                == memory_scalar(cs[i]) || cs[i].cpu_request is Some && all[k] == cpu_scalar(
                cs[i],
            )) by {
            if k < before.len() {
                assert(before[k] == all[k]);
                let i = choose|i: int|
                    0 <= i < init.len() && ((#[trigger] init[i]).memory_request is Some && before[k]
                        == memory_scalar(init[i]) || init[i].cpu_request is Some && before[k]
                        == cpu_scalar(init[i]));
                assert(cs[i] == init[i]);
            } else {
                assert(cs[cs.len() - 1] == c);
            }
        }
    }
}

/// How many scalars a change of class sets: one for each declared request, those
/// of a container behind those of the containers in front of it.
pub proof fn one_scalar_for_each_declared_request(
    cs: Seq<ContainerResources>,
    c: ContainerResources,
)
    ensures
        scalars_of(Seq::empty()).len() == 0,
        scalars_of(cs.push(c)).len() == scalars_of(cs).len() + (if c.memory_request is Some {
            1int
        } else {
            0
        }) + (if c.cpu_request is Some {
            1int
        } else {
            0
        }),
        scalars_of(cs.push(c)).take(scalars_of(cs).len() as int) == scalars_of(cs),
{
    lemma_scalars_push(cs, c);
    assert(scalars_of(cs.push(c)).take(scalars_of(cs).len() as int) =~= scalars_of(cs));
}

/// The marker for a key is the one that the first pair with that key names.
pub proof fn a_key_has_the_marker_of_its_first_pair(
    markers: Seq<ScalarView>,
    key: Seq<char>,
    i: int,
)
    ensures
        0 <= i < markers.len() && markers[i].key == key && (forall|j: int|
            0 <= j < i ==> (#[trigger] markers[j]).key != key) ==> marker_of(markers, key) == Some(
            markers[i].value,
        ),
        (forall|j: int| 0 <= j < markers.len() ==> (#[trigger] markers[j]).key != key)
            <==> marker_of(markers, key) is None,
    decreases markers.len(),
{
    if markers.len() > 0 {
        let init = markers.drop_last();
        assert forall|j: int| 0 <= j < init.len() implies init[j] == #[trigger] markers[j] by {}
        a_key_has_the_marker_of_its_first_pair(init, key, i);
        assert(markers[markers.len() - 1] == markers.last());
        if marker_of(markers, key) is None {
            assert forall|j: int| 0 <= j < markers.len() implies (#[trigger] markers[j]).key
                != key by {
                if j < init.len() {
                    assert(init[j].key != key);
                }
            }
        } else if forall|j: int| 0 <= j < markers.len() ==> (#[trigger] markers[j]).key != key {
            assert forall|j: int| 0 <= j < init.len() implies (#[trigger] init[j]).key != key by {
                assert(markers[j].key != key);
            }
        }
    }
}

/// Where every scalar has a marker, each is set at its own: as many assignments as
/// scalars, in their order, each with the scalar's value at the marker of the
/// scalar's key.
pub proof fn every_scalar_is_set_at_its_own_marker(
    want: Seq<ScalarView>,
    markers: Seq<ScalarView>,
)
    requires
        unanchored(want, markers).len() == 0,
    ensures
        anchored(want, markers).len() == want.len(),
        forall|k: int|
            0 <= k < want.len() ==> (#[trigger] anchored(want, markers)[k]).value == want[k].value
                && Some(anchored(want, markers)[k].marker) == marker_of(markers, want[k].key),
    decreases want.len(),
{
    if want.len() > 0 {
        every_scalar_is_set_at_its_own_marker(want.drop_last(), markers);
    }
}

/// A scalar is named as missing exactly where no pair has its key.
pub proof fn a_scalar_without_a_marker_is_missed(
    want: Seq<ScalarView>,
    markers: Seq<ScalarView>,
    key: Seq<char>,
)
    ensures
        unanchored(want, markers).contains(key) <==> (exists|k: int|
            0 <= k < want.len() && (#[trigger] want[k]).key == key) && forall|j: int|
            0 <= j < markers.len() ==> (#[trigger] markers[j]).key != key,
    decreases want.len(),
{
    a_key_has_the_marker_of_its_first_pair(markers, key, 0);
    if want.len() > 0 {
        let init = want.drop_last();
        a_scalar_without_a_marker_is_missed(init, markers, key);
        assert forall|k: int| 0 <= k < init.len() implies init[k] == #[trigger] want[k] by {}
        assert(want[want.len() - 1] == want.last());
        let before = unanchored(init, markers);
        let all = unanchored(want, markers);
        if before.contains(key) {
            let k = choose|k: int| 0 <= k < before.len() && before[k] == key;
            assert(all[k] == key);
            let n = choose|n: int| 0 <= n < init.len() && (#[trigger] init[n]).key == key;
            assert(want[n].key == key);
        }
        if want.last().key == key && marker_of(markers, key) is None {
            assert(all[before.len() as int] == key);
        }
        if all.contains(key) && !before.contains(key) {
            let k = choose|k: int| 0 <= k < all.len() && all[k] == key;
            if k < before.len() {
                assert(before[k] == key);
            }
        }
        if exists|k: int| 0 <= k < want.len() && (#[trigger] want[k]).key == key {
            let k = choose|k: int| 0 <= k < want.len() && (#[trigger] want[k]).key == key;
            if k < init.len() {
                assert(init[k].key == key);
            }
        }
    }
}

// ─────────────────────── laws on the wall ───────────────────────

/// A path lies inside a wall exactly where it is the wall itself or a path below it;
/// slashes at the wall's end do not matter. A name that only starts like the wall
/// lies outside.
pub proof fn only_what_lies_below_the_wall_is_inside(
    wall: Seq<char>,
    slashes: Seq<char>,
    path: Seq<char>,
)
    requires
        wall.len() > 0,
        wall.last() != '/',
        forall|i: int| 0 <= i < slashes.len() ==> #[trigger] slashes[i] == '/',
    ensures
        within(path, wall + slashes) <==> path == wall || exists|rest: Seq<char>|
            path == #[trigger] (wall + seq!['/'] + rest),
{
    assert forall|i: int| 0 <= i < slashes.len() implies CharClass::Slash.holds(
        #[trigger] slashes[i],
    ) by {
        assert(slashes[i] == '/');
    }
    crate::text::only_the_end_run_is_taken_off(wall, slashes, CharClass::Slash);
    let n = wall.len() as int;
    if within(path, wall + slashes) && path != wall {
        let rest = path.skip(n + 1);
        assert(path =~= wall + seq!['/'] + rest) by {
            assert(path.subrange(0, n) =~= wall);
            assert forall|i: int| 0 <= i < n implies path[i] == #[trigger] wall[i] by {
                assert(path.subrange(0, n)[i] == wall[i]);
            }
        }
    }
    if exists|rest: Seq<char>| path == #[trigger] (wall + seq!['/'] + rest) {
        let rest = choose|rest: Seq<char>| path == #[trigger] (wall + seq!['/'] + rest);
        assert(path.subrange(0, n) =~= wall);
        assert(path.take(n) =~= wall);
        assert(path[n] == '/');
    }
}

/// Behind a wall of nothing, or of slashes alone, nothing lies.
pub proof fn nothing_lies_inside_an_empty_wall(slashes: Seq<char>, path: Seq<char>)
    requires
        forall|i: int| 0 <= i < slashes.len() ==> #[trigger] slashes[i] == '/',
    ensures
        !within(path, slashes),
{
    assert forall|i: int| 0 <= i < slashes.len() implies CharClass::Slash.holds(
        #[trigger] slashes[i],
    ) by {
        assert(slashes[i] == '/');
    }
    let none = Seq::<char>::empty();
    crate::text::only_the_end_run_is_taken_off(none, slashes, CharClass::Slash);
    assert(none + slashes =~= slashes);
}

// ─────────────────────── laws on setting a scalar ───────────────────────

/// The lines that carry a marker are found, all of them and no other, from the first
/// to the last.
pub proof fn exactly_the_lines_that_carry_it_are_found(lines: Seq<Seq<char>>, marker: Seq<char>)
    ensures
        forall|i: int|
            #![trigger lines[i]]
            0 <= i < lines.len() ==> (carriers(lines, marker).contains(i) <==> carries(
                lines[i],
                marker,
            )),
        forall|k: int|
            0 <= k < carriers(lines, marker).len() ==> 0 <= #[trigger] carriers(lines, marker)[k]
                < lines.len(),
        forall|k: int, l: int|
            0 <= k < l < carriers(lines, marker).len() ==> #[trigger] carriers(lines, marker)[k]
                < #[trigger] carriers(lines, marker)[l],
    decreases lines.len(),
{
    if lines.len() > 0 {
        let init = lines.drop_last();
        let n = lines.len() - 1;
        exactly_the_lines_that_carry_it_are_found(init, marker);
        let before = carriers(init, marker);
        let all = carriers(lines, marker);
        assert forall|k: int| 0 <= k < before.len() implies before[k] == #[trigger] all[k] by {}
        assert forall|i: int| #![trigger lines[i]] 0 <= i < lines.len() implies (all.contains(i)
            <==> carries(lines[i], marker)) by {
            if i < n {
                assert(init[i] == lines[i]);
                if before.contains(i) {
                    let k = choose|k: int| 0 <= k < before.len() && before[k] == i;
                    assert(all[k] == i);
                }
                if all.contains(i) {
                    let k = choose|k: int| 0 <= k < all.len() && all[k] == i;
                    assert(before[k] == i);
                }
            } else {
                if carries(lines[n], marker) {
                    assert(all[before.len() as int] == n);
                }
                if all.contains(n) && !carries(lines[n], marker) {
                    let k = choose|k: int| 0 <= k < all.len() && all[k] == n;
                    assert(before[k] == n);
                }
            }
        }
    }
}

/// A scalar is set on the one line that carries the marker: `hit` being the only
/// such line, its value is what is replaced, or found there already; a line without
/// a value is named.
pub proof fn a_scalar_is_set_on_the_line_that_carries_its_marker(
    text: Seq<char>,
    marker: Seq<char>,
    new: Seq<char>,
    hit: int,
)
    requires
        0 <= hit < full_lines(text).len(),
        carries(full_lines(text)[hit], marker),
        forall|i: int|
            0 <= i < full_lines(text).len() && i != hit ==> !carries(
                #[trigger] full_lines(text)[i],
                marker,
            ),
    ensures
        ({
            let line = full_lines(text)[hit];
            match scalar_span(line) {
                None => edit_of(text, marker, new) == Err::<OutcomeView, EditErrorView>(
                    EditErrorView::NotAScalarAssignment { marker, line: hit + 1 },
                ),
                Some((a, b)) => if line.subrange(a, b) == new {
                    edit_of(text, marker, new) == Ok::<OutcomeView, EditErrorView>(
                        OutcomeView::Unchanged { line: hit + 1, value: new },
                    )
                } else {
                    edit_of(text, marker, new) matches Ok(OutcomeView::Changed { edit, rendered })
                        && edit == (EditView {
                        line: hit + 1,
                        from: line.subrange(a, b),
                        to: new,
                    })
                },
            }
        }),
{
    let lines = full_lines(text);
    let hits = carriers(lines, marker);
    exactly_the_lines_that_carry_it_are_found(lines, marker);
    assert(carries(lines[hit], marker));
    let k = choose|k: int| 0 <= k < hits.len() && hits[k] == hit;
    assert forall|l: int| 0 <= l < hits.len() implies hits[l] == hit by {
        assert(hits.contains(hits[l]));
        assert(carries(lines[hits[l]], marker));
    }
    if hits.len() > 1 {
        assert(hits[0] < hits[1]);
    }
    assert(hits.len() == 1);
    assert(hits[0] == hit);
}

/// A marker that no line carries is not found, and one that two lines carry is
/// refused with all the lines that do, counted from one.
pub proof fn a_marker_must_stand_on_one_line(
    text: Seq<char>,
    marker: Seq<char>,
    new: Seq<char>,
    i: int,
    j: int,
)
    ensures
        (forall|k: int|
            0 <= k < full_lines(text).len() ==> !carries(#[trigger] full_lines(text)[k], marker))
            ==> edit_of(text, marker, new) == Err::<OutcomeView, EditErrorView>(
            EditErrorView::MarkerNotFound { marker },
        ),
        0 <= i < j < full_lines(text).len() && carries(full_lines(text)[i], marker) && carries(
            full_lines(text)[j],
            marker,
        ) ==> (edit_of(text, marker, new) matches Err(EditErrorView::MarkerAmbiguous {
            marker: m,
            lines,
        }) && m == marker && lines.contains(i + 1) && lines.contains(j + 1) && forall|k: int|
            0 <= k < lines.len() ==> 1 <= #[trigger] lines[k] <= full_lines(text).len() && carries(
                full_lines(text)[lines[k] - 1],
                marker,
            )),
{
    let all = full_lines(text);
    let hits = carriers(all, marker);
    exactly_the_lines_that_carry_it_are_found(all, marker);
    if forall|k: int| 0 <= k < all.len() ==> !carries(#[trigger] all[k], marker) {
        if hits.len() > 0 {
            assert(hits.contains(hits[0]));
            assert(carries(all[hits[0]], marker));
        }
    }
    if 0 <= i < j < all.len() && carries(all[i], marker) && carries(all[j], marker) {
        let a = choose|a: int| 0 <= a < hits.len() && hits[a] == i;
        let b = choose|b: int| 0 <= b < hits.len() && hits[b] == j;
        let named = hits.map_values(|x: int| x + 1);
        assert(named[a] == i + 1);
        assert(named[b] == j + 1);
        assert forall|k: int| 0 <= k < named.len() implies 1 <= #[trigger] named[k] <= all.len()
            && carries(all[named[k] - 1], marker) by {
            assert(hits.contains(hits[k]));
            assert(carries(all[hits[k]], marker));
        }
    }
}

/// A manifest that is no UTF-8 is refused.
pub proof fn a_manifest_must_be_utf8(source: Seq<u8>, marker: Seq<char>, new: Seq<char>)
    requires
        !vstd::utf8::valid_utf8(source),
    ensures
        edit_bytes(source, marker, new) == Err::<OutcomeView, EditErrorView>(
            EditErrorView::NotUtf8,
        ),
{
}

/// Scalars are set one after the other, each on what the ones in front of it left:
/// each change is kept, in order, and the first that cannot be set fails the whole.
pub proof fn scalars_are_set_one_after_the_other(
    source: Seq<u8>,
    all: Seq<ScalarAssignment>,
    a: ScalarAssignment,
)
    ensures
        apply_of(source, Seq::empty()) == Ok::<ApplyView, EditErrorView>(
            ApplyView { rendered: source, changes: Seq::empty(), already_correct: 0 },
        ),
        apply_of(source, all) matches Err(e) ==> apply_of(source, all.push(a)) == Err::<
            ApplyView,
            EditErrorView,
        >(e),
        apply_of(source, all) matches Ok(o) ==> {
            let step = edit_bytes(o.rendered, a.marker@, a.value@);
            let next = apply_of(source, all.push(a));
            &&& step matches Err(e) ==> next == Err::<ApplyView, EditErrorView>(e)
            &&& step matches Ok(OutcomeView::Unchanged { .. }) ==> next == Ok::<
                ApplyView,
                EditErrorView,
            >(
                ApplyView {
                    rendered: o.rendered,
                    changes: o.changes,
                    already_correct: o.already_correct + 1,
                },
            )
            &&& step matches Ok(OutcomeView::Changed { edit, rendered }) ==> next == Ok::<
                ApplyView,
                EditErrorView,
            >(
                ApplyView {
                    rendered,
                    changes: o.changes.push(edit),
                    already_correct: o.already_correct,
                },
            )
        },
{
    assert(all.push(a).drop_last() =~= all);
}

/// A conflict stays a conflict, so that it can be tried again, and any other error of
/// the repository is one of its transport.
pub proof fn only_a_conflict_stays_a_conflict(e: RepoErrorView)
    ensures
        transport_of(e) is Conflict <==> e is Conflict,
        transport_of(e) is Transport <==> !(e is Conflict),
        e matches RepoErrorView::Conflict { detail } ==> transport_of(e) == (
        WriterErrorView::Conflict { detail }),
{
}

// ─────────────────────── laws on what a commit says ───────────────────────

/// A commit's message has one line for each change, in order: the place of the
/// change, what stood there and what stands there now.
pub proof fn each_change_adds_its_line(path: Seq<char>, changes: Seq<EditView>, e: EditView)
    ensures
        change_lines(path, Seq::empty()) == Seq::<char>::empty(),
        change_lines(path, changes.push(e)) == change_lines(path, changes) + path + ":"@ + decimal(
            e.line as nat,
        ) + " "@ + e.from + " -> "@ + e.to + "\n"@,
{
    assert(changes.push(e).drop_last() =~= changes);
}

/// A quantity is written so that it can be told again: cpu in millicores, which the
/// `m` at the end says, and anything else as a bare number.
pub proof fn only_cpu_is_written_in_millicores(resource: Seq<char>, raw: u64, other: u64)
    ensures
        scalar_words(resource, raw).last() == 'm' <==> resource == "cpu"@,
        scalar_words(resource, raw) == scalar_words(resource, other) ==> raw == other,
        resource != "cpu"@ ==> crate::text::parsed_u64(scalar_words(resource, raw)) == Ok::<
            u64,
            crate::text::IntParseError,
        >(raw),
{
    reveal_strlit("m");
    crate::text::a_numeral_is_made_of_digits(raw as nat);
    crate::text::a_numeral_is_made_of_digits(other as nat);
    crate::text::a_number_reads_back_from_its_numeral(raw);
    crate::text::a_number_reads_back_from_its_numeral(other);
    let d = decimal(raw as nat);
    let w = scalar_words(resource, raw);
    let v = scalar_words(resource, other);
    if resource == "cpu"@ {
        assert(w.last() == 'm');
        assert(w.drop_last() =~= d);
        assert(v.drop_last() =~= decimal(other as nat));
    } else {
        assert('0' <= d[d.len() - 1] <= '9');
    }
}

/// A commit says what it is made for on its first line, and names its proposal by
/// the digits of its address on its last.
pub proof fn a_commit_names_its_cause_and_its_proposal(p: ProposalView, outcome: ApplyView)
    ensures
        p.origin matches OriginView::Carve { resource, container } ==> starts_text(
            commit_message_of(p, outcome),
            "breathe: reserve "@ + resource + " for "@ + container + "\n\n"@,
        ),
        p.origin matches OriginView::Transition { before, after } ==> starts_text(
            commit_message_of(p, outcome),
            "breathe: "@ + before + " -> "@ + after + "\n\n"@,
        ),
        ends_text(commit_message_of(p, outcome), "\nproposal: "@ + hex_of(p.addr) + "\n"@),
{
    let m = commit_message_of(p, outcome);
    let last = "\nproposal: "@ + hex_of(p.addr) + "\n"@;
    let head = match p.origin {
        OriginView::Carve { resource, container } => "breathe: reserve "@ + resource + " for "@
            + container,
        OriginView::Transition { before, after } => "breathe: "@ + before + " -> "@ + after,
    };
    let first = head + "\n\n"@;
    let lines = change_lines(p.path, outcome.changes);
    assert(m =~= first + (lines + last));
    assert(m.take(first.len() as int) =~= first);
    assert(m.skip(m.len() - last.len()) =~= last);
}

/// The text starts with `w`.
pub open spec fn starts_text(s: Seq<char>, w: Seq<char>) -> bool {
    s.len() >= w.len() && s.take(w.len() as int) == w
}

/// The text ends with `w`.
pub open spec fn ends_text(s: Seq<char>, w: Seq<char>) -> bool {
    s.len() >= w.len() && s.skip(s.len() - w.len()) == w
}

} // verus!
