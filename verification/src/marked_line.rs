//! One line of a manifest: its key, its value and its comment, and the marker
//! that the comment carries.

use vstd::prelude::*;

use crate::text::{
    chars_of, last_place, leading, lemma_last_place, lemma_last_place_is, lemma_leading,
    lemma_leading_is, lemma_trailing, lemma_trailing_is, occurs_at, rfind_char, run_end, run_start,
    stands_at, trailing, CharClass,
};

verus! {

// ─────────────────────── characters ───────────────────────

/// A space or a tab.
pub open spec fn is_blank(c: char) -> bool {
    CharClass::Blank.holds(c)
}

/// A quotation mark.
pub open spec fn is_mark(c: char) -> bool {
    c == '"' || c == '\''
}

/// A character that ends a line.
pub open spec fn is_line_end(c: char) -> bool {
    c == '\n' || c == '\r'
}

fn blank(c: char) -> (r: bool)
    ensures
        r == is_blank(c),
{
    CharClass::Blank.has(c)
}

fn mark(c: char) -> (r: bool)
    ensures
        r == is_mark(c),
{
    c == '"' || c == '\''
}

// ─────────────────────── searching ───────────────────────

/// The first place from `from` on and in front of `to` at which `p` holds.
pub open spec fn first_where(p: spec_fn(int) -> bool, from: int, to: int) -> Option<int>
    decreases to - from,
{
    if from >= to {
        None
    } else if p(from) {
        Some(from)
    } else {
        first_where(p, from + 1, to)
    }
}

proof fn lemma_first_where(p: spec_fn(int) -> bool, from: int, to: int)
    ensures
        first_where(p, from, to) matches Some(i) ==> from <= i < to && p(i) && forall|j: int|
            from <= j < i ==> !#[trigger] p(j),
        first_where(p, from, to) is None ==> forall|j: int| from <= j < to ==> !#[trigger] p(j),
    decreases to - from,
{
    if from < to && !p(from) {
        lemma_first_where(p, from + 1, to);
    }
}

proof fn lemma_first_is(p: spec_fn(int) -> bool, from: int, to: int, k: int)
    requires
        from <= k < to,
        p(k),
        forall|j: int| from <= j < k ==> !#[trigger] p(j),
    ensures
        first_where(p, from, to) == Some(k),
{
    lemma_first_where(p, from, to);
    match first_where(p, from, to) {
        Some(i) => {
            if i < k {
                assert(!p(i));
            } else if k < i {
                assert(!p(k));
            }
        },
        None => {
            assert(!p(k));
        },
    }
}

proof fn lemma_first_none(p: spec_fn(int) -> bool, from: int, to: int)
    requires
        forall|j: int| from <= j < to ==> !#[trigger] p(j),
    ensures
        first_where(p, from, to) is None,
{
    lemma_first_where(p, from, to);
}

/// The first place from `from` on that is no blank.
pub open spec fn past_blanks(line: Seq<char>, from: int) -> int {
    from + leading(line.subrange(from, line.len() as int), CharClass::Blank)
}

proof fn lemma_past_blanks(line: Seq<char>, from: int)
    requires
        0 <= from <= line.len(),
    ensures
        from <= past_blanks(line, from) <= line.len(),
        forall|j: int| from <= j < past_blanks(line, from) ==> is_blank(#[trigger] line[j]),
        past_blanks(line, from) < line.len() ==> !is_blank(line[past_blanks(line, from)]),
{
    let s = line.subrange(from, line.len() as int);
    lemma_leading(s, CharClass::Blank);
    assert forall|j: int| from <= j < past_blanks(line, from) implies is_blank(
        #[trigger] line[j],
    ) by {
        assert(s[j - from] == line[j]);
    }
}

proof fn lemma_past_blanks_is(line: Seq<char>, from: int, k: int)
    requires
        0 <= from <= k <= line.len(),
        forall|j: int| from <= j < k ==> is_blank(#[trigger] line[j]),
        k < line.len() ==> !is_blank(line[k]),
    ensures
        past_blanks(line, from) == k,
{
    let s = line.subrange(from, line.len() as int);
    assert forall|i: int| 0 <= i < k - from implies CharClass::Blank.holds(#[trigger] s[i]) by {
        assert(is_blank(line[from + i]));
    }
    lemma_leading_is(s, CharClass::Blank, k - from);
}

fn skip_blanks(v: &Vec<char>, from: usize) -> (r: usize)
    requires
        from <= v.len(),
    ensures
        r == past_blanks(v@, from as int),
        from <= r <= v.len(),
{
    run_end(v, from, v.len(), CharClass::Blank)
}

// ─────────────────────── markers ───────────────────────

/// The name under which a marker stands in its object.
pub open spec fn marker_name() -> Seq<char> {
    "\"$breathe\""@
}

/// A marker as it stands in its object.
pub open spec fn marker_text(marker: Seq<char>) -> Seq<char> {
    "\""@ + marker + "\""@
}

/// The first place from `from` on that is no white space of JSON.
pub open spec fn past_space(s: Seq<char>, from: int) -> int {
    from + leading(s.subrange(from, s.len() as int), CharClass::JsonSpace)
}

/// The colon behind the name that stands at `n`, white space aside.
pub open spec fn name_colon(s: Seq<char>, n: int) -> int {
    past_space(s, n + marker_name().len())
}

/// Where the text starts that the name at `n` names, white space aside.
pub open spec fn named_at(s: Seq<char>, n: int) -> int {
    past_space(s, name_colon(s, n) + 1)
}

/// At `n` stands the name of a marker, with a colon and a text behind it.
pub open spec fn names_at(s: Seq<char>, n: int) -> bool {
    &&& occurs_at(s, marker_name(), n)
    &&& name_colon(s, n) < s.len()
    &&& s[name_colon(s, n)] == ':'
    &&& named_at(s, n) < s.len()
    &&& s[named_at(s, n)] == '"'
}

/// At `n` stands the name of the marker, inside an object.
pub open spec fn marks_at(s: Seq<char>, marker: Seq<char>, n: int) -> bool {
    let end = named_at(s, n) + marker_text(marker).len();
    &&& names_at(s, n)
    &&& occurs_at(s, marker_text(marker), named_at(s, n))
    &&& last_place(s, '{', n) is Some
    &&& last_place(s, '}', s.len() as int) matches Some(e) && e >= end
}

/// The text holds the object `{"$breathe": "…"}` of the marker, with white space
/// wherever JSON lets it stand and with further members or without.
pub open spec fn marks(s: Seq<char>, marker: Seq<char>) -> bool {
    first_where(|n: int| marks_at(s, marker, n), 0, s.len() as int) is Some
}

// ─────────────────────── the parts of a line ───────────────────────

/// A `#` at the start of the line or behind a blank.
pub open spec fn opens_comment(line: Seq<char>, i: int) -> bool {
    line[i] == '#' && (i == 0 || is_blank(line[i - 1]))
}

/// The first `#` from `from` on that stands at the start of the line or behind a
/// blank.
pub open spec fn hash_from(line: Seq<char>, from: int) -> Option<int> {
    first_where(|i: int| opens_comment(line, i), from, line.len() as int)
}

/// The last `#` in front of the marker's name at `n`, where it stands at or behind
/// `from` and in front of a brace that opens the marker's object.
pub open spec fn hash_of_name(line: Seq<char>, from: int, n: int) -> Option<int> {
    match (last_place(line, '#', n), last_place(line, '{', n)) {
        (Some(t), Some(b)) => if names_at(line, n) && from <= t < b {
            Some(t)
        } else {
            None
        },
        _ => None,
    }
}

/// The `#` from `from` on that a marker's object follows first, a blank in front
/// of it or not.
pub open spec fn marked_hash_from(line: Seq<char>, from: int) -> Option<int> {
    match first_where(|n: int| hash_of_name(line, from, n) is Some, from, line.len() as int) {
        Some(n) => hash_of_name(line, from, n),
        None => None,
    }
}

/// The one of two places that comes first.
pub open spec fn earlier(a: Option<int>, b: Option<int>) -> Option<int> {
    match (a, b) {
        (Some(x), Some(y)) => Some(
            if x <= y {
                x
            } else {
                y
            },
        ),
        (Some(x), None) => Some(x),
        (None, y) => y,
    }
}

/// Where a comment starts that stands from `from` on: at the first `#` that
/// follows a blank or that a marker's object follows.
pub open spec fn comment_from(line: Seq<char>, from: int) -> Option<int> {
    earlier(hash_from(line, from), marked_hash_from(line, from))
}

/// A colon in front of a blank.
pub open spec fn is_spaced_colon(line: Seq<char>, i: int) -> bool {
    line[i] == ':' && i + 1 < line.len() && is_blank(line[i + 1])
}

/// The quotation mark that closes a text which the mark `q` opened in front of
/// `from`. Between double marks a backslash takes the next character's meaning
/// away, between single ones a mark is written twice.
pub open spec fn closing(line: Seq<char>, q: char, from: int) -> Option<int>
    decreases line.len() + 1 - from,
{
    if from >= line.len() {
        None
    } else if q == '"' && line[from] == '\\' {
        closing(line, q, from + 2)
    } else if line[from] != q {
        closing(line, q, from + 1)
    } else if q == '\'' && from + 1 < line.len() && line[from + 1] == q {
        closing(line, q, from + 2)
    } else {
        Some(from)
    }
}

/// The place behind the quoted text that starts at `at`, where one does.
pub open spec fn quoted_end(line: Seq<char>, at: int) -> Option<int> {
    if at < line.len() && is_mark(line[at]) {
        match closing(line, line[at], at + 1) {
            Some(c) => Some(c + 1),
            None => None,
        }
    } else {
        None
    }
}

/// The colon that ends the line's key. Behind a quoted key it is the next
/// character but blanks. Any other key ends at the first colon in front of a
/// blank or, where there is none, at the first colon; a comment holds no key.
pub open spec fn key_colon(line: Seq<char>) -> Option<int> {
    let k = past_blanks(line, 0);
    if k < line.len() && is_mark(line[k]) {
        match quoted_end(line, k) {
            Some(e) => {
                let c = past_blanks(line, e);
                if c < line.len() && line[c] == ':' {
                    Some(c)
                } else {
                    None
                }
            },
            None => None,
        }
    } else {
        let to = match comment_from(line, k) {
            Some(h) => h,
            None => line.len() as int,
        };
        match first_where(|i: int| is_spaced_colon(line, i), k, to) {
            Some(c) => Some(c),
            None => first_where(|i: int| line[i] == ':', k, to),
        }
    }
}

/// A quoted value ends at `e`: nothing but blanks follows, or a comment behind
/// one, or a comment that a marker's object starts.
pub open spec fn ends_value(line: Seq<char>, e: int) -> bool {
    let h = past_blanks(line, e);
    h >= line.len() || is_line_end(line[h]) || (line[h] == '#' && (h > e || marked_hash_from(
        line,
        e,
    ) == Some(e)))
}

/// Where the comment starts on a line whose value starts at `a`: behind a quoted
/// value, or else at the first `#` behind the value's first character that
/// follows a blank or that a marker's object follows. A value starts with a `#`
/// only where neither a blank nor a marker's object follows it nor the line would
/// be left without a comment.
pub open spec fn comment_behind(line: Seq<char>, a: int) -> Option<int> {
    let quoted = match quoted_end(line, a) {
        Some(e) => ends_value(line, e),
        None => false,
    };
    if quoted {
        let h = past_blanks(line, quoted_end(line, a)->0);
        if h < line.len() && line[h] == '#' {
            Some(h)
        } else {
            None
        }
    } else if a < line.len() && line[a] == '#' && (a + 1 >= line.len() || is_blank(line[a + 1])
        || is_line_end(line[a + 1])) {
        Some(a)
    } else {
        match earlier(hash_from(line, a + 1), marked_hash_from(line, a)) {
            Some(h) => Some(h),
            None => if a < line.len() && line[a] == '#' {
                Some(a)
            } else {
                None
            },
        }
    }
}

/// Where the line's comment starts.
pub open spec fn comment_at(line: Seq<char>) -> Option<int> {
    match key_colon(line) {
        Some(c) => comment_behind(line, past_blanks(line, c + 1)),
        None => comment_from(line, past_blanks(line, 0)),
    }
}

/// The line's comment carries the marker.
pub open spec fn carries(line: Seq<char>, marker: Seq<char>) -> bool {
    comment_at(line) matches Some(h) && marks(line.skip(h), marker)
}

/// A text is quoted: it starts and ends with the same quotation mark.
pub open spec fn is_quoted(s: Seq<char>) -> bool {
    s.len() >= 2 && s[0] == s.last() && is_mark(s[0])
}

/// Where the value between `from` and `to` starts and ends, without blanks and
/// quotation marks.
pub open spec fn value_span(line: Seq<char>, from: int, to: int) -> Option<(int, int)> {
    let rest = line.subrange(from, to);
    let a = from + leading(rest, CharClass::Blank);
    let tail = line.subrange(a, to);
    let b = to - trailing(tail, CharClass::Blank);
    if a >= b {
        None
    } else if is_quoted(line.subrange(a, b)) {
        Some((a + 1, b - 1))
    } else {
        Some((a, b))
    }
}

/// Where the value of a `key: value # …` line starts and ends: between the key's
/// colon and the comment, without the blanks around it and without its quotation
/// marks. A line without such a value has none.
pub open spec fn scalar_span(line: Seq<char>) -> Option<(int, int)> {
    match (key_colon(line), comment_at(line)) {
        (Some(c), Some(h)) => value_span(line, c + 1, h),
        _ => None,
    }
}

/// `s` with the characters between `from` and `to` replaced.
pub open spec fn replaced(s: Seq<char>, from: int, to: int, new: Seq<char>) -> Seq<char> {
    s.take(from) + new + s.skip(to)
}

// ─────────────────────── finding the parts ───────────────────────

fn find_hash(v: &Vec<char>, from: usize) -> (r: Option<usize>)
    ensures
        match r {
            Some(i) => hash_from(v@, from as int) == Some(i as int) && from <= i < v.len(),
            None => hash_from(v@, from as int) is None,
        },
{
    let ghost p = |i: int| opens_comment(v@, i);
    let mut i: usize = from;
    while i < v.len()
        invariant
            from <= i,
            p == (|i: int| opens_comment(v@, i)),
            first_where(p, from as int, v.len() as int) == first_where(p, i as int, v.len() as int),
        decreases v.len() - i,
    {
        if v[i] == '#' && (i == 0 || blank(v[i - 1])) {
            assert(p(i as int));
            return Some(i);
        }
        assert(!p(i as int));
        i = i + 1;
    }
    None
}

fn skip_space(v: &Vec<char>, from: usize) -> (r: usize)
    requires
        from <= v.len(),
    ensures
        r == past_space(v@, from as int),
        from <= r <= v.len(),
{
    run_end(v, from, v.len(), CharClass::JsonSpace)
}

/// Where the text starts that the name at `n` names, where a name with a text
/// stands there.
fn find_named(v: &Vec<char>, name: &Vec<char>, n: usize) -> (r: Option<usize>)
    requires
        name@ == marker_name(),
        n <= v.len(),
    ensures
        match r {
            Some(i) => names_at(v@, n as int) && i == named_at(v@, n as int) && i < v.len(),
            None => !names_at(v@, n as int),
        },
{
    if name.len() > v.len() - n || !stands_at(v, name, n) {
        return None;
    }
    let colon: usize = skip_space(v, n + name.len());
    if colon >= v.len() || v[colon] != ':' {
        return None;
    }
    let i: usize = skip_space(v, colon + 1);
    if i < v.len() && v[i] == '"' {
        Some(i)
    } else {
        None
    }
}

fn find_marked_hash(v: &Vec<char>, from: usize) -> (r: Option<usize>)
    ensures
        match r {
            Some(t) => marked_hash_from(v@, from as int) == Some(t as int) && from <= t < v.len(),
            None => marked_hash_from(v@, from as int) is None,
        },
{
    let name = chars_of("\"$breathe\"");
    let ghost p = |n: int| hash_of_name(v@, from as int, n) is Some;
    let mut n: usize = from;
    while n < v.len()
        invariant
            from <= n,
            name@ == marker_name(),
            p == (|n: int| hash_of_name(v@, from as int, n) is Some),
            first_where(p, from as int, v.len() as int) == first_where(p, n as int, v.len() as int),
        decreases v.len() - n,
    {
        let named = find_named(v, &name, n).is_some();
        if let Some(t) = rfind_char(v, '#', n) {
            if let Some(b) = rfind_char(v, '{', n) {
                if named && from <= t && t < b {
                    assert(p(n as int));
                    return Some(t);
                }
            }
        }
        assert(!p(n as int));
        n = n + 1;
    }
    None
}

fn first_of(a: Option<usize>, b: Option<usize>) -> (r: Option<usize>)
    ensures
        as_place(r) == earlier(as_place(a), as_place(b)),
        r is Some ==> r == a || r == b,
{
    match (a, b) {
        (Some(x), Some(y)) => if x <= y {
            Some(x)
        } else {
            Some(y)
        },
        (Some(x), None) => Some(x),
        (None, y) => y,
    }
}

/// A place as an integer.
pub open spec fn as_place(o: Option<usize>) -> Option<int> {
    match o {
        Some(i) => Some(i as int),
        None => None,
    }
}

fn find_comment_from(v: &Vec<char>, from: usize) -> (r: Option<usize>)
    ensures
        as_place(r) == comment_from(v@, from as int),
        r matches Some(h) ==> from <= h < v.len(),
{
    first_of(find_hash(v, from), find_marked_hash(v, from))
}

fn find_colon(v: &Vec<char>, from: usize, to: usize, spaced: bool) -> (r: Option<usize>)
    requires
        to <= v.len(),
    ensures
        ({
            let found = if spaced {
                first_where(|i: int| is_spaced_colon(v@, i), from as int, to as int)
            } else {
                first_where(|i: int| v@[i] == ':', from as int, to as int)
            };
            match r {
                Some(i) => found == Some(i as int) && from <= i < to,
                None => found is None,
            }
        }),
{
    let ghost p = if spaced {
        |i: int| is_spaced_colon(v@, i)
    } else {
        |i: int| v@[i] == ':'
    };
    let mut i: usize = from;
    while i < to
        invariant
            from <= i,
            to <= v.len(),
            p == if spaced {
                |i: int| is_spaced_colon(v@, i)
            } else {
                |i: int| v@[i] == ':'
            },
            first_where(p, from as int, to as int) == first_where(p, i as int, to as int),
        decreases to - i,
    {
        if v[i] == ':' && (!spaced || (i + 1 < v.len() && blank(v[i + 1]))) {
            assert(p(i as int));
            return Some(i);
        }
        assert(!p(i as int));
        i = i + 1;
    }
    None
}

fn find_closing(v: &Vec<char>, q: char, from: usize) -> (r: Option<usize>)
    ensures
        match r {
            Some(i) => closing(v@, q, from as int) == Some(i as int) && from <= i < v.len(),
            None => closing(v@, q, from as int) is None,
        },
{
    let mut i: usize = from;
    while i < v.len()
        invariant
            from <= i,
            closing(v@, q, from as int) == closing(v@, q, i as int),
        decreases v.len() - i,
    {
        let escape = q == '"' && v[i] == '\\';
        let twice = v[i] == q && q == '\'' && i + 1 < v.len() && v[i + 1] == q;
        if escape || twice {
            if i + 1 >= v.len() {
                assert(closing(v@, q, i + 2) is None);
                return None;
            }
            i = i + 2;
        } else if v[i] == q {
            return Some(i);
        } else {
            i = i + 1;
        }
    }
    None
}

fn find_quoted_end(v: &Vec<char>, at: usize) -> (r: Option<usize>)
    ensures
        match r {
            Some(e) => quoted_end(v@, at as int) == Some(e as int) && at < e <= v.len(),
            None => quoted_end(v@, at as int) is None,
        },
{
    if at < v.len() && mark(v[at]) {
        match find_closing(v, v[at], at + 1) {
            Some(c) => Some(c + 1),
            None => None,
        }
    } else {
        None
    }
}

fn find_key_colon(v: &Vec<char>) -> (r: Option<usize>)
    ensures
        match r {
            Some(c) => key_colon(v@) == Some(c as int) && c < v.len(),
            None => key_colon(v@) is None,
        },
{
    let k: usize = skip_blanks(v, 0);
    if k < v.len() && mark(v[k]) {
        match find_quoted_end(v, k) {
            Some(e) => {
                let c: usize = skip_blanks(v, e);
                if c < v.len() && v[c] == ':' {
                    Some(c)
                } else {
                    None
                }
            },
            None => None,
        }
    } else {
        let to: usize = match find_comment_from(v, k) {
            Some(h) => h,
            None => v.len(),
        };
        match find_colon(v, k, to, true) {
            Some(c) => Some(c),
            None => find_colon(v, k, to, false),
        }
    }
}

fn find_comment_behind(v: &Vec<char>, a: usize) -> (r: Option<usize>)
    requires
        a <= v.len(),
    ensures
        match r {
            Some(h) => comment_behind(v@, a as int) == Some(h as int) && a <= h < v.len(),
            None => comment_behind(v@, a as int) is None,
        },
{
    if let Some(e) = find_quoted_end(v, a) {
        let h: usize = skip_blanks(v, e);
        if h >= v.len() || v[h] == '\n' || v[h] == '\r' {
            return None;
        }
        if v[h] == '#' && (h > e || find_marked_hash(v, e) == Some(e)) {
            return Some(h);
        }
    }
    if a < v.len() && v[a] == '#' && (a + 1 >= v.len() || blank(v[a + 1]) || v[a + 1] == '\n'
        || v[a + 1] == '\r') {
        return Some(a);
    }
    if a >= v.len() {
        return None;
    }
    match first_of(find_hash(v, a + 1), find_marked_hash(v, a)) {
        Some(h) => Some(h),
        None => {
            if v[a] == '#' {
                Some(a)
            } else {
                None
            }
        },
    }
}

/// Where the line's comment starts.
pub fn find_comment(v: &Vec<char>) -> (r: Option<usize>)
    ensures
        match r {
            Some(h) => comment_at(v@) == Some(h as int) && h < v.len(),
            None => comment_at(v@) is None,
        },
{
    match find_key_colon(v) {
        Some(c) => find_comment_behind(v, skip_blanks(v, c + 1)),
        None => find_comment_from(v, skip_blanks(v, 0)),
    }
}

fn holds_marker(v: &Vec<char>, marker: &str) -> (r: bool)
    ensures
        r == marks(v@, marker@),
{
    let name = chars_of("\"$breathe\"");
    let mut quoted = "\"".to_owned();
    quoted.append(marker);
    quoted.append("\"");
    let text = chars_of(quoted.as_str());
    let ghost p = |n: int| marks_at(v@, marker@, n);
    let mut n: usize = 0;
    while n < v.len()
        invariant
            name@ == marker_name(),
            text@ == marker_text(marker@),
            p == (|n: int| marks_at(v@, marker@, n)),
            first_where(p, 0, v.len() as int) == first_where(p, n as int, v.len() as int),
        decreases v.len() - n,
    {
        if let Some(i) = find_named(v, &name, n) {
            if text.len() <= v.len() - i && stands_at(v, &text, i) {
                let opened = rfind_char(v, '{', n).is_some();
                let closed = match rfind_char(v, '}', v.len()) {
                    Some(e) => e >= i + text.len(),
                    None => false,
                };
                if opened && closed {
                    assert(p(n as int));
                    return true;
                }
            }
        }
        assert(!p(n as int));
        n = n + 1;
    }
    false
}

/// Whether the line's comment carries the marker.
pub fn carries_marker(v: &Vec<char>, marker: &str) -> (r: bool)
    ensures
        r == carries(v@, marker@),
{
    match find_comment(v) {
        Some(h) => {
            let comment = chars_from(v, h);
            holds_marker(&comment, marker)
        },
        None => false,
    }
}

fn chars_from(v: &Vec<char>, from: usize) -> (r: Vec<char>)
    requires
        from <= v.len(),
    ensures
        r@ == v@.skip(from as int),
{
    let mut r: Vec<char> = Vec::new();
    let mut i: usize = from;
    while i < v.len()
        invariant
            from <= i <= v.len(),
            r@ == v@.subrange(from as int, i as int),
        decreases v.len() - i,
    {
        r.push(v[i]);
        i = i + 1;
        assert(r@ =~= v@.subrange(from as int, i as int));
    }
    assert(r@ =~= v@.skip(from as int));
    r
}

/// Where the value of a line starts and ends.
pub fn find_scalar(v: &Vec<char>) -> (r: Option<(usize, usize)>)
    ensures
        match r {
            Some((a, b)) => scalar_span(v@) == Some((a as int, b as int)) && a <= b <= v.len(),
            None => scalar_span(v@) is None,
        },
{
    let colon_at: usize = match find_key_colon(v) {
        Some(c) => c,
        None => {
            return None;
        },
    };
    let start: usize = skip_blanks(v, colon_at + 1);
    let hash_at: usize = match find_comment_behind(v, start) {
        Some(h) => h,
        None => {
            return None;
        },
    };
    let from: usize = colon_at + 1;
    let a: usize = run_end(v, from, hash_at, CharClass::Blank);
    let b: usize = run_start(v, a, hash_at, CharClass::Blank);
    if a >= b {
        return None;
    }
    let quoted = b - a >= 2 && v[a] == v[b - 1] && mark(v[a]);
    assert(quoted == is_quoted(v@.subrange(a as int, b as int)));
    if quoted {
        Some((a + 1, b - 1))
    } else {
        Some((a, b))
    }
}

// ─────────────────────── values that read back ───────────────────────

/// The value stands between quotation marks.
pub open spec fn between_quotes(line: Seq<char>, a: int, b: int) -> bool {
    0 < a <= b < line.len() && line[a - 1] == line[b] && is_mark(line[b])
}

/// A value that can stand bare: it is not empty, has no blank at either end,
/// starts with no `#` and no quotation mark and does not end with a colon; it
/// holds no line end, no `#` behind a blank and no colon in front of one.
pub open spec fn is_bare(v: Seq<char>) -> bool {
    &&& v.len() > 0
    &&& !is_blank(v[0]) && v[0] != '#' && !is_mark(v[0])
    &&& !is_blank(v.last()) && v.last() != ':'
    &&& forall|i: int| 0 <= i < v.len() ==> !is_line_end(#[trigger] v[i])
    &&& forall|i: int| 0 < i < v.len() ==> !opens_comment(v, i)
    &&& forall|i: int| 0 <= i < v.len() ==> !is_spaced_colon(v, i)
}

/// A value that can stand between quotation marks: it holds no quotation mark,
/// no backslash, no line end and no colon in front of a blank.
pub open spec fn is_quotable(v: Seq<char>) -> bool {
    &&& forall|i: int|
        0 <= i < v.len() ==> !is_line_end(#[trigger] v[i]) && !is_mark(v[i]) && v[i] != '\\'
    &&& forall|i: int| 0 <= i < v.len() ==> !is_spaced_colon(v, i)
}

/// A plain value: it is not empty, starts with no `#`, does not end with a colon,
/// and holds no blank, no line end, no quotation mark and no backslash.
pub open spec fn is_plain(v: Seq<char>) -> bool {
    &&& v.len() > 0
    &&& v[0] != '#'
    &&& v.last() != ':'
    &&& forall|i: int|
        0 <= i < v.len() ==> !is_blank(#[trigger] v[i]) && !is_line_end(v[i]) && !is_mark(v[i])
            && v[i] != '\\'
}

/// Where a marked comment can start first: at the key or, where that is quoted, at
/// the value, which starts at `a`.
pub open spec fn marked_from(line: Seq<char>, a: int) -> int {
    let k = past_blanks(line, 0);
    if is_mark(line[k]) {
        a
    } else {
        k
    }
}

/// A value at `a` that holds a marker's object with a `#` in front of it, in the
/// value itself or in the key: the line's comment would start at that `#`.
pub open spec fn reads_as_marked(line: Seq<char>, a: int, v: Seq<char>) -> bool {
    exists|n: int|
        a <= n < a + v.len() && #[trigger] hash_of_name(
            line.take(a) + v,
            marked_from(line, a),
            n,
        ) is Some
}

/// A value that can be read back from the place of the line's value.
pub open spec fn reads_back(line: Seq<char>, new: Seq<char>) -> bool {
    scalar_span(line) matches Some((a, b)) && if between_quotes(line, a, b) {
        is_quotable(new)
    } else {
        is_bare(new) && !reads_as_marked(line, a, new)
    }
}

/// A plain value can be read back from every line that has a value.
pub proof fn a_plain_value_reads_back(line: Seq<char>, new: Seq<char>)
    requires
        scalar_span(line) is Some,
        is_plain(new),
    ensures
        reads_back(line, new),
{
    assert forall|i: int| 0 < i < new.len() implies !opens_comment(new, i) by {
        assert(!is_blank(new[i - 1]));
    }
    assert forall|i: int| 0 <= i < new.len() implies !is_spaced_colon(new, i) by {
        if i + 1 < new.len() {
            assert(!is_blank(new[i + 1]));
        }
    }
    lemma_scalar_span(line);
    let (a, b) = scalar_span(line)->0;
    let s = line.take(a) + new;
    assert forall|n: int| a <= n < a + new.len() implies #[trigger] hash_of_name(
        s,
        marked_from(line, a),
        n,
    ) is None by {
        assert(s[n] == new[n - a]);
        if names_at(s, n) {
            lemma_name_window(s, n);
        }
    }
}

/// The line after its value was set.
pub open spec fn line_after(line: Seq<char>, new: Seq<char>) -> Seq<char> {
    match scalar_span(line) {
        Some((a, b)) => replaced(line, a, b, new),
        None => line,
    }
}

/// The places that decide a line's value: the key's colon, the start and the end
/// of the value with its quotation marks, and the comment's start.
struct Anchors {
    colon: int,
    start: int,
    end: int,
    hash: int,
}

spec fn anchors(line: Seq<char>) -> Anchors {
    let colon = key_colon(line)->0;
    let start = past_blanks(line, colon + 1);
    let hash = comment_at(line)->0;
    let end = hash - trailing(line.subrange(start, hash), CharClass::Blank);
    Anchors { colon, start, end, hash }
}

proof fn lemma_key_colon(line: Seq<char>)
    requires
        key_colon(line) is Some,
    ensures
        0 <= past_blanks(line, 0) <= key_colon(line)->0 < line.len(),
        line[key_colon(line)->0] == ':',
{
    let k = past_blanks(line, 0);
    lemma_past_blanks(line, 0);
    if k < line.len() && is_mark(line[k]) {
        let e = quoted_end(line, k)->0;
        lemma_closing(line, line[k], k + 1);
        lemma_past_blanks(line, e);
    } else {
        lemma_comment_from(line, k);
        let to = match comment_from(line, k) {
            Some(h) => h,
            None => line.len() as int,
        };
        lemma_first_where(|i: int| is_spaced_colon(line, i), k, to);
        lemma_first_where(|i: int| line[i] == ':', k, to);
    }
}

/// A comment starts inside the line.
proof fn lemma_comment_from(line: Seq<char>, from: int)
    requires
        0 <= from <= line.len(),
    ensures
        comment_from(line, from) matches Some(h) ==> from <= h < line.len(),
{
    lemma_first_where(|i: int| opens_comment(line, i), from, line.len() as int);
    if marked_hash_from(line, from) is Some {
        lemma_marked(line, from);
    }
}

proof fn lemma_closing(line: Seq<char>, q: char, from: int)
    requires
        0 <= from,
    ensures
        closing(line, q, from) matches Some(c) ==> from <= c < line.len() && line[c] == q,
    decreases line.len() + 1 - from,
{
    if from < line.len() {
        if q == '"' && line[from] == '\\' {
            lemma_closing(line, q, from + 2);
        } else if line[from] != q {
            lemma_closing(line, q, from + 1);
        } else if q == '\'' && from + 1 < line.len() && line[from + 1] == q {
            lemma_closing(line, q, from + 2);
        }
    }
}

/// A closing mark depends on the characters up to the one behind it alone.
proof fn lemma_closing_prefix(line: Seq<char>, other: Seq<char>, q: char, from: int)
    requires
        0 <= from,
        closing(line, q, from) is Some,
        closing(line, q, from)->0 + 1 < line.len(),
        closing(line, q, from)->0 + 1 < other.len(),
        forall|j: int| from <= j <= closing(line, q, from)->0 + 1 ==> line[j] == #[trigger] other[j],
    ensures
        closing(other, q, from) == closing(line, q, from),
    decreases line.len() + 1 - from,
{
    lemma_closing(line, q, from);
    assert(line[from] == other[from]);
    assert(line[from + 1] == other[from + 1]);
    if q == '"' && line[from] == '\\' {
        lemma_closing(line, q, from + 2);
        lemma_closing_prefix(line, other, q, from + 2);
    } else if line[from] != q {
        lemma_closing(line, q, from + 1);
        lemma_closing_prefix(line, other, q, from + 1);
    } else if q == '\'' && from + 1 < line.len() && line[from + 1] == q {
        lemma_closing(line, q, from + 2);
        lemma_closing_prefix(line, other, q, from + 2);
    }
}

/// Marks and backslashes are passed over only where there are some.
proof fn lemma_closing_is(line: Seq<char>, q: char, from: int, k: int)
    requires
        0 <= from <= k < line.len(),
        is_mark(q),
        line[k] == q,
        k + 1 < line.len() ==> line[k + 1] != q,
        forall|j: int| from <= j < k ==> !is_mark(#[trigger] line[j]) && line[j] != '\\',
    ensures
        closing(line, q, from) == Some(k),
    decreases k - from,
{
    if from < k {
        assert(!is_mark(line[from]));
        lemma_closing_is(line, q, from + 1, k);
    }
}

proof fn lemma_past_space(s: Seq<char>, from: int)
    requires
        0 <= from <= s.len(),
    ensures
        from <= past_space(s, from) <= s.len(),
        forall|j: int|
            from <= j < past_space(s, from) ==> CharClass::JsonSpace.holds(#[trigger] s[j]),
        past_space(s, from) < s.len() ==> !CharClass::JsonSpace.holds(s[past_space(s, from)]),
{
    let r = s.subrange(from, s.len() as int);
    lemma_leading(r, CharClass::JsonSpace);
    assert forall|j: int| from <= j < past_space(s, from) implies CharClass::JsonSpace.holds(
        #[trigger] s[j],
    ) by {
        assert(r[j - from] == s[j]);
    }
}

proof fn lemma_past_space_is(s: Seq<char>, from: int, k: int)
    requires
        0 <= from <= k <= s.len(),
        forall|j: int| from <= j < k ==> CharClass::JsonSpace.holds(#[trigger] s[j]),
        k < s.len() ==> !CharClass::JsonSpace.holds(s[k]),
    ensures
        past_space(s, from) == k,
{
    let r = s.subrange(from, s.len() as int);
    assert forall|i: int| 0 <= i < k - from implies CharClass::JsonSpace.holds(
        #[trigger] r[i],
    ) by {
        assert(CharClass::JsonSpace.holds(s[from + i]));
    }
    lemma_leading_is(r, CharClass::JsonSpace, k - from);
}

/// The characters of a marker's name: letters and a dollar sign between double
/// quotation marks.
proof fn lemma_name_window(s: Seq<char>, n: int)
    requires
        occurs_at(s, marker_name(), n),
    ensures
        marker_name().len() == 10,
        0 <= n && n + 10 <= s.len(),
        s[n] == '"',
        s[n + 1] == '$',
        s[n + 9] == '"',
        forall|k: int|
            n < k < n + 9 ==> !is_mark(#[trigger] s[k]) && !is_blank(s[k]) && s[k] != ':' && s[k]
                != '#',
{
    reveal_strlit("\"$breathe\"");
    let w = s.subrange(n, n + 10);
    assert(w == marker_name());
    assert(w[0] == s[n]);
    assert(w[1] == s[n + 1]);
    assert(w[9] == s[n + 9]);
    assert forall|k: int| n < k < n + 9 implies !is_mark(#[trigger] s[k]) && !is_blank(s[k])
        && s[k] != ':' && s[k] != '#' by {
        assert(w[k - n] == s[k]);
        assert(marker_name()[k - n] == w[k - n]);
    }
}

/// A name depends on what stands from it on alone.
proof fn lemma_names_suffix(s: Seq<char>, h: int, n: int)
    requires
        0 <= h <= n <= s.len(),
    ensures
        names_at(s, n) == names_at(s.skip(h), n - h),
{
    let r = s.skip(h);
    let len = marker_name().len() as int;
    if n + len <= s.len() {
        assert(s.subrange(n, n + len) =~= r.subrange(n - h, n - h + len));
        let q = n + len;
        assert(s.subrange(q, s.len() as int) =~= r.subrange(q - h, r.len() as int));
        lemma_past_space(s, q);
        let c = name_colon(s, n);
        assert(name_colon(r, n - h) == c - h);
        if c < s.len() {
            assert(s.subrange(c + 1, s.len() as int) =~= r.subrange(c + 1 - h, r.len() as int));
            lemma_past_space(s, c + 1);
        }
    }
}

/// The last place of a character behind `h` depends on what stands from `h` on
/// alone.
proof fn lemma_last_place_suffix(s: Seq<char>, c: char, h: int, n: int)
    requires
        0 <= h <= n <= s.len(),
    ensures
        match last_place(s.skip(h), c, n - h) {
            Some(i) => last_place(s, c, n) == Some(i + h),
            None => last_place(s, c, n) matches Some(i) ==> i < h,
        },
{
    let r = s.skip(h);
    lemma_last_place(r, c, n - h);
    lemma_last_place(s, c, n);
    match last_place(r, c, n - h) {
        Some(i) => {
            assert(r[i] == s[i + h]);
            assert forall|j: int| i + h < j < n implies #[trigger] s[j] != c by {
                assert(r[j - h] != c);
            }
            lemma_last_place_is(s, c, n, i + h);
        },
        None => {
            match last_place(s, c, n) {
                Some(i) => {
                    if i >= h {
                        assert(r[i - h] != c);
                    }
                },
                None => {},
            }
        },
    }
}

/// The last place of a character in front of `n` depends on what stands there
/// alone.
proof fn lemma_last_place_prefix(s: Seq<char>, c: char, e: int, n: int)
    requires
        0 <= n <= e <= s.len(),
    ensures
        last_place(s.take(e), c, n) == last_place(s, c, n),
{
    let r = s.take(e);
    lemma_last_place(s, c, n);
    lemma_last_place(r, c, n);
    match last_place(s, c, n) {
        Some(i) => {
            assert(r[i] == s[i]);
            assert forall|j: int| i < j < n implies #[trigger] r[j] != c by {
                assert(r[j] == s[j]);
            }
            lemma_last_place_is(r, c, n, i);
        },
        None => {
            if last_place(r, c, n) is Some {
                assert(r[last_place(r, c, n)->0] == s[last_place(r, c, n)->0]);
            }
        },
    }
}

/// Behind a `#` at `h`, the hash of a name depends on what stands from `h` on
/// alone.
proof fn lemma_hash_of_name_suffix(s: Seq<char>, from: int, h: int, n: int)
    requires
        0 <= from <= h < n <= s.len(),
        s[h] == '#',
    ensures
        hash_of_name(s, from, n) == match hash_of_name(s.skip(h), 0, n - h) {
            Some(t) => Some(t + h),
            None => None,
        },
{
    let r = s.skip(h);
    lemma_names_suffix(s, h, n);
    lemma_last_place_suffix(s, '#', h, n);
    lemma_last_place_suffix(s, '{', h, n);
    lemma_last_place(r, '#', n - h);
    lemma_last_place(r, '{', n - h);
    assert(r[0] == '#');
    assert(last_place(r, '#', n - h) is Some);
}

/// The marked comment from `from` on, where no name in front of the `#` at `h` has
/// one: it depends on what stands from `h` on alone.
proof fn lemma_marked_suffix(s: Seq<char>, from: int, h: int)
    requires
        0 <= from <= h < s.len(),
        s[h] == '#',
        forall|n: int| from <= n < h ==> #[trigger] hash_of_name(s, from, n) is None,
    ensures
        marked_hash_from(s, from) == match marked_hash_from(s.skip(h), 0) {
            Some(t) => Some(t + h),
            None => None,
        },
{
    let r = s.skip(h);
    let p = |n: int| hash_of_name(s, from, n) is Some;
    let q = |n: int| hash_of_name(r, 0, n) is Some;
    lemma_first_where(p, from, s.len() as int);
    lemma_first_where(q, 0, r.len() as int);
    assert(!p(h)) by {
        if names_at(s, h) {
            lemma_name_window(s, h);
        }
    }
    assert(!q(0)) by {
        lemma_last_place(r, '#', 0);
    }
    match first_where(q, 0, r.len() as int) {
        Some(k) => {
            assert(q(k));
            lemma_hash_of_name_suffix(s, from, h, k + h);
            assert(p(k + h));
            assert forall|j: int| from <= j < k + h implies !#[trigger] p(j) by {
                if j < h {
                    assert(hash_of_name(s, from, j) is None);
                } else if j > h {
                    assert(!q(j - h));
                    lemma_hash_of_name_suffix(s, from, h, j);
                }
            }
            lemma_first_is(p, from, s.len() as int, k + h);
        },
        None => {
            assert forall|j: int| from <= j < s.len() implies !#[trigger] p(j) by {
                if j < h {
                    assert(hash_of_name(s, from, j) is None);
                } else if j > h {
                    assert(!q(j - h));
                    lemma_hash_of_name_suffix(s, from, h, j);
                }
            }
            lemma_first_none(p, from, s.len() as int);
        },
    }
}

/// A name that has a hash makes a comment start there or earlier.
proof fn lemma_marked_by(s: Seq<char>, from: int, n: int)
    requires
        0 <= from <= n < s.len(),
        hash_of_name(s, from, n) is Some,
    ensures
        marked_hash_from(s, from) matches Some(t) && from <= t <= hash_of_name(s, from, n)->0
            && s[t] == '#',
{
    let p = |n: int| hash_of_name(s, from, n) is Some;
    lemma_first_where(p, from, s.len() as int);
    assert(p(n));
    let k = first_where(p, from, s.len() as int)->0;
    assert(first_where(p, from, s.len() as int) is Some);
    assert(p(k));
    lemma_last_place(s, '#', k);
    lemma_last_place(s, '#', n);
    if k > n {
        assert(!p(n));
    }
    let t = last_place(s, '#', k)->0;
    let u = last_place(s, '#', n)->0;
    if t > u {
        assert(s[t] != '#');
    }
}

/// Where a marked comment starts, a `#` stands, and the rest of the line starts
/// with a marked comment.
proof fn lemma_marked(s: Seq<char>, from: int)
    requires
        0 <= from <= s.len(),
        marked_hash_from(s, from) is Some,
    ensures
        ({
            let t = marked_hash_from(s, from)->0;
            &&& from <= t < s.len()
            &&& s[t] == '#'
            &&& starts_marked(s, t)
        }),
{
    let p = |n: int| hash_of_name(s, from, n) is Some;
    lemma_first_where(p, from, s.len() as int);
    let n = first_where(p, from, s.len() as int)->0;
    assert(p(n));
    let t = hash_of_name(s, from, n)->0;
    lemma_last_place(s, '#', n);
    lemma_hash_of_name_suffix(s, from, t, n);
    lemma_marked_by(s.skip(t), 0, n - t);
}

/// The rest of the line from `t` on starts with a marked comment.
spec fn starts_marked(s: Seq<char>, t: int) -> bool {
    marked_hash_from(s.skip(t), 0) == Some(0int)
}

/// What stands around the value of a line: a colon and blanks in front of it,
/// blanks and the comment behind it, with at least one blank in front of the
/// comment unless it is a marked one.
proof fn lemma_anchors(line: Seq<char>)
    requires
        scalar_span(line) is Some,
    ensures
        ({
            let x = anchors(line);
            let (a, b) = scalar_span(line)->0;
            &&& key_colon(line) == Some(x.colon)
            &&& comment_at(line) == Some(x.hash)
            &&& 0 <= x.colon < x.start < x.end <= x.hash < line.len()
            &&& x.end < x.hash || starts_marked(line, x.hash)
            &&& line[x.colon] == ':'
            &&& line[x.hash] == '#'
            &&& forall|j: int| x.colon < j < x.start ==> is_blank(#[trigger] line[j])
            &&& forall|j: int| x.end <= j < x.hash ==> is_blank(#[trigger] line[j])
            &&& !is_blank(line[x.start])
            &&& !is_blank(line[x.end - 1])
            &&& if is_quoted(line.subrange(x.start, x.end)) {
                a == x.start + 1 && b == x.end - 1 && a <= b
            } else {
                a == x.start && b == x.end
            }
            &&& between_quotes(line, a, b) <==> is_quoted(line.subrange(x.start, x.end))
        }),
{
    let x = anchors(line);
    lemma_key_colon(line);
    lemma_past_blanks(line, x.colon + 1);
    lemma_comment_behind(line, x.start);
    let rest = line.subrange(x.colon + 1, x.hash);
    assert(x.start < x.hash) by {
        if x.start >= x.hash {
            assert forall|i: int| 0 <= i < rest.len() implies CharClass::Blank.holds(
                #[trigger] rest[i],
            ) by {
                assert(is_blank(line[x.colon + 1 + i]));
            }
            lemma_leading_is(rest, CharClass::Blank, rest.len() as int);
        }
    }
    assert forall|i: int| 0 <= i < x.start - x.colon - 1 implies CharClass::Blank.holds(
        #[trigger] rest[i],
    ) by {
        assert(is_blank(line[x.colon + 1 + i]));
    }
    assert(rest[x.start - x.colon - 1] == line[x.start]);
    lemma_leading_is(rest, CharClass::Blank, x.start - x.colon - 1);
    let tail = line.subrange(x.start, x.hash);
    lemma_trailing(tail, CharClass::Blank);
    assert forall|j: int| x.end <= j < x.hash implies is_blank(#[trigger] line[j]) by {
        assert(CharClass::Blank.holds(tail[j - x.start]));
    }
    assert(tail[0] == line[x.start]);
    assert(x.end > x.start);
    assert(tail[x.end - 1 - x.start] == line[x.end - 1]);
    let s = line.subrange(x.start, x.end);
    assert(s[0] == line[x.start]);
    assert(s.last() == line[x.end - 1]);
    let (a, b) = scalar_span(line)->0;
    if !is_quoted(s) && x.end < x.hash {
        assert(is_blank(line[b]));
    }
}

/// A value lies inside its line, in front of the comment.
pub proof fn lemma_scalar_span(line: Seq<char>)
    requires
        scalar_span(line) is Some,
    ensures
        scalar_span(line) matches Some((a, b)) && 0 < a <= b < line.len(),
{
    lemma_anchors(line);
}

/// A comment behind a value's start is a `#` behind a blank, or a marked one.
proof fn lemma_comment_behind(line: Seq<char>, a: int)
    requires
        0 < a <= line.len(),
        comment_behind(line, a) is Some,
    ensures
        ({
            let h = comment_behind(line, a)->0;
            &&& a <= h < line.len()
            &&& line[h] == '#'
            &&& h > a ==> is_blank(line[h - 1]) || starts_marked(line, h)
        }),
{
    match quoted_end(line, a) {
        Some(e) => {
            lemma_closing(line, line[a], a + 1);
            lemma_past_blanks(line, e);
            let h = past_blanks(line, e);
            if h > e {
                assert(is_blank(line[h - 1]));
            } else if marked_hash_from(line, e) == Some(e) {
                lemma_marked(line, e);
            }
        },
        None => {},
    }
    lemma_first_where(|i: int| opens_comment(line, i), a + 1, line.len() as int);
    if marked_hash_from(line, a) is Some {
        lemma_marked(line, a);
    }
}

/// What the changed line holds at the places of the line before.
proof fn lemma_places(line: Seq<char>, new: Seq<char>)
    requires
        reads_back(line, new),
    ensures
        ({
            let x = anchors(line);
            let (a, b) = scalar_span(line)->0;
            let d = new.len() - (b - a);
            let after = line_after(line, new);
            &&& after.len() == line.len() + d
            &&& forall|j: int| 0 <= j < a ==> #[trigger] after[j] == line[j]
            &&& forall|j: int| a <= j < a + new.len() ==> #[trigger] after[j] == new[j - a]
            &&& forall|j: int| a + new.len() <= j < after.len() ==> #[trigger] after[j] == line[j
                - d]
            &&& after[x.hash + d] == '#'
            &&& after.skip(x.hash + d) == line.skip(x.hash)
            &&& forall|j: int| x.end + d <= j < x.hash + d ==> is_blank(#[trigger] after[j])
            &&& !is_blank(after[x.start])
            &&& after[x.start] != '#'
        }),
{
    lemma_anchors(line);
    let x = anchors(line);
    let (a, b) = scalar_span(line)->0;
    let d = new.len() - (b - a);
    let after = line_after(line, new);
    let s = line.subrange(x.start, x.end);
    assert(s[0] == line[x.start]);
    assert(after[x.hash + d] == line[x.hash]);
    assert(after.skip(x.hash + d) =~= line.skip(x.hash));
    assert forall|j: int| x.end + d <= j < x.hash + d implies is_blank(#[trigger] after[j]) by {
        assert(after[j] == line[j - d]);
        assert(is_blank(line[j - d]));
    }
    if between_quotes(line, a, b) {
        assert(after[x.start] == line[x.start]);
    } else {
        assert(after[x.start] == new[0]);
    }
}

/// In the changed line no marker is named between the quotation marks of the
/// value, nor up to the comment.
proof fn lemma_no_name_in_quotes(line: Seq<char>, new: Seq<char>, n: int)
    requires
        reads_back(line, new),
        is_quoted(line.subrange(anchors(line).start, anchors(line).end)),
        anchors(line).start <= n < anchors(line).hash + line_after(line, new).len() - line.len(),
    ensures
        !names_at(line_after(line, new), n),
{
    lemma_anchors(line);
    lemma_places(line, new);
    let x = anchors(line);
    let (a, b) = scalar_span(line)->0;
    let d = new.len() - (b - a);
    let after = line_after(line, new);
    let h = x.hash + d;
    let s = line.subrange(x.start, x.end);
    assert(s[0] == line[x.start]);
    assert(s.last() == line[x.end - 1]);
    if names_at(after, n) {
        lemma_name_window(after, n);
        let close = a + new.len();
        assert(after[close] == line[b]);
        assert(is_mark(after[close]));
        if close + 1 < h {
            assert(is_blank(after[close + 1]));
        } else {
            assert(after[close + 1] == '#');
        }
        if n == x.start {
            if close < n + 9 {
                assert(!is_mark(after[close]));
            } else if close > n + 9 {
                assert(after[n + 9] == new[n + 9 - a]);
            } else {
                assert forall|j: int| n + 10 <= j < h implies CharClass::JsonSpace.holds(
                    #[trigger] after[j],
                ) by {
                    assert(is_blank(after[j]));
                }
                lemma_past_space_is(after, n + 10, h);
                assert(after[h] == ':');
            }
        } else if n < close {
            assert(after[n] == new[n - a]);
        } else if n > close {
            assert(is_blank(after[n]));
        }
    }
}

/// White space in front of the comment ends at the comment: what follows it on
/// the way there lies in the value.
proof fn lemma_space_in_value(line: Seq<char>, new: Seq<char>, from: int)
    requires
        reads_back(line, new),
        !is_quoted(line.subrange(anchors(line).start, anchors(line).end)),
        anchors(line).start <= from <= anchors(line).start + new.len(),
        past_space(line_after(line, new), from) < line_after(line, new).len(),
        line_after(line, new)[past_space(line_after(line, new), from)] != '#',
    ensures
        ({
            let s = line.take(anchors(line).start) + new;
            let i = past_space(line_after(line, new), from);
            from <= i < s.len() && past_space(s, from) == i && s[i] == line_after(line, new)[i]
        }),
{
    lemma_anchors(line);
    lemma_places(line, new);
    let x = anchors(line);
    let after = line_after(line, new);
    let h = x.hash + after.len() - line.len();
    let s = line.take(x.start) + new;
    let e = x.start + new.len();
    assert(s =~= after.take(e));
    let i = past_space(after, from);
    lemma_past_space(after, from);
    if i >= e {
        assert forall|j: int| from <= j < h implies CharClass::JsonSpace.holds(
            #[trigger] after[j],
        ) by {
            if j >= e {
                assert(is_blank(after[j]));
            }
        }
        lemma_past_space_is(after, from, h);
    }
    assert(s[i] == after[i]);
    assert forall|j: int| from <= j < i implies CharClass::JsonSpace.holds(#[trigger] s[j]) by {
        assert(s[j] == after[j]);
    }
    lemma_past_space_is(s, from, i);
}

/// A marker that the changed line names in a value without quotation marks, or
/// behind it up to the comment, is named by the value itself.
#[verifier::spinoff_prover]
proof fn lemma_name_of_value(line: Seq<char>, new: Seq<char>, n: int)
    requires
        reads_back(line, new),
        !is_quoted(line.subrange(anchors(line).start, anchors(line).end)),
        anchors(line).start <= n < anchors(line).hash + line_after(line, new).len() - line.len(),
        names_at(line_after(line, new), n),
    ensures
        n < anchors(line).start + new.len(),
        names_at(line.take(anchors(line).start) + new, n),
{
    lemma_anchors(line);
    lemma_places(line, new);
    let x = anchors(line);
    let after = line_after(line, new);
    let s = line.take(x.start) + new;
    let e = x.start + new.len();
    assert(s =~= after.take(e));
    lemma_name_window(after, n);
    if n >= e {
        assert(is_blank(after[n]));
    }
    if e <= n + 9 {
        assert(after[e] == '#' || is_blank(after[e]));
    }
    assert(s.subrange(n, n + 10) =~= after.subrange(n, n + 10));
    lemma_space_in_value(line, new, n + 10);
    lemma_space_in_value(line, new, name_colon(after, n) + 1);
}

/// In the changed line no marked comment starts that a name in the value has made,
/// nor one up to the comment.
proof fn lemma_no_name_in_value(line: Seq<char>, new: Seq<char>, from: int, n: int)
    requires
        reads_back(line, new),
        marked_from(line, anchors(line).start) <= from,
        anchors(line).start <= n < anchors(line).hash + line_after(line, new).len() - line.len(),
    ensures
        hash_of_name(line_after(line, new), from, n) is None,
{
    lemma_anchors(line);
    lemma_places(line, new);
    let x = anchors(line);
    let after = line_after(line, new);
    if names_at(after, n) {
        if is_quoted(line.subrange(x.start, x.end)) {
            lemma_no_name_in_quotes(line, new, n);
        } else {
            lemma_name_of_value(line, new, n);
            let s = line.take(x.start) + new;
            let e = x.start + new.len();
            assert(s =~= after.take(e));
            lemma_last_place_prefix(after, '#', e, n);
            lemma_last_place_prefix(after, '{', e, n);
            assert(hash_of_name(s, marked_from(line, x.start), n) is None);
        }
    }
}

/// A marked comment of the changed line does not start in front of its value,
/// where that of the line before does not.
proof fn lemma_no_name_in_key(line: Seq<char>, new: Seq<char>, k: int, n: int)
    requires
        reads_back(line, new),
        0 <= k <= n < anchors(line).start,
        hash_of_name(line_after(line, new), k, n) is Some,
    ensures
        hash_of_name(line, k, n) is Some,
        hash_of_name(line, k, n)->0 <= anchors(line).colon,
{
    lemma_anchors(line);
    lemma_places(line, new);
    let x = anchors(line);
    let (a, b) = scalar_span(line)->0;
    let after = line_after(line, new);
    lemma_name_window(after, n);
    assert(after[x.colon] == ':');
    if x.colon < n {
        assert(is_blank(line[n]));
        assert(after[n] == line[n]);
    }
    if n < x.colon < n + 9 {
        assert(after[x.colon] != ':');
    }
    assert(n + 10 <= x.colon);
    assert(line.subrange(n, n + 10) =~= after.subrange(n, n + 10));
    // the colon behind the name
    lemma_past_space(after, n + 10);
    let c = name_colon(after, n);
    assert(c <= x.colon) by {
        if c > x.colon {
            assert(CharClass::JsonSpace.holds(after[x.colon]));
        }
    }
    assert forall|j: int| n + 10 <= j < c implies CharClass::JsonSpace.holds(
        #[trigger] line[j],
    ) by {
        assert(CharClass::JsonSpace.holds(after[j]));
    }
    assert(after[c] == line[c]);
    lemma_past_space_is(line, n + 10, c);
    // the text behind the colon
    lemma_past_space(after, c + 1);
    let v = named_at(after, n);
    let s = line.subrange(x.start, x.end);
    assert(s[0] == line[x.start]);
    assert(!CharClass::JsonSpace.holds(after[x.start])) by {
        if between_quotes(line, a, b) {
            assert(after[x.start] == line[x.start]);
        } else {
            assert(after[x.start] == new[0]);
            assert(!is_line_end(new[0]));
        }
    }
    assert(v <= x.start) by {
        if v > x.start {
            assert(CharClass::JsonSpace.holds(after[x.start]));
        }
    }
    assert(after[v] == line[v]) by {
        if v == x.start && !between_quotes(line, a, b) {
            assert(after[v] == new[0]);
        }
    }
    assert forall|j: int| c + 1 <= j < v implies CharClass::JsonSpace.holds(#[trigger] line[j]) by {
        assert(CharClass::JsonSpace.holds(after[j]));
    }
    lemma_past_space_is(line, c + 1, v);
    assert(names_at(line, n));
    // what stands in front of the name
    lemma_last_place(after, '#', n);
    lemma_last_place(after, '{', n);
    let t = last_place(after, '#', n)->0;
    let o = last_place(after, '{', n)->0;
    assert(line[t] == after[t]);
    assert(line[o] == after[o]);
    assert forall|j: int| t < j < n implies #[trigger] line[j] != '#' by {
        assert(after[j] != '#');
    }
    assert forall|j: int| o < j < n implies #[trigger] line[j] != '{' by {
        assert(after[j] != '{');
    }
    lemma_last_place_is(line, '#', n, t);
    lemma_last_place_is(line, '{', n, o);
}

/// In the changed line a comment that stands from `from` on, inside or behind the
/// value, is marked exactly where the line's own comment is.
proof fn lemma_marked_moves(line: Seq<char>, new: Seq<char>, from: int)
    requires
        reads_back(line, new),
        anchors(line).start <= from <= anchors(line).hash + line_after(line, new).len()
            - line.len(),
    ensures
        ({
            let h = anchors(line).hash + line_after(line, new).len() - line.len();
            marked_hash_from(line_after(line, new), from) == match marked_hash_from(
                line.skip(anchors(line).hash),
                0,
            ) {
                Some(t) => Some(t + h),
                None => None,
            }
        }),
{
    lemma_anchors(line);
    lemma_places(line, new);
    let x = anchors(line);
    let after = line_after(line, new);
    let h = x.hash + after.len() - line.len();
    lemma_key_colon(line);
    assert forall|n: int| from <= n < h implies #[trigger] hash_of_name(after, from, n) is None by {
        lemma_no_name_in_value(line, new, from, n);
    }
    lemma_marked_suffix(after, from, h);
}

/// A comment of the changed line starts behind the key's colon, and at the line's
/// own comment at the latest.
proof fn lemma_comment_bounds(line: Seq<char>, new: Seq<char>, k: int)
    requires
        reads_back(line, new),
        k == past_blanks(line, 0),
        !is_mark(line[k]),
    ensures
        comment_from(line_after(line, new), k) matches Some(h) && anchors(line).colon < h
            <= anchors(line).hash + line_after(line, new).len() - line.len(),
{
    lemma_anchors(line);
    lemma_places(line, new);
    lemma_key_colon(line);
    let x = anchors(line);
    let (a, b) = scalar_span(line)->0;
    let d = new.len() - (b - a);
    let after = line_after(line, new);
    let h = x.hash + d;
    let n = line.len() as int;
    let to = match comment_from(line, k) {
        Some(h) => h,
        None => n,
    };
    assert(x.colon < to) by {
        lemma_first_where(|i: int| is_spaced_colon(line, i), k, to);
        lemma_first_where(|i: int| line[i] == ':', k, to);
    }
    let opens = |i: int| opens_comment(line, i);
    let opens_after = |i: int| opens_comment(after, i);
    lemma_first_where(opens, k, n);
    lemma_first_where(opens_after, k, after.len() as int);
    // neither kind starts in front of the value
    match hash_from(after, k) {
        Some(i) => {
            assert(opens_after(i));
            if i <= x.colon {
                assert(after[i] == line[i]);
                if i > 0 {
                    assert(after[i - 1] == line[i - 1]);
                }
                assert(opens(i));
            }
        },
        None => {},
    }
    match marked_hash_from(after, k) {
        Some(t) => {
            let p = |n: int| hash_of_name(after, k, n) is Some;
            lemma_first_where(p, k, after.len() as int);
            let m = first_where(p, k, after.len() as int)->0;
            assert(p(m));
            if t <= x.colon {
                if m < x.start {
                    lemma_no_name_in_key(line, new, k, m);
                    lemma_marked_by(line, k, m);
                } else if m < h {
                    lemma_no_name_in_value(line, new, k, m);
                } else {
                    lemma_last_place(after, '#', m);
                    if m == h {
                        lemma_name_window(after, m);
                    } else {
                        assert(after[h] != '#');
                    }
                }
            }
        },
        None => {},
    }
    // and one starts at the comment
    if x.end < x.hash {
        assert(is_blank(after[h - 1]));
        assert(opens_after(h));
    } else {
        let r = line.skip(x.hash);
        let q = |n: int| hash_of_name(r, 0, n) is Some;
        lemma_first_where(q, 0, r.len() as int);
        let m = first_where(q, 0, r.len() as int)->0;
        assert(q(m));
        lemma_last_place(r, '#', m);
        lemma_hash_of_name_suffix(after, k, h, m + h);
        lemma_marked_by(after, k, m + h);
    }
}

/// The key of the changed line ends where it did.
#[verifier::spinoff_prover]
#[verifier::rlimit(30)]
proof fn lemma_key_stays(line: Seq<char>, new: Seq<char>)
    requires
        reads_back(line, new),
    ensures
        key_colon(line_after(line, new)) == key_colon(line),
{
    lemma_anchors(line);
    lemma_places(line, new);
    lemma_key_colon(line);
    let x = anchors(line);
    let (a, b) = scalar_span(line)->0;
    let d = new.len() - (b - a);
    let after = line_after(line, new);
    let k = past_blanks(line, 0);
    lemma_past_blanks(line, 0);
    assert forall|j: int| 0 <= j < k implies is_blank(#[trigger] after[j]) by {
        assert(is_blank(line[j]));
    }
    assert(after[k] == line[k]);
    lemma_past_blanks_is(after, 0, k);
    if is_mark(line[k]) {
        let e = quoted_end(line, k)->0;
        lemma_closing(line, line[k], k + 1);
        lemma_past_blanks(line, e);
        assert(e <= x.colon);
        lemma_closing_prefix(line, after, line[k], k + 1);
        assert forall|j: int| e <= j < x.colon implies is_blank(#[trigger] after[j]) by {
            assert(is_blank(line[j]));
        }
        assert(after[x.colon] == line[x.colon]);
        lemma_past_blanks_is(after, e, x.colon);
    } else {
        lemma_comment_from(line, k);
        let to = match comment_from(line, k) {
            Some(h) => h,
            None => line.len() as int,
        };
        let spaced = |i: int| is_spaced_colon(line, i);
        let spaced_after = |i: int| is_spaced_colon(after, i);
        let plain = |i: int| line[i] == ':';
        let plain_after = |i: int| after[i] == ':';
        lemma_first_where(spaced, k, to);
        lemma_first_where(plain, k, to);
        lemma_comment_bounds(line, new, k);
        let to_after = comment_from(after, k)->0;
        lemma_first_where(spaced_after, k, to_after);
        if first_where(spaced, k, to) is Some {
            assert(spaced(x.colon));
            assert(x.colon + 1 < x.start) by {
                assert(is_blank(line[x.colon + 1]));
            }
            assert(after[x.colon + 1] == line[x.colon + 1]);
            assert(after[x.colon] == line[x.colon]);
            assert(spaced_after(x.colon));
            assert forall|j: int| k <= j < x.colon implies !#[trigger] spaced_after(j) by {
                assert(!spaced(j));
                assert(after[j] == line[j]);
                assert(after[j + 1] == line[j + 1]);
            }
            lemma_first_is(spaced_after, k, to_after, x.colon);
        } else {
            assert(!spaced(x.colon));
            assert(x.start == x.colon + 1) by {
                if x.colon + 1 < x.start {
                    assert(is_blank(line[x.colon + 1]));
                }
            }
            assert forall|j: int| k <= j < to_after implies !#[trigger] spaced_after(j) by {
                if j < x.colon {
                    assert(!spaced(j));
                    assert(after[j] == line[j]);
                    assert(after[j + 1] == line[j + 1]);
                } else if j == x.colon {
                    assert(!is_blank(after[x.start]));
                } else if j < a {
                    assert(after[j] == line[j]);
                } else if j < a + new.len() {
                    assert(after[j] == new[j - a]);
                    if j + 1 < a + new.len() {
                        assert(after[j + 1] == new[j + 1 - a]);
                        assert(!is_spaced_colon(new, j - a));
                    } else if between_quotes(line, a, b) {
                        assert(after[j + 1] == line[b]);
                    } else {
                        assert(new[j - a] == new.last());
                    }
                } else if j < x.end + d {
                    assert(after[j] == line[j - d]);
                    assert(j == a + new.len());
                    assert(is_mark(line[b]));
                } else {
                    assert(is_blank(after[j]));
                }
            }
            lemma_first_none(spaced_after, k, to_after);
            assert(after[x.colon] == line[x.colon]);
            assert(plain_after(x.colon));
            assert forall|j: int| k <= j < x.colon implies !#[trigger] plain_after(j) by {
                assert(!plain(j));
                assert(after[j] == line[j]);
            }
            lemma_first_is(plain_after, k, to_after, x.colon);
        }
    }
}

/// Behind a value between quotation marks, the comment of the changed line is the
/// one of the line before, moved.
#[verifier::spinoff_prover]
proof fn lemma_comment_behind_quotes(line: Seq<char>, new: Seq<char>)
    requires
        reads_back(line, new),
        is_quoted(line.subrange(anchors(line).start, anchors(line).end)),
    ensures
        comment_behind(line_after(line, new), anchors(line).start) == Some(
            anchors(line).hash + line_after(line, new).len() - line.len(),
        ),
{
    lemma_anchors(line);
    lemma_places(line, new);
    let x = anchors(line);
    let (a, b) = scalar_span(line)->0;
    let d = new.len() - (b - a);
    let after = line_after(line, new);
    let h = x.hash + d;
    let s = line.subrange(x.start, x.end);
    assert(s[0] == line[x.start]);
    assert(s.last() == line[x.end - 1]);
    let close = a + new.len();
    assert(after[x.start] == line[x.start]);
    assert(after[close] == line[b]);
    assert(after[close + 1] == line[x.end]);
    assert(line[x.end] == '#' || is_blank(line[x.end]));
    assert forall|j: int| x.start + 1 <= j < close implies !is_mark(#[trigger] after[j])
        && after[j] != '\\' by {
        assert(after[j] == new[j - a]);
    }
    lemma_closing_is(after, line[x.start], x.start + 1, close);
    assert(quoted_end(after, x.start) == Some(close + 1));
    lemma_past_blanks_is(after, close + 1, h);
    assert(ends_value(after, close + 1)) by {
        if h == close + 1 {
            lemma_marked_moves(line, new, close + 1);
        }
    }
}

/// Behind the first character of a value without quotation marks, no `#` follows
/// a blank in the changed line up to the comment.
#[verifier::spinoff_prover]
proof fn lemma_hash_behind_bare(line: Seq<char>, new: Seq<char>)
    requires
        reads_back(line, new),
        !is_quoted(line.subrange(anchors(line).start, anchors(line).end)),
    ensures
        ({
            let x = anchors(line);
            let after = line_after(line, new);
            let h = x.hash + after.len() - line.len();
            let hash = hash_from(after, x.start + 1);
            &&& hash matches Some(i) ==> h <= i
            &&& x.end < x.hash ==> hash == Some(h)
        }),
{
    lemma_anchors(line);
    lemma_places(line, new);
    let x = anchors(line);
    let (a, b) = scalar_span(line)->0;
    let after = line_after(line, new);
    let h = x.hash + after.len() - line.len();
    let opens = |i: int| opens_comment(after, i);
    assert forall|j: int| x.start + 1 <= j < h implies !#[trigger] opens(j) by {
        if j < a + new.len() {
            assert(after[j] == new[j - a]);
            assert(after[j - 1] == new[j - 1 - a]);
            assert(!opens_comment(new, j - a));
        } else {
            assert(is_blank(after[j]));
        }
    }
    if x.end < x.hash {
        assert(is_blank(after[h - 1]));
        assert(opens(h));
        lemma_first_is(opens, x.start + 1, after.len() as int, h);
    } else {
        lemma_first_where(opens, x.start + 1, after.len() as int);
    }
}

/// Behind a value without quotation marks, the comment of the changed line is the
/// one of the line before, moved.
#[verifier::spinoff_prover]
proof fn lemma_comment_behind_bare(line: Seq<char>, new: Seq<char>)
    requires
        reads_back(line, new),
        !is_quoted(line.subrange(anchors(line).start, anchors(line).end)),
    ensures
        comment_behind(line_after(line, new), anchors(line).start) == Some(
            anchors(line).hash + line_after(line, new).len() - line.len(),
        ),
{
    lemma_anchors(line);
    lemma_places(line, new);
    let x = anchors(line);
    let after = line_after(line, new);
    let h = x.hash + after.len() - line.len();
    assert(after[x.start] == new[0]);
    lemma_hash_behind_bare(line, new);
    lemma_marked_moves(line, new, x.start);
    let marked = marked_hash_from(after, x.start);
    assert(marked matches Some(t) ==> h <= t) by {
        if marked_hash_from(line.skip(x.hash), 0) is Some {
            lemma_marked(line.skip(x.hash), 0);
        }
    }
    assert(earlier(hash_from(after, x.start + 1), marked) == Some(h));
}

/// The comment of the changed line is the one of the line before, moved.
proof fn lemma_comment_moves(line: Seq<char>, new: Seq<char>)
    requires
        reads_back(line, new),
    ensures
        ({
            let (a, b) = scalar_span(line)->0;
            let after = line_after(line, new);
            let h = comment_at(line)->0;
            let moved = h + new.len() - (b - a);
            comment_at(after) == Some(moved) && after.skip(moved) == line.skip(h)
        }),
{
    lemma_anchors(line);
    lemma_places(line, new);
    lemma_key_stays(line, new);
    let x = anchors(line);
    let after = line_after(line, new);
    assert forall|j: int| x.colon + 1 <= j < x.start implies is_blank(#[trigger] after[j]) by {
        assert(is_blank(line[j]));
    }
    lemma_past_blanks_is(after, x.colon + 1, x.start);
    if is_quoted(line.subrange(x.start, x.end)) {
        lemma_comment_behind_quotes(line, new);
    } else {
        lemma_comment_behind_bare(line, new);
    }
}

/// The changed line's value stands where the value of the line before stood.
#[verifier::spinoff_prover]
proof fn lemma_value_span_moves(line: Seq<char>, new: Seq<char>)
    requires
        reads_back(line, new),
    ensures
        ({
            let x = anchors(line);
            let (a, b) = scalar_span(line)->0;
            let after = line_after(line, new);
            let h = x.hash + after.len() - line.len();
            value_span(after, x.colon + 1, h) == Some((a, (a + new.len()) as int))
        }),
{
    lemma_anchors(line);
    lemma_places(line, new);
    let x = anchors(line);
    let (a, b) = scalar_span(line)->0;
    let d = new.len() - (b - a);
    let after = line_after(line, new);
    let h = x.hash + d;
    let quoted = between_quotes(line, a, b);
    let s = line.subrange(x.start, x.end);
    assert(s[0] == line[x.start]);
    assert(s.last() == line[x.end - 1]);
    let rest = after.subrange(x.colon + 1, h);
    let n = x.start - (x.colon + 1);
    assert forall|i: int| 0 <= i < n implies CharClass::Blank.holds(#[trigger] rest[i]) by {
        assert(rest[i] == after[x.colon + 1 + i]);
        assert(is_blank(line[x.colon + 1 + i]));
    }
    assert(rest[n] == after[x.start]);
    lemma_leading_is(rest, CharClass::Blank, n);
    let tail = after.subrange(x.start, h);
    let m = x.hash - x.end;
    assert forall|i: int| tail.len() - m <= i < tail.len() implies CharClass::Blank.holds(
        #[trigger] tail[i],
    ) by {
        assert(tail[i] == after[x.start + i]);
    }
    assert(!CharClass::Blank.holds(tail[tail.len() - 1 - m])) by {
        assert(tail[tail.len() - 1 - m] == after[x.end + d - 1]);
        if quoted {
            assert(after[x.end + d - 1] == line[x.end - 1]);
        } else {
            assert(after[x.end + d - 1] == new.last());
        }
    }
    lemma_trailing_is(tail, CharClass::Blank, m);
    let inner = after.subrange(x.start, x.end + d);
    assert(inner[0] == after[x.start]);
    if quoted {
        assert(inner.last() == after[x.end + d - 1]);
        assert(after[x.end + d - 1] == line[x.end - 1]);
        assert(is_quoted(inner));
    } else {
        assert(inner[0] == new[0]);
        assert(!is_quoted(inner));
    }
}

/// The value that was set is the value of the changed line.
proof fn lemma_value_moves(line: Seq<char>, new: Seq<char>)
    requires
        reads_back(line, new),
    ensures
        ({
            let (a, b) = scalar_span(line)->0;
            let after = line_after(line, new);
            scalar_span(after) == Some((a, (a + new.len()) as int))
        }),
{
    lemma_anchors(line);
    lemma_places(line, new);
    lemma_key_stays(line, new);
    lemma_comment_moves(line, new);
    lemma_value_span_moves(line, new);
}

/// A value that can be read back is the value of the changed line, and the line
/// carries exactly the markers that it carried.
pub proof fn a_set_value_stands_in_its_line(line: Seq<char>, new: Seq<char>)
    requires
        reads_back(line, new),
    ensures
        ({
            let (a, b) = scalar_span(line)->0;
            let after = line_after(line, new);
            &&& scalar_span(after) == Some((a, (a + new.len()) as int))
            &&& after.subrange(a, a + new.len()) == new
        }),
        forall|marker: Seq<char>| #[trigger]
            carries(line_after(line, new), marker) == carries(line, marker),
{
    lemma_scalar_span(line);
    lemma_value_moves(line, new);
    lemma_comment_moves(line, new);
    let (a, b) = scalar_span(line)->0;
    assert(line_after(line, new).subrange(a, a + new.len()) =~= new);
}

// ─────────────────────── laws on the parts of a line ───────────────────────

/// Nothing but spaces and tabs.
pub open spec fn only_blanks(s: Seq<char>) -> bool {
    forall|i: int| 0 <= i < s.len() ==> (#[trigger] s[i] == ' ' || s[i] == '\t')
}

/// The characters of a key that is written plainly: no blank, no colon, no `#` and no
/// quotation mark.
pub open spec fn plain_key(s: Seq<char>) -> bool {
    s.len() > 0 && forall|i: int|
        0 <= i < s.len() ==> (#[trigger] s[i] != ' ' && s[i] != '\t' && s[i] != ':' && s[i] != '#'
            && s[i] != '"' && s[i] != '\'')
}

/// A comment that carries a marker: a `#`, and the object that names the marker,
/// with the blanks of `gaps` between its parts.
pub open spec fn marker_comment(gaps: Seq<Seq<char>>, marker: Seq<char>, tail: Seq<char>) -> Seq<
    char,
> {
    let opened = seq!['#'] + gaps[0] + seq!['{'] + gaps[1];
    let named = "\"$breathe\""@ + gaps[2] + seq![':'] + gaps[3];
    let closed = seq!['"'] + marker + seq!['"'] + gaps[4] + seq!['}'] + tail;
    opened + named + closed
}

/// The parts of such a comment: blanks, a marker without a quotation mark in it, and
/// behind the object anything without one.
pub open spec fn fit_a_comment(gaps: Seq<Seq<char>>, marker: Seq<char>, tail: Seq<char>) -> bool {
    &&& gaps.len() == 5
    &&& forall|g: int| 0 <= g < 5 ==> only_blanks(#[trigger] gaps[g])
    &&& forall|i: int| 0 <= i < marker.len() ==> #[trigger] marker[i] != '"'
    &&& forall|i: int| 0 <= i < tail.len() ==> #[trigger] tail[i] != '"'
}

/// The name in a marker's comment.
spec fn name_in(gaps: Seq<Seq<char>>) -> int {
    (2 + gaps[0].len() + gaps[1].len()) as int
}

/// The quotation mark in front of the marker in its comment.
spec fn marker_in(gaps: Seq<Seq<char>>) -> int {
    (name_in(gaps) + 11 + gaps[2].len() + gaps[3].len()) as int
}

/// What stands at each place of a marker's comment.
proof fn lemma_comment_places(gaps: Seq<Seq<char>>, marker: Seq<char>, tail: Seq<char>)
    requires
        fit_a_comment(gaps, marker, tail),
    ensures
        ({
            let s = marker_comment(gaps, marker, tail);
            let n = name_in(gaps);
            let c = n + 10 + gaps[2].len();
            let p = marker_in(gaps);
            let e = p + 1 + marker.len();
            let z = e + 1 + gaps[4].len();
            &&& s.len() == z + 1 + tail.len()
            &&& s[0] == '#'
            &&& s[gaps[0].len() as int + 1] == '{'
            &&& forall|j: int| 0 < j < n ==> #[trigger] s[j] != '#' && s[j] != '"'
            &&& s.subrange(n, n + 10) == marker_name()
            &&& marker_name().len() == 10
            &&& forall|j: int| n + 10 <= j < c ==> (#[trigger] s[j] == ' ' || s[j] == '\t')
            &&& s[c] == ':'
            &&& forall|j: int| c < j < p ==> (#[trigger] s[j] == ' ' || s[j] == '\t')
            &&& s[p] == '"'
            &&& s.subrange(p + 1, e) == marker
            &&& forall|j: int| p < j < e ==> #[trigger] s[j] != '"'
            &&& s[e] == '"'
            &&& forall|j: int| e < j < z ==> (#[trigger] s[j] == ' ' || s[j] == '\t')
            &&& s[z] == '}'
            &&& forall|j: int| e < j < s.len() ==> #[trigger] s[j] != '"'
        }),
{
    reveal_strlit("\"$breathe\"");
    let opened = seq!['#'] + gaps[0] + seq!['{'] + gaps[1];
    let named = "\"$breathe\""@ + gaps[2] + seq![':'] + gaps[3];
    let closed = seq!['"'] + marker + seq!['"'] + gaps[4] + seq!['}'] + tail;
    let s = marker_comment(gaps, marker, tail);
    assert(only_blanks(gaps[0]) && only_blanks(gaps[1]) && only_blanks(gaps[2]) && only_blanks(
        gaps[3],
    ) && only_blanks(gaps[4]));
    let n = name_in(gaps);
    let c = n + 10 + gaps[2].len();
    let p = marker_in(gaps);
    let e = p + 1 + marker.len();
    let z = e + 1 + gaps[4].len();
    assert(opened.len() == n);
    assert(named.len() == p - n);
    assert(forall|j: int| 0 <= j < n ==> #[trigger] s[j] == opened[j]);
    assert(forall|j: int| n <= j < p ==> #[trigger] s[j] == named[j - n]);
    assert(forall|j: int| p <= j < s.len() ==> #[trigger] s[j] == closed[j - p]);
    assert forall|j: int| 0 < j < n implies #[trigger] s[j] != '#' && s[j] != '"' by {
        if j < 1 + gaps[0].len() {
            assert(opened[j] == gaps[0][j - 1]);
        } else if j > 1 + gaps[0].len() {
            assert(opened[j] == gaps[1][j - 2 - gaps[0].len()]);
        }
    }
    assert forall|j: int| n + 10 <= j < c implies (#[trigger] s[j] == ' ' || s[j] == '\t') by {
        assert(named[j - n] == gaps[2][j - n - 10]);
    }
    assert forall|j: int| c < j < p implies (#[trigger] s[j] == ' ' || s[j] == '\t') by {
        assert(named[j - n] == gaps[3][j - c - 1]);
    }
    assert(s.subrange(n, n + 10) =~= marker_name());
    assert(s.subrange(p + 1, e) =~= marker);
    assert forall|j: int| p < j < e implies #[trigger] s[j] != '"' by {
        assert(closed[j - p] == marker[j - p - 1]);
    }
    assert forall|j: int| e < j < z implies (#[trigger] s[j] == ' ' || s[j] == '\t') by {
        assert(closed[j - p] == gaps[4][j - e - 1]);
    }
    assert forall|j: int| e < j < s.len() implies #[trigger] s[j] != '"' by {
        if j > z {
            assert(closed[j - p] == tail[j - z - 1]);
        }
    }
}

/// A marker's comment carries its marker and no other, and is a comment by its
/// object.
proof fn lemma_marker_comment(gaps: Seq<Seq<char>>, marker: Seq<char>, tail: Seq<char>)
    requires
        fit_a_comment(gaps, marker, tail),
    ensures
        ({
            let s = marker_comment(gaps, marker, tail);
            &&& 0 < name_in(gaps) < s.len()
            &&& s[0] == '#'
            &&& hash_of_name(s, 0, name_in(gaps)) == Some(0int)
        }),
        forall|m: Seq<char>| #[trigger]
            marks(marker_comment(gaps, marker, tail), m) <==> m == marker,
{
    lemma_comment_places(gaps, marker, tail);
    let s = marker_comment(gaps, marker, tail);
    let n = name_in(gaps);
    let c = n + 10 + gaps[2].len();
    let p = marker_in(gaps);
    let e = p + 1 + marker.len();
    let z = e + 1 + gaps[4].len();
    let b = (1 + gaps[0].len()) as int;
    lemma_past_space_is(s, n + 10, c);
    lemma_past_space_is(s, c + 1, p);
    assert(names_at(s, n));
    lemma_last_place_is(s, '#', n, 0);
    lemma_last_place(s, '{', n);
    assert(last_place(s, '{', n) is Some);
    assert(last_place(s, '{', n)->0 > 0) by {
        if last_place(s, '{', n)->0 <= 0 {
            assert(s[b] != '{');
        }
    }
    lemma_last_place(s, '}', s.len() as int);
    assert(last_place(s, '}', s.len() as int) is Some);
    let last = last_place(s, '}', s.len() as int)->0;
    assert(last >= z) by {
        if last < z {
            assert(s[z] != '}');
        }
    }
    assert forall|m: Seq<char>| #[trigger] marks(s, m) <==> m == marker by {
        let q = |n: int| marks_at(s, m, n);
        lemma_first_where(q, 0, s.len() as int);
        let text = marker_text(m);
        reveal_strlit("\"");
        assert(text =~= seq!['"'] + m + seq!['"']);
        if m == marker {
            assert(s.subrange(p, p + text.len()) =~= text) by {
                assert(forall|j: int| 0 <= j < m.len() ==> s.subrange(p + 1, e)[j] == #[trigger] m[j]);
            }
            assert(q(n));
        }
        if marks(s, m) {
            let k = first_where(q, 0, s.len() as int)->0;
            assert(q(k));
            lemma_name_window(s, k);
            lemma_name_window(s, n);
            if k < n {
                assert(k != 0);
            } else if k == n + 9 {
                assert(s[k + 1] == '$');
                assert(n + 10 <= k + 1 <= c);
            } else if k == p {
                assert(s[k + 9] == '"');
                assert(k + 9 == e);
                lemma_past_space_is(s, e + 1, z);
                assert(name_colon(s, k) == z);
            } else if k == e {
                assert(s[k + 1] == '$');
                assert(k + 1 <= z);
            } else if k != n {
                assert(s[k] == '"');
                if n < k < n + 9 {
                    assert(!is_mark(s[k]));
                }
            }
            assert(k == n);
            assert(named_at(s, k) == p);
            let w = s.subrange(p, p + text.len());
            assert(w == text);
            assert(text.last() == '"');
            assert(w[text.len() - 1] == s[p + text.len() - 1]);
            assert(p + 1 + m.len() == e) by {
                if p + 1 + m.len() < e {
                    assert(s[p + 1 + m.len()] != '"');
                } else if p + 1 + m.len() > e {
                    assert(s[p + 1 + m.len()] != '"');
                }
            }
            assert(m =~= marker) by {
                assert forall|j: int| 0 <= j < m.len() implies m[j] == marker[j] by {
                    assert(text[j + 1] == m[j]);
                    assert(w[j + 1] == s[p + 1 + j]);
                    assert(s.subrange(p + 1, e)[j] == s[p + 1 + j]);
                }
            }
        }
    }
}

/// Behind characters that are no `#`, a marker's comment is where the comment starts.
proof fn lemma_comment_found(
    line: Seq<char>,
    from: int,
    h: int,
    gaps: Seq<Seq<char>>,
    marker: Seq<char>,
    tail: Seq<char>,
)
    requires
        fit_a_comment(gaps, marker, tail),
        0 <= from <= h <= line.len(),
        line.skip(h) == marker_comment(gaps, marker, tail),
        forall|j: int| from <= j < h ==> #[trigger] line[j] != '#',
    ensures
        marked_hash_from(line, from) == Some(h),
        hash_from(line, from) matches Some(x) ==> x >= h,
        h > from ==> (hash_from(line, from + 1) matches Some(x) ==> x >= h),
{
    lemma_marker_comment(gaps, marker, tail);
    let s = line.skip(h);
    let n = name_in(gaps);
    assert(line[h] == s[0]);
    lemma_hash_of_name_suffix(line, from, h, n + h);
    lemma_marked_by(line, from, n + h);
    lemma_first_where(|i: int| opens_comment(line, i), from, line.len() as int);
    lemma_first_where(|i: int| opens_comment(line, i), from + 1, line.len() as int);
}

/// Where a plain key ends.
proof fn lemma_plain_key(line: Seq<char>, indent: Seq<char>, key: Seq<char>, behind: Seq<char>)
    requires
        only_blanks(indent),
        plain_key(key),
        behind.len() > 0,
        behind[0] == ' ' || behind[0] == '\t',
        line == indent + key + seq![':'] + behind,
    ensures
        ({
            let k = indent.len() as int;
            let c = k + key.len();
            &&& past_blanks(line, 0) == k
            &&& (comment_from(line, k) matches Some(h) ==> h > c)
            &&& key_colon(line) == Some(c)
        }),
{
    let k = indent.len() as int;
    let c = k + key.len();
    assert(forall|j: int| 0 <= j < k ==> #[trigger] line[j] == indent[j]);
    assert(forall|j: int| k <= j < c ==> #[trigger] line[j] == key[j - k]);
    assert(line[c] == ':');
    assert(line[c + 1] == behind[0]);
    assert forall|j: int| 0 <= j < k implies is_blank(#[trigger] line[j]) by {
        assert(line[j] == indent[j]);
    }
    assert(line[k] == key[0]);
    lemma_past_blanks_is(line, 0, k);
    lemma_first_where(|i: int| opens_comment(line, i), k, line.len() as int);
    if marked_hash_from(line, k) is Some {
        lemma_marked(line, k);
    }
    match comment_from(line, k) {
        Some(h) => {
            assert(line[h] == '#');
            if h <= c {
                assert(h < c ==> line[h] == key[h - k]);
            }
        },
        None => {},
    }
    let to = match comment_from(line, k) {
        Some(h) => h,
        None => line.len() as int,
    };
    let p = |i: int| is_spaced_colon(line, i);
    assert(p(c));
    assert forall|j: int| k <= j < c implies !#[trigger] p(j) by {
        assert(line[j] == key[j - k]);
    }
    lemma_first_is(p, k, to, c);
}

/// The value of a line ends where its comment, or the blanks in front of it, start.
proof fn lemma_value_between(line: Seq<char>, from: int, a: int, b: int, h: int)
    requires
        0 <= from <= a < b <= h <= line.len(),
        forall|j: int| from <= j < a ==> (#[trigger] line[j] == ' ' || line[j] == '\t'),
        forall|j: int| b <= j < h ==> (#[trigger] line[j] == ' ' || line[j] == '\t'),
        !is_blank(line[a]),
        !is_blank(line[b - 1]),
    ensures
        value_span(line, from, h) == Some(
            if is_quoted(line.subrange(a, b)) {
                (a + 1, b - 1)
            } else {
                (a, b)
            },
        ),
{
    let rest = line.subrange(from, h);
    assert forall|i: int| 0 <= i < a - from implies CharClass::Blank.holds(#[trigger] rest[i]) by {
        assert(rest[i] == line[from + i]);
    }
    assert(rest[a - from] == line[a]);
    lemma_leading_is(rest, CharClass::Blank, a - from);
    let tail = line.subrange(a, h);
    assert forall|i: int| tail.len() - (h - b) <= i < tail.len() implies CharClass::Blank.holds(
        #[trigger] tail[i],
    ) by {
        assert(tail[i] == line[a + i]);
    }
    assert(tail[tail.len() - 1 - (h - b)] == line[b - 1]);
    lemma_trailing_is(tail, CharClass::Blank, h - b);
}

/// A line `key: value # {"$breathe": "marker"}`, with its blanks wherever they may
/// stand and with further text behind the object: the value is the one written, and
/// the line carries the marker that is written and no other.
pub proof fn a_marked_line_holds_its_value(
    indent: Seq<char>,
    key: Seq<char>,
    gap: Seq<char>,
    value: Seq<char>,
    pad: Seq<char>,
    gaps: Seq<Seq<char>>,
    marker: Seq<char>,
    tail: Seq<char>,
)
    requires
        only_blanks(indent),
        plain_key(key),
        only_blanks(gap) && gap.len() > 0,
        value.len() > 0,
        value[0] != ' ' && value[0] != '\t' && value[0] != '"' && value[0] != '\'',
        value.last() != ' ' && value.last() != '\t',
        forall|i: int| 0 <= i < value.len() ==> #[trigger] value[i] != '#',
        only_blanks(pad),
        fit_a_comment(gaps, marker, tail),
    ensures
        ({
            let front = indent + key + seq![':'] + gap;
            let line = front + value + pad + marker_comment(gaps, marker, tail);
            &&& scalar_span(line) == Some(
                (front.len() as int, (front.len() + value.len()) as int),
            )
            &&& line.subrange(front.len() as int, (front.len() + value.len()) as int) == value
            &&& forall|m: Seq<char>| #[trigger] carries(line, m) <==> m == marker
        }),
{
    let front = indent + key + seq![':'] + gap;
    let comment = marker_comment(gaps, marker, tail);
    let line = front + value + pad + comment;
    let k = indent.len() as int;
    let c = k + key.len();
    let a = front.len() as int;
    let b = a + value.len();
    let h = b + pad.len();
    let behind = gap + value + pad + comment;
    assert(line =~= indent + key + seq![':'] + behind);
    assert(behind[0] == gap[0]);
    lemma_plain_key(line, indent, key, behind);
    assert forall|j: int| c < j < a implies (#[trigger] line[j] == ' ' || line[j] == '\t') by {
        assert(line[j] == gap[j - c - 1]);
    }
    assert(forall|j: int| a <= j < b ==> #[trigger] line[j] == value[j - a]);
    assert forall|j: int| b <= j < h implies (#[trigger] line[j] == ' ' || line[j] == '\t') by {
        assert(line[j] == pad[j - b]);
    }
    assert forall|j: int| c < j < a implies is_blank(#[trigger] line[j]) by {}
    assert(line[a] == value[0]);
    assert(line[b - 1] == value.last());
    lemma_past_blanks_is(line, c + 1, a);
    assert(line.skip(h) =~= comment);
    assert forall|j: int| a <= j < h implies #[trigger] line[j] != '#' by {
        if j < b {
            assert(line[j] == value[j - a]);
        }
    }
    lemma_comment_found(line, a, h, gaps, marker, tail);
    assert(comment_behind(line, a) == Some(h));
    lemma_value_between(line, c + 1, a, b, h);
    assert(line.subrange(a, b) =~= value);
    lemma_marker_comment(gaps, marker, tail);
}

/// What stands at each place of a line with a quoted value.
proof fn lemma_quoted_places(
    indent: Seq<char>,
    key: Seq<char>,
    gap: Seq<char>,
    quote: char,
    value: Seq<char>,
    pad: Seq<char>,
    comment: Seq<char>,
)
    requires
        only_blanks(gap) && gap.len() > 0,
        only_blanks(pad),
    ensures
        ({
            let line = indent + key + seq![':'] + gap + seq![quote] + value + seq![quote] + pad
                + comment;
            let behind = gap + seq![quote] + value + seq![quote] + pad + comment;
            let c = (indent.len() + key.len()) as int;
            let a = c + 1 + gap.len();
            let b = a + value.len() + 2;
            let h = b + pad.len();
            &&& line == indent + key + seq![':'] + behind
            &&& behind.len() > 0
            &&& behind[0] == ' ' || behind[0] == '\t'
            &&& line.len() == h + comment.len()
            &&& line.skip(h) == comment
            &&& forall|j: int| c < j < a ==> (#[trigger] line[j] == ' ' || line[j] == '\t')
            &&& line[a] == quote
            &&& forall|j: int| a < j < b - 1 ==> #[trigger] line[j] == value[j - a - 1]
            &&& line[b - 1] == quote
            &&& forall|j: int| b <= j < h ==> (#[trigger] line[j] == ' ' || line[j] == '\t')
        }),
{
    let line = indent + key + seq![':'] + gap + seq![quote] + value + seq![quote] + pad + comment;
    let behind = gap + seq![quote] + value + seq![quote] + pad + comment;
    let c = (indent.len() + key.len()) as int;
    let a = c + 1 + gap.len();
    let b = a + value.len() + 2;
    let h = b + pad.len();
    assert(line =~= indent + key + seq![':'] + behind);
    assert(behind[0] == gap[0]);
    assert(line.skip(h) =~= comment);
    assert forall|j: int| c < j < a implies (#[trigger] line[j] == ' ' || line[j] == '\t') by {
        assert(line[j] == gap[j - c - 1]);
    }
    assert forall|j: int| b <= j < h implies (#[trigger] line[j] == ' ' || line[j] == '\t') by {
        assert(line[j] == pad[j - b]);
    }
}

/// Where a quoted value and the comment behind it start and end.
proof fn lemma_quoted_span(
    line: Seq<char>,
    c: int,
    a: int,
    b: int,
    h: int,
    quote: char,
    gaps: Seq<Seq<char>>,
    marker: Seq<char>,
    tail: Seq<char>,
)
    requires
        fit_a_comment(gaps, marker, tail),
        0 <= c < a < b - 1 < h < line.len(),
        line.skip(h) == marker_comment(gaps, marker, tail),
        line[h] == '#',
        quote == '"' || quote == '\'',
        line[a] == quote,
        line[b - 1] == quote,
        forall|j: int| c < j < a ==> (#[trigger] line[j] == ' ' || line[j] == '\t'),
        forall|j: int|
            a < j < b - 1 ==> (#[trigger] line[j] != '"' && line[j] != '\'' && line[j] != '\\'),
        forall|j: int| b <= j < h ==> (#[trigger] line[j] == ' ' || line[j] == '\t'),
    ensures
        comment_behind(line, a) == Some(h),
        value_span(line, c + 1, h) == Some((a + 1, b - 1)),
{
    lemma_closing_is(line, quote, a + 1, b - 1);
    lemma_past_blanks_is(line, b, h);
    lemma_comment_found(line, b, h, gaps, marker, tail);
    assert(quoted_end(line, a) == Some(b));
    assert(ends_value(line, b));
    lemma_value_between(line, c + 1, a, b, h);
    let inner = line.subrange(a, b);
    assert(inner[0] == quote);
    assert(inner.last() == quote);
}

/// A line with a quoted value, by what stands at its places.
proof fn lemma_quoted_line(
    line: Seq<char>,
    indent: Seq<char>,
    key: Seq<char>,
    behind: Seq<char>,
    a: int,
    b: int,
    h: int,
    quote: char,
    value: Seq<char>,
    gaps: Seq<Seq<char>>,
    marker: Seq<char>,
    tail: Seq<char>,
)
    requires
        only_blanks(indent),
        plain_key(key),
        line == indent + key + seq![':'] + behind,
        behind.len() > 0,
        behind[0] == ' ' || behind[0] == '\t',
        fit_a_comment(gaps, marker, tail),
        indent.len() + key.len() < a < b - 1 < h <= line.len(),
        b == a + value.len() + 2,
        line.skip(h) == marker_comment(gaps, marker, tail),
        quote == '"' || quote == '\'',
        line[a] == quote,
        line[b - 1] == quote,
        forall|j: int|
            indent.len() + key.len() < j < a ==> (#[trigger] line[j] == ' ' || line[j] == '\t'),
        forall|j: int| a < j < b - 1 ==> #[trigger] line[j] == value[j - a - 1],
        forall|i: int|
            0 <= i < value.len() ==> (#[trigger] value[i] != '"' && value[i] != '\'' && value[i]
                != '\\'),
        forall|j: int| b <= j < h ==> (#[trigger] line[j] == ' ' || line[j] == '\t'),
    ensures
        scalar_span(line) == Some((a + 1, b - 1)),
        line.subrange(a + 1, b - 1) == value,
        forall|m: Seq<char>| #[trigger] carries(line, m) <==> m == marker,
{
    let c = (indent.len() + key.len()) as int;
    lemma_plain_key(line, indent, key, behind);
    lemma_marker_comment(gaps, marker, tail);
    assert(line[h] == line.skip(h)[0]);
    lemma_past_blanks_is(line, c + 1, a);
    assert forall|j: int| a < j < b - 1 implies (#[trigger] line[j] != '"' && line[j] != '\''
        && line[j] != '\\') by {
        assert(line[j] == value[j - a - 1]);
    }
    lemma_quoted_span(line, c, a, b, h, quote, gaps, marker, tail);
    assert(line.subrange(a + 1, b - 1) =~= value);
    assert(comment_at(line) == Some(h));
}

/// A line whose value stands between quotation marks: the value is what stands
/// between them, a `#`, a colon or a blank in it or not, and the line carries the
/// marker that is written behind it and no other.
pub proof fn a_marked_line_holds_its_quoted_value(
    indent: Seq<char>,
    key: Seq<char>,
    gap: Seq<char>,
    quote: char,
    value: Seq<char>,
    pad: Seq<char>,
    gaps: Seq<Seq<char>>,
    marker: Seq<char>,
    tail: Seq<char>,
)
    requires
        only_blanks(indent),
        plain_key(key),
        only_blanks(gap) && gap.len() > 0,
        quote == '"' || quote == '\'',
        forall|i: int|
            0 <= i < value.len() ==> (#[trigger] value[i] != '"' && value[i] != '\'' && value[i]
                != '\\'),
        only_blanks(pad),
        fit_a_comment(gaps, marker, tail),
    ensures
        ({
            let front = indent + key + seq![':'] + gap + seq![quote];
            let line = front + value + seq![quote] + pad + marker_comment(gaps, marker, tail);
            &&& scalar_span(line) == Some(
                (front.len() as int, (front.len() + value.len()) as int),
            )
            &&& line.subrange(front.len() as int, (front.len() + value.len()) as int) == value
            &&& forall|m: Seq<char>| #[trigger] carries(line, m) <==> m == marker
        }),
{
    let front = indent + key + seq![':'] + gap + seq![quote];
    let comment = marker_comment(gaps, marker, tail);
    let line = front + value + seq![quote] + pad + comment;
    let a = front.len() - 1;
    let b = a + value.len() + 2;
    let h = b + pad.len();
    lemma_quoted_places(indent, key, gap, quote, value, pad, comment);
    let behind = gap + seq![quote] + value + seq![quote] + pad + comment;
    lemma_quoted_line(line, indent, key, behind, a, b, h, quote, value, gaps, marker, tail);
}

/// A line without a comment has no value to set and carries no marker.
pub proof fn a_line_without_a_hash_carries_nothing(line: Seq<char>, marker: Seq<char>)
    requires
        forall|i: int| 0 <= i < line.len() ==> #[trigger] line[i] != '#',
    ensures
        comment_at(line) is None,
        scalar_span(line) is None,
        !carries(line, marker),
{
    lemma_past_blanks(line, 0);
    match key_colon(line) {
        Some(c) => {
            lemma_key_colon(line);
            lemma_past_blanks(line, c + 1);
            if comment_behind(line, past_blanks(line, c + 1)) is Some {
                lemma_comment_behind(line, past_blanks(line, c + 1));
            }
        },
        None => {
            let k = past_blanks(line, 0);
            lemma_first_where(|i: int| opens_comment(line, i), k, line.len() as int);
            if marked_hash_from(line, k) is Some {
                lemma_marked(line, k);
            }
        },
    }
}

} // verus!
