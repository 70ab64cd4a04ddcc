//! JSON: values, the look-up of a value by a pointer, and compact text.

use vstd::prelude::*;

use crate::request::hex_char;
use crate::text::{
    chars_of, decimal, decimal_text, lemma_texts_push, parse_u64, parsed_u64, pieces, same_text,
    split_pieces, text_between, texts,
};

verus! {

// ─────────────────────── outside functions ───────────────────────

/// A character as it stands in a JSON string.
pub open spec fn json_char(c: char) -> Seq<char> {
    let n = c as int;
    if c == '"' || c == '\\' {
        seq!['\\', c]
    } else if n >= 0x20 {
        seq![c]
    } else if n == 0x08 {
        seq!['\\', 'b']
    } else if n == 0x09 {
        seq!['\\', 't']
    } else if n == 0x0a {
        seq!['\\', 'n']
    } else if n == 0x0c {
        seq!['\\', 'f']
    } else if n == 0x0d {
        seq!['\\', 'r']
    } else {
        seq!['\\', 'u', '0', '0', hex_char(n / 16), hex_char(n % 16)]
    }
}

/// The characters of a text as they stand in a JSON string.
pub open spec fn json_chars(s: Seq<char>) -> Seq<char>
    decreases s.len(),
{
    if s.len() == 0 {
        Seq::empty()
    } else {
        json_chars(s.drop_last()) + json_char(s.last())
    }
}

/// The text `s` as a JSON string.
pub open spec fn json_quoted(s: Seq<char>) -> Seq<char> {
    seq!['"'] + json_chars(s) + seq!['"']
}

/// `serde_json::to_string` of a text prints the JSON string of it: between
/// double quotation marks, each character as it is, but for the quotation mark
/// and the backslash, which get a backslash in front, and the control characters
/// below the space, which are printed as their short escapes or as `\u00` and two
/// digits. Printing a text into memory never fails.
#[verifier::external_body]
pub(crate) fn quote_json(s: &str) -> (r: String)
    ensures
        r@ == json_quoted(s@),
{
    serde_json::to_string(s).unwrap_or_default()
}

// ─────────────────────── joined text ───────────────────────

/// A number or `null`.
pub open spec fn optional_number(o: Option<u64>) -> Seq<char> {
    match o {
        Some(n) => decimal(n as nat),
        None => "null"@,
    }
}

/// A number or `null`.
pub fn optional_number_text(o: Option<u64>) -> (r: String)
    ensures
        r@ == optional_number(o),
{
    match o {
        Some(n) => decimal_text(n),
        None => "null".to_owned(),
    }
}

/// The items with `sep` between each two.
pub open spec fn joined(items: Seq<Seq<char>>, sep: Seq<char>) -> Seq<char>
    decreases items.len(),
{
    if items.len() == 0 {
        Seq::empty()
    } else if items.len() == 1 {
        items[0]
    } else {
        joined(items.drop_last(), sep) + sep + items.last()
    }
}

/// The items of a list of texts with `sep` between each two.
pub fn join_texts(items: &Vec<String>, sep: &str) -> (r: String)
    ensures
        r@ == joined(texts(items@), sep@),
{
    let mut r = String::new();
    let mut i: usize = 0;
    let ghost all = texts(items@);
    assert(all.take(0) =~= Seq::<Seq<char>>::empty());
    while i < items.len()
        invariant
            i <= items.len(),
            all == texts(items@),
            r@ == joined(all.take(i as int), sep@),
        decreases items.len() - i,
    {
        assert(all[i as int] == items@[i as int]@);
        assert(all.take(i + 1).drop_last() =~= all.take(i as int));
        assert(all.take(i + 1).last() == all[i as int]);
        if i > 0 {
            r.append(sep);
            r.append(items[i].as_str());
        } else {
            r.append(items[i].as_str());
            assert(r@ =~= all[0]);
            assert(all.take(1)[0] == all[0]);
        }
        i = i + 1;
    }
    assert(all.take(items.len() as int) =~= all);
    r
}

// ─────────────────────── values ───────────────────────

/// A JSON value. A number is kept as its text, an object as its members in order.
#[derive(Debug, PartialEq, Eq)]
pub enum Json {
    /// `null`.
    Null,
    /// `true` or `false`.
    Bool(bool),
    /// A number, as it is printed.
    Number(String),
    /// A string.
    Text(String),
    /// An array.
    Array(Vec<Json>),
    /// An object.
    Object(Vec<(String, Json)>),
}

/// A JSON value with its texts as characters.
pub enum JsonView {
    /// `null`.
    Null,
    /// `true` or `false`.
    Bool(bool),
    /// A number, as it is printed.
    Number(Seq<char>),
    /// A string.
    Text(Seq<char>),
    /// An array.
    Array(Seq<JsonView>),
    /// An object.
    Object(Seq<(Seq<char>, JsonView)>),
}

/// The view of a JSON value.
pub open spec fn json_view(j: Json) -> JsonView
    decreases j,
{
    match j {
        Json::Null => JsonView::Null,
        Json::Bool(b) => JsonView::Bool(b),
        Json::Number(n) => JsonView::Number(n@),
        Json::Text(s) => JsonView::Text(s@),
        Json::Array(v) => JsonView::Array(items_view(v@)),
        Json::Object(m) => JsonView::Object(members_view(m@)),
    }
}

/// The views of a sequence of JSON values.
pub open spec fn items_view(v: Seq<Json>) -> Seq<JsonView>
    decreases v,
{
    if v.len() == 0 {
        Seq::empty()
    } else {
        items_view(v.drop_last()).push(json_view(v.last()))
    }
}

/// The views of a sequence of members.
pub open spec fn members_view(m: Seq<(String, Json)>) -> Seq<(Seq<char>, JsonView)>
    decreases m,
{
    if m.len() == 0 {
        Seq::empty()
    } else {
        members_view(m.drop_last()).push((m.last().0@, json_view(m.last().1)))
    }
}

impl View for Json {
    type V = JsonView;

    open spec fn view(&self) -> JsonView {
        json_view(*self)
    }
}

/// The views of the items are the items' views.
pub proof fn lemma_items_view(v: Seq<Json>)
    ensures
        items_view(v).len() == v.len(),
        forall|i: int| 0 <= i < v.len() ==> #[trigger] items_view(v)[i] == json_view(v[i]),
    decreases v.len(),
{
    if v.len() > 0 {
        lemma_items_view(v.drop_last());
    }
}

/// The views of the members are the members' views.
pub proof fn lemma_members_view(m: Seq<(String, Json)>)
    ensures
        members_view(m).len() == m.len(),
        forall|i: int|
            0 <= i < m.len() ==> #[trigger] members_view(m)[i] == (m[i].0@, json_view(m[i].1)),
    decreases m.len(),
{
    if m.len() > 0 {
        lemma_members_view(m.drop_last());
    }
}

/// The value of the first member with the key.
pub open spec fn member_of(m: Seq<(Seq<char>, JsonView)>, key: Seq<char>) -> Option<JsonView>
    decreases m.len(),
{
    if m.len() == 0 {
        None
    } else if m[0].0 == key {
        Some(m[0].1)
    } else {
        member_of(m.drop_first(), key)
    }
}

impl JsonView {
    /// The member of an object with the key.
    pub open spec fn member(self, key: Seq<char>) -> Option<JsonView> {
        match self {
            JsonView::Object(m) => member_of(m, key),
            _ => None,
        }
    }

    /// The characters of a string.
    pub open spec fn text(self) -> Option<Seq<char>> {
        match self {
            JsonView::Text(s) => Some(s),
            _ => None,
        }
    }

    /// The items of an array.
    pub open spec fn items(self) -> Option<Seq<JsonView>> {
        match self {
            JsonView::Array(v) => Some(v),
            _ => None,
        }
    }

    /// The value of a number that is a natural one.
    pub open spec fn natural(self) -> Option<u64> {
        match self {
            JsonView::Number(n) => match parsed_u64(n) {
                Ok(v) => Some(v),
                Err(_) => None,
            },
            _ => None,
        }
    }
}

/// The view of an optional reference to a value.
pub open spec fn seen(o: Option<&Json>) -> Option<JsonView> {
    match o {
        Some(j) => Some(j@),
        None => None,
    }
}

/// The characters of an optional text.
pub open spec fn seen_text(o: Option<&str>) -> Option<Seq<char>> {
    match o {
        Some(s) => Some(s@),
        None => None,
    }
}

// ─────────────────────── pointers ───────────────────────

/// `s` with each `~` in front of `mark` replaced, together with it, by `c`.
pub open spec fn untilded(s: Seq<char>, mark: char, c: char) -> Seq<char>
    decreases s.len(),
{
    if s.len() == 0 {
        s
    } else if s.len() >= 2 && s[0] == '~' && s[1] == mark {
        seq![c] + untilded(s.skip(2), mark, c)
    } else {
        seq![s[0]] + untilded(s.skip(1), mark, c)
    }
}

/// The key that a pointer's token stands for: `~1` is a slash, `~0` a tilde.
pub open spec fn token_key(token: Seq<char>) -> Seq<char> {
    untilded(untilded(token, '1', '/'), '0', '~')
}

/// The place in an array that a pointer's token stands for.
pub open spec fn token_index(key: Seq<char>) -> Option<u64> {
    if key.len() > 0 && (key[0] == '+' || (key[0] == '0' && key.len() != 1)) {
        None
    } else {
        match parsed_u64(key) {
            Ok(n) => Some(n),
            Err(_) => None,
        }
    }
}

/// The value behind one token of a pointer.
pub open spec fn token_step(j: JsonView, token: Seq<char>) -> Option<JsonView> {
    let key = token_key(token);
    match j {
        JsonView::Object(m) => member_of(m, key),
        JsonView::Array(v) => match token_index(key) {
            Some(i) => if i < v.len() {
                Some(v[i as int])
            } else {
                None
            },
            None => None,
        },
        _ => None,
    }
}

/// The value behind the tokens of a pointer.
pub open spec fn walk(j: JsonView, tokens: Seq<Seq<char>>) -> Option<JsonView>
    decreases tokens.len(),
{
    if tokens.len() == 0 {
        Some(j)
    } else {
        match token_step(j, tokens[0]) {
            Some(next) => walk(next, tokens.drop_first()),
            None => None,
        }
    }
}

/// The value that a pointer points to: the empty pointer points to the whole
/// value, any other starts with a slash.
pub open spec fn pointed(j: JsonView, path: Seq<char>) -> Option<JsonView> {
    if path.len() == 0 {
        Some(j)
    } else if path[0] != '/' {
        None
    } else {
        walk(j, pieces(path.skip(1), '/'))
    }
}

/// The text holds neither a slash nor a tilde, so a pointer's token stands for
/// it as it is.
pub open spec fn plain_key(key: Seq<char>) -> bool {
    forall|i: int| 0 <= i < key.len() ==> (#[trigger] key[i]) != '/' && key[i] != '~'
}

/// A text that stands for itself in a pointer is left as it is.
pub proof fn lemma_untilded_plain(s: Seq<char>, mark: char, c: char)
    requires
        plain_key(s),
    ensures
        untilded(s, mark, c) == s,
    decreases s.len(),
{
    if s.len() > 0 {
        let rest = s.skip(1);
        assert forall|i: int| 0 <= i < rest.len() implies (#[trigger] rest[i]) != '/' && rest[i]
            != '~' by {
            assert(rest[i] == s[i + 1]);
        }
        lemma_untilded_plain(rest, mark, c);
        assert(s[0] != '~');
        assert(seq![s[0]] + rest =~= s);
    }
}

/// A text without the character is one piece.
pub proof fn lemma_pieces_last(a: Seq<char>, c: char)
    requires
        forall|i: int| 0 <= i < a.len() ==> (#[trigger] a[i]) != c,
    ensures
        pieces(a, c) == seq![a],
{
    crate::text::lemma_index_or_end(a, c);
    if crate::text::index_or_end(a, c) < a.len() {
        assert(a[crate::text::index_or_end(a, c) as int] != c);
    }
}

/// What stands before the first place of the character is the first piece.
pub proof fn lemma_pieces_first(a: Seq<char>, rest: Seq<char>, c: char)
    requires
        forall|i: int| 0 <= i < a.len() ==> (#[trigger] a[i]) != c,
    ensures
        pieces(a + seq![c] + rest, c) == seq![a] + pieces(rest, c),
{
    let s = a + seq![c] + rest;
    crate::text::lemma_index_or_end(s, c);
    let n = crate::text::index_or_end(s, c) as int;
    assert(s[a.len() as int] == c);
    if n < a.len() {
        assert(s[n] == a[n]);
    } else if n > a.len() {
        assert(s[a.len() as int] != c);
    }
    assert(s.take(a.len() as int) =~= a);
    assert(s.skip(a.len() as int + 1) =~= rest);
}

/// A pointer that starts with a plain key points, into an object, where its rest
/// points from the member of that key.
pub proof fn lemma_point_into(j: JsonView, key: Seq<char>, rest: Seq<char>)
    requires
        j is Object,
        plain_key(key),
        rest.len() == 0 || rest[0] == '/',
    ensures
        pointed(j, "/"@ + key + rest) == match j.member(key) {
            Some(next) => pointed(next, rest),
            None => None,
        },
{
    reveal_strlit("/");
    let path = "/"@ + key + rest;
    lemma_untilded_plain(key, '1', '/');
    lemma_untilded_plain(key, '0', '~');
    assert(token_key(key) == key);
    assert(path.skip(1) =~= key + rest);
    if rest.len() == 0 {
        assert(key + rest =~= key);
        lemma_pieces_last(key, '/');
        let tokens = seq![key];
        assert(tokens.drop_first() =~= Seq::<Seq<char>>::empty());
        reveal_with_fuel(walk, 2);
    } else {
        let r = rest.skip(1);
        assert(key + rest =~= key + seq!['/'] + r);
        lemma_pieces_first(key, r, '/');
        let tokens = seq![key] + pieces(r, '/');
        assert(tokens[0] == key);
        assert(tokens.drop_first() =~= pieces(r, '/'));
    }
}

fn untilde(v: &Vec<char>, mark: char, c: char) -> (r: Vec<char>)
    ensures
        r@ == untilded(v@, mark, c),
{
    let mut r: Vec<char> = Vec::new();
    let mut i: usize = 0;
    assert(v@.skip(0) =~= v@);
    assert(r@ + untilded(v@, mark, c) =~= untilded(v@, mark, c));
    while i < v.len()
        invariant
            i <= v.len(),
            untilded(v@, mark, c) == r@ + untilded(v@.skip(i as int), mark, c),
        decreases v.len() - i,
    {
        let ghost rest = v@.skip(i as int);
        let ghost before = r@;
        if i + 1 < v.len() && v[i] == '~' && v[i + 1] == mark {
            r.push(c);
            assert(rest.skip(2) =~= v@.skip(i + 2));
            assert(r@ + untilded(v@.skip(i + 2), mark, c) =~= before + (seq![c] + untilded(
                v@.skip(i + 2),
                mark,
                c,
            )));
            i = i + 2;
        } else {
            r.push(v[i]);
            assert(rest.skip(1) =~= v@.skip(i + 1));
            assert(r@ + untilded(v@.skip(i + 1), mark, c) =~= before + (seq![rest[0]] + untilded(
                v@.skip(i + 1),
                mark,
                c,
            )));
            i = i + 1;
        }
    }
    assert(v@.skip(v.len() as int) =~= Seq::<char>::empty());
    assert(r@ + Seq::<char>::empty() =~= r@);
    r
}

fn key_of_token(token: &str) -> (r: String)
    ensures
        r@ == token_key(token@),
{
    let v = chars_of(token);
    let a = untilde(&v, '1', '/');
    let b = untilde(&a, '0', '~');
    assert(b@.subrange(0, b.len() as int) =~= b@);
    text_between(&b, 0, b.len())
}

fn index_of_token(key: &str) -> (r: Option<u64>)
    ensures
        r == token_index(key@),
{
    let v = chars_of(key);
    if v.len() > 0 && (v[0] == '+' || (v[0] == '0' && v.len() != 1)) {
        return None;
    }
    match parse_u64(key) {
        Ok(n) => Some(n),
        Err(_) => None,
    }
}

impl Json {
    /// The member of an object with the key.
    #[must_use]
    pub fn get(&self, key: &str) -> (r: Option<&Json>)
        ensures
            seen(r) == self@.member(key@),
    {
        match self {
            Json::Object(m) => {
                let mut i: usize = 0;
                let ghost all = members_view(m@);
                proof {
                    lemma_members_view(m@);
                    assert(all.skip(0) =~= all);
                }
                while i < m.len()
                    invariant
                        i <= m.len(),
                        self@ == JsonView::Object(all),
                        all == members_view(m@),
                        all.len() == m.len(),
                        forall|k: int|
                            0 <= k < m.len() ==> #[trigger] all[k] == (m@[k].0@, json_view(m@[k].1)),
                        member_of(all, key@) == member_of(all.skip(i as int), key@),
                    decreases m.len() - i,
                {
                    assert(all.skip(i as int)[0] == all[i as int]);
                    assert(all.skip(i as int).drop_first() =~= all.skip(i + 1));
                    if same_text(m[i].0.as_str(), key) {
                        return Some(&m[i].1);
                    }
                    i = i + 1;
                }
                None
            },
            _ => None,
        }
    }

    fn step(&self, token: &str) -> (r: Option<&Json>)
        ensures
            seen(r) == token_step(self@, token@),
    {
        let key = key_of_token(token);
        match self {
            Json::Object(_) => self.get(key.as_str()),
            Json::Array(v) => {
                proof {
                    lemma_items_view(v@);
                }
                match index_of_token(key.as_str()) {
                    Some(i) => {
                        if i < v.len() as u64 {
                            Some(&v[i as usize])
                        } else {
                            None
                        }
                    },
                    None => None,
                }
            },
            _ => None,
        }
    }

    /// The value that a pointer points to.
    #[must_use]
    pub fn pointer(&self, path: &str) -> (r: Option<&Json>)
        ensures
            seen(r) == pointed(self@, path@),
    {
        let v = chars_of(path);
        if v.len() == 0 {
            return Some(self);
        }
        if v[0] != '/' {
            return None;
        }
        assert(v@.subrange(1, v.len() as int) =~= path@.skip(1));
        let rest = text_between(&v, 1, v.len());
        let tokens = split_pieces(rest.as_str(), '/');
        let ghost all = texts(tokens@);
        let mut cur: &Json = self;
        let mut i: usize = 0;
        assert(all.skip(0) =~= all);
        while i < tokens.len()
            invariant
                i <= tokens.len(),
                all == texts(tokens@),
                pointed(self@, path@) == walk(self@, all),
                walk(self@, all) == walk(cur@, all.skip(i as int)),
            decreases tokens.len() - i,
        {
            assert(all.skip(i as int)[0] == all[i as int]);
            assert(all[i as int] == tokens@[i as int]@);
            assert(all.skip(i as int).drop_first() =~= all.skip(i + 1));
            match cur.step(tokens[i].as_str()) {
                Some(next) => {
                    cur = next;
                },
                None => {
                    return None;
                },
            }
            i = i + 1;
        }
        Some(cur)
    }

    /// The text of a string.
    #[must_use]
    pub fn as_str(&self) -> (r: Option<&str>)
        ensures
            seen_text(r) == self@.text(),
    {
        match self {
            Json::Text(s) => Some(s.as_str()),
            _ => None,
        }
    }

    /// The items of an array.
    #[must_use]
    pub fn as_array(&self) -> (r: Option<&Vec<Json>>)
        ensures
            match r {
                Some(v) => self@.items() == Some(items_view(v@)),
                None => self@.items() is None,
            },
    {
        match self {
            Json::Array(v) => Some(v),
            _ => None,
        }
    }

    /// The members of an object.
    #[must_use]
    pub fn as_object(&self) -> (r: Option<&Vec<(String, Json)>>)
        ensures
            match r {
                Some(m) => self@ == JsonView::Object(members_view(m@)),
                None => !(self@ is Object),
            },
    {
        match self {
            Json::Object(m) => Some(m),
            _ => None,
        }
    }

    /// The value of a number that is a natural one.
    #[must_use]
    pub fn as_u64(&self) -> (r: Option<u64>)
        ensures
            r == self@.natural(),
    {
        match self {
            Json::Number(n) => match parse_u64(n.as_str()) {
                Ok(v) => Some(v),
                Err(_) => None,
            },
            _ => None,
        }
    }

    /// The text of the string that a pointer points to.
    #[must_use]
    pub fn pointer_str(&self, path: &str) -> (r: Option<&str>)
        ensures
            seen_text(r) == pointed_text(self@, path@),
    {
        match self.pointer(path) {
            Some(j) => j.as_str(),
            None => None,
        }
    }

    /// The text of the member that is a string.
    #[must_use]
    pub fn get_str(&self, key: &str) -> (r: Option<&str>)
        ensures
            seen_text(r) == member_text(self@, key@),
    {
        match self.get(key) {
            Some(j) => j.as_str(),
            None => None,
        }
    }
}

/// The characters of the string that a pointer points to.
pub open spec fn pointed_text(j: JsonView, path: Seq<char>) -> Option<Seq<char>> {
    match pointed(j, path) {
        Some(v) => v.text(),
        None => None,
    }
}

/// The characters of the member that is a string.
pub open spec fn member_text(j: JsonView, key: Seq<char>) -> Option<Seq<char>> {
    match j.member(key) {
        Some(v) => v.text(),
        None => None,
    }
}

/// The first item whose member `name` is the text.
pub open spec fn named_item(items: Seq<JsonView>, name: Seq<char>) -> Option<JsonView>
    decreases items.len(),
{
    if items.len() == 0 {
        None
    } else if member_text(items[0], "name"@) == Some(name) {
        Some(items[0])
    } else {
        named_item(items.drop_first(), name)
    }
}

/// The item that a name asks for: the first that has it, or without a name the
/// first of all.
pub open spec fn wanted_item(items: Seq<JsonView>, want: Option<Seq<char>>) -> Option<JsonView> {
    match want {
        Some(name) => named_item(items, name),
        None => if items.len() > 0 {
            Some(items[0])
        } else {
            None
        },
    }
}

/// The characters of an optional text.
pub open spec fn wanted(o: Option<String>) -> Option<Seq<char>> {
    match o {
        Some(s) => Some(s@),
        None => None,
    }
}

/// Whether a member of the value is the text.
pub fn member_is(j: &Json, key: &str, text: &str) -> (r: bool)
    ensures
        r == (member_text(j@, key@) == Some(text@)),
{
    match j.get_str(key) {
        Some(s) => same_text(s, text),
        None => false,
    }
}

/// The item that a name asks for.
pub fn find_wanted<'a>(items: &'a Vec<Json>, want: &Option<String>) -> (r: Option<&'a Json>)
    ensures
        seen(r) == wanted_item(items_view(items@), wanted(*want)),
{
    proof {
        lemma_items_view(items@);
    }
    match want {
        None => {
            if items.len() > 0 {
                Some(&items[0])
            } else {
                None
            }
        },
        Some(name) => {
            let ghost all = items_view(items@);
            let mut i: usize = 0;
            assert(all.skip(0) =~= all);
            while i < items.len()
                invariant
                    i <= items.len(),
                    all == items_view(items@),
                    all.len() == items.len(),
                    forall|k: int| 0 <= k < items.len() ==> #[trigger] all[k] == json_view(items@[k]),
                    wanted(*want) == Some(name@),
                    named_item(all, name@) == named_item(all.skip(i as int), name@),
                decreases items.len() - i,
            {
                assert(all.skip(i as int)[0] == all[i as int]);
                assert(all.skip(i as int).drop_first() =~= all.skip(i + 1));
                if member_is(&items[i], "name", name.as_str()) {
                    return Some(&items[i]);
                }
                i = i + 1;
            }
            None
        },
    }
}

// ─────────────────────── compact text ───────────────────────

/// The compact text of a value.
pub open spec fn compact(j: JsonView) -> Seq<char>
    decreases j,
{
    match j {
        JsonView::Null => "null"@,
        JsonView::Bool(b) => if b {
            "true"@
        } else {
            "false"@
        },
        JsonView::Number(n) => n,
        JsonView::Text(s) => json_quoted(s),
        JsonView::Array(v) => "["@ + joined(compact_items(v), ","@) + "]"@,
        JsonView::Object(m) => "{"@ + joined(compact_members(m), ","@) + "}"@,
    }
}

/// The compact texts of a sequence of values.
pub open spec fn compact_items(v: Seq<JsonView>) -> Seq<Seq<char>>
    decreases v,
{
    if v.len() == 0 {
        Seq::empty()
    } else {
        compact_items(v.drop_last()).push(compact(v.last()))
    }
}

/// The compact texts of a sequence of members.
pub open spec fn compact_members(m: Seq<(Seq<char>, JsonView)>) -> Seq<Seq<char>>
    decreases m,
{
    if m.len() == 0 {
        Seq::empty()
    } else {
        compact_members(m.drop_last()).push(json_quoted(m.last().0) + ":"@ + compact(m.last().1))
    }
}

impl Json {
    /// The compact text of the value.
    #[must_use]
    pub fn render(&self) -> (r: String)
        ensures
            r@ == compact(self@),
        decreases self,
    {
        match self {
            Json::Null => "null".to_owned(),
            Json::Bool(b) => {
                if *b {
                    "true".to_owned()
                } else {
                    "false".to_owned()
                }
            },
            Json::Number(n) => n.clone(),
            Json::Text(s) => quote_json(s.as_str()),
            Json::Array(v) => {
                let mut s = "[".to_owned();
                s.append(render_items(v).as_str());
                s.append("]");
                s
            },
            Json::Object(m) => {
                let mut s = "{".to_owned();
                s.append(render_members(m).as_str());
                s.append("}");
                s
            },
        }
    }
}

fn render_items(v: &Vec<Json>) -> (r: String)
    ensures
        r@ == joined(compact_items(items_view(v@)), ","@),
    decreases v@,
{
    let mut parts: Vec<String> = Vec::new();
    let mut i: usize = 0;
    let ghost all = items_view(v@);
    proof {
        lemma_items_view(v@);
        assert(texts(parts@) =~= compact_items(all.take(0)));
    }
    while i < v.len()
        invariant
            i <= v.len(),
            all == items_view(v@),
            all.len() == v.len(),
            forall|k: int| 0 <= k < v.len() ==> #[trigger] all[k] == json_view(v@[k]),
            texts(parts@) == compact_items(all.take(i as int)),
        decreases v.len() - i,
    {
        broadcast use lemma_texts_push;

        parts.push(v[i].render());
        assert(all.take(i + 1).drop_last() =~= all.take(i as int));
        assert(all.take(i + 1).last() == all[i as int]);
        i = i + 1;
    }
    assert(all.take(v.len() as int) =~= all);
    join_texts(&parts, ",")
}

fn render_members(m: &Vec<(String, Json)>) -> (r: String)
    ensures
        r@ == joined(compact_members(members_view(m@)), ","@),
    decreases m@,
{
    let mut parts: Vec<String> = Vec::new();
    let mut i: usize = 0;
    let ghost all = members_view(m@);
    proof {
        lemma_members_view(m@);
        assert(texts(parts@) =~= compact_members(all.take(0)));
    }
    while i < m.len()
        invariant
            i <= m.len(),
            all == members_view(m@),
            all.len() == m.len(),
            forall|k: int|
                0 <= k < m.len() ==> #[trigger] all[k] == (m@[k].0@, json_view(m@[k].1)),
            texts(parts@) == compact_members(all.take(i as int)),
        decreases m.len() - i,
    {
        broadcast use lemma_texts_push;

        let mut part = quote_json(m[i].0.as_str());
        part.append(":");
        part.append(m[i].1.render().as_str());
        parts.push(part);
        assert(all.take(i + 1).drop_last() =~= all.take(i as int));
        assert(all.take(i + 1).last() == all[i as int]);
        i = i + 1;
    }
    assert(all.take(m.len() as int) =~= all);
    join_texts(&parts, ",")
}

// ─────────────────────── building values ───────────────────────

/// An object with one member.
pub open spec fn object1(k: Seq<char>, v: JsonView) -> JsonView {
    JsonView::Object(seq![(k, v)])
}

/// An object with two members.
pub open spec fn object2(k: Seq<char>, v: JsonView, k2: Seq<char>, v2: JsonView) -> JsonView {
    JsonView::Object(seq![(k, v), (k2, v2)])
}

/// A JSON string.
pub fn json_text(s: &str) -> (r: Json)
    ensures
        r@ == JsonView::Text(s@),
{
    Json::Text(s.to_owned())
}

/// A JSON number.
pub fn json_number(n: u64) -> (r: Json)
    ensures
        r@ == JsonView::Number(decimal(n as nat)),
{
    Json::Number(decimal_text(n))
}

/// An object with one member.
pub fn json_object1(k: &str, v: Json) -> (r: Json)
    ensures
        r@ == JsonView::Object(seq![(k@, v@)]),
{
    let mut m: Vec<(String, Json)> = Vec::new();
    m.push((k.to_owned(), v));
    proof {
        lemma_members_view(m@);
        assert(members_view(m@) =~= seq![(k@, v@)]);
    }
    Json::Object(m)
}

/// An object with two members.
pub fn json_object2(k: &str, v: Json, k2: &str, v2: Json) -> (r: Json)
    ensures
        r@ == JsonView::Object(seq![(k@, v@), (k2@, v2@)]),
{
    let mut m: Vec<(String, Json)> = Vec::new();
    m.push((k.to_owned(), v));
    m.push((k2.to_owned(), v2));
    proof {
        lemma_members_view(m@);
        assert(members_view(m@) =~= seq![(k@, v@), (k2@, v2@)]);
    }
    Json::Object(m)
}

/// An object with four members.
pub fn json_object4(
    k: &str,
    v: Json,
    k2: &str,
    v2: Json,
    k3: &str,
    v3: Json,
    k4: &str,
    v4: Json,
) -> (r: Json)
    ensures
        r@ == JsonView::Object(seq![(k@, v@), (k2@, v2@), (k3@, v3@), (k4@, v4@)]),
{
    let mut m: Vec<(String, Json)> = Vec::new();
    m.push((k.to_owned(), v));
    m.push((k2.to_owned(), v2));
    m.push((k3.to_owned(), v3));
    m.push((k4.to_owned(), v4));
    proof {
        lemma_members_view(m@);
        assert(members_view(m@) =~= seq![(k@, v@), (k2@, v2@), (k3@, v3@), (k4@, v4@)]);
    }
    Json::Object(m)
}

/// The members with one more behind them.
pub fn with_member(m: Vec<(String, Json)>, k: &str, v: Json) -> (r: Vec<(String, Json)>)
    ensures
        members_view(r@) == members_view(m@).push((k@, v@)),
{
    let mut r = m;
    r.push((k.to_owned(), v));
    assert(r@.drop_last() =~= m@);
    r
}

/// The items with one more behind them.
pub fn with_item(m: Vec<Json>, v: Json) -> (r: Vec<Json>)
    ensures
        items_view(r@) == items_view(m@).push(v@),
{
    let mut r = m;
    r.push(v);
    assert(r@.drop_last() =~= m@);
    r
}

/// An array with one item.
pub fn json_array1(v: Json) -> (r: Json)
    ensures
        r@ == JsonView::Array(seq![v@]),
{
    let mut m: Vec<Json> = Vec::new();
    m.push(v);
    proof {
        lemma_items_view(m@);
        assert(items_view(m@) =~= seq![v@]);
    }
    Json::Array(m)
}

} // verus!
