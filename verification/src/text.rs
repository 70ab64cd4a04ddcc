//! Text primitives: equality, decimal numbers, trimming, splitting, searching.
//!
//! Text is modelled by its view, a sequence of characters. The executable side
//! walks a `Vec<char>` made from the text once.

use vstd::prelude::*;

verus! {

// ─────────────────────── outside functions ───────────────────────

/// What `format!("{:?}", s)` prints for the text `s`: the text between double
/// quotes, with the characters that `str`'s `Debug` escapes written as escapes.
pub uninterp spec fn debug_quoted(s: Seq<char>) -> Seq<char>;

/// `format!("{:?}", s)`, that is `<str as std::fmt::Debug>::fmt`: the printed
/// text depends on the characters of `s` alone, and is called
/// [`debug_quoted`] of them.
#[verifier::external_body]
pub(crate) fn debug_text(s: &str) -> (r: String)
    ensures
        r@ == debug_quoted(s@),
{
    format!("{:?}", s)
}

/// `String::push` appends the character at the end of the string.
pub assume_specification[ String::push ](s: &mut String, c: char)
    ensures
        final(s)@ == old(s)@.push(c),
;

/// `std::str::from_utf8`: the bytes are a text exactly when they are valid
/// UTF-8, and then they are that text's UTF-8 encoding.
#[verifier::external_body]
pub(crate) fn utf8_text(bytes: &[u8]) -> (r: Option<&str>)
    ensures
        r is Some <==> vstd::utf8::valid_utf8(bytes@),
        r matches Some(t) ==> vstd::utf8::encode_utf8(t@) == bytes@,
{
    std::str::from_utf8(bytes).ok()
}

// ─────────────────────── characters of a text ───────────────────────

/// The characters of a text, in order.
pub fn chars_of(s: &str) -> (v: Vec<char>)
    ensures
        v@ == s@,
{
    let mut v: Vec<char> = Vec::new();
    for c in it: s.chars()
        invariant
            it.seq() == s@,
            v@ == s@.take(it.index()),
    {
        v.push(c);
    }
    assert(s@.take(s@.len() as int) =~= s@);
    v
}

/// The text made of the characters from `from` up to, not with, `to`.
pub fn text_between(v: &Vec<char>, from: usize, to: usize) -> (s: String)
    requires
        from <= to <= v.len(),
    ensures
        s@ == v@.subrange(from as int, to as int),
{
    let mut s = String::new();
    let mut i: usize = from;
    while i < to
        invariant
            from <= i <= to <= v.len(),
            s@ == v@.subrange(from as int, i as int),
        decreases to - i,
    {
        s.push(v[i]);
        i = i + 1;
        assert(v@.subrange(from as int, i as int) =~= v@.subrange(from as int, i - 1).push(v@[i - 1]));
    }
    s
}

/// Two texts hold the same characters.
pub fn same_text(a: &str, b: &str) -> (r: bool)
    ensures
        r == (a@ == b@),
{
    a.to_owned() == b.to_owned()
}

// ─────────────────────── decimal numbers ───────────────────────

/// The character of a decimal digit.
pub open spec fn digit_char(d: nat) -> char {
    (d + 48) as char
}

/// The decimal numeral of `n`, without leading zeros.
pub open spec fn decimal(n: nat) -> Seq<char>
    decreases n,
{
    if n < 10 {
        seq![digit_char(n)]
    } else {
        decimal(n / 10).push(digit_char(n % 10))
    }
}

fn push_digit(s: &mut String, d: u64)
    requires
        d < 10,
    ensures
        final(s)@ == old(s)@.push(digit_char(d as nat)),
{
    let c: char = if d == 0 { '0' } else if d == 1 { '1' } else if d == 2 { '2' } else if d == 3 {
        '3'
    } else if d == 4 { '4' } else if d == 5 { '5' } else if d == 6 { '6' } else if d == 7 {
        '7'
    } else if d == 8 { '8' } else { '9' };
    s.push(c);
}

/// The decimal numeral of a number.
pub fn decimal_text(n: u64) -> (s: String)
    ensures
        s@ == decimal(n as nat),
    decreases n,
{
    if n < 10 {
        let mut s = String::new();
        push_digit(&mut s, n);
        assert(s@ =~= seq![digit_char(n as nat)]);
        s
    } else {
        let mut s = decimal_text(n / 10);
        push_digit(&mut s, n % 10);
        s
    }
}

/// The decimal numeral of `n`, behind a minus sign where it is negative.
pub open spec fn signed_decimal(n: int) -> Seq<char> {
    if n < 0 {
        seq!['-'] + decimal((-n) as nat)
    } else {
        decimal(n as nat)
    }
}

/// The decimal numeral of a number that may be negative.
pub fn signed_text(n: i32) -> (s: String)
    ensures
        s@ == signed_decimal(n as int),
{
    if n < 0 {
        let mut s = String::new();
        s.push('-');
        assert(s@ =~= seq!['-']);
        let m: i64 = -(n as i64);
        s.append(decimal_text(m as u64).as_str());
        s
    } else {
        decimal_text(n as u64)
    }
}

/// How an exit code is printed for diagnosis.
pub open spec fn code_words(code: Option<i32>) -> Seq<char> {
    match code {
        None => "None"@,
        Some(n) => "Some("@ + signed_decimal(n as int) + ")"@,
    }
}

/// An exit code printed for diagnosis.
pub fn code_text(code: Option<i32>) -> (r: String)
    ensures
        r@ == code_words(code),
{
    match code {
        None => "None".to_owned(),
        Some(n) => {
            let mut s = "Some(".to_owned();
            s.append(signed_text(n).as_str());
            s.append(")");
            s
        },
    }
}

/// A decimal digit.
pub open spec fn is_digit(c: char) -> bool {
    '0' <= c <= '9'
}

/// The number that a decimal digit stands for.
pub open spec fn digit_value(c: char) -> nat {
    (c as int - 48) as nat
}

/// Every character is a decimal digit.
pub open spec fn all_digits(d: Seq<char>) -> bool {
    forall|i: int| 0 <= i < d.len() ==> is_digit(#[trigger] d[i])
}

/// The number that a run of decimal digits stands for.
pub open spec fn digits_value(d: Seq<char>) -> nat
    decreases d.len(),
{
    if d.len() == 0 {
        0
    } else {
        digits_value(d.drop_last()) * 10 + digit_value(d.last())
    }
}

/// Why a text is no number.
#[derive(Debug, Clone, Copy, PartialEq, Eq, Structural)]
pub enum IntParseError {
    /// There is no character at all.
    Empty,
    /// A character is no decimal digit.
    InvalidDigit,
    /// The number does not fit.
    PosOverflow,
}

impl IntParseError {
    /// The words for the error.
    pub open spec fn words(self) -> Seq<char> {
        match self {
            IntParseError::Empty => "cannot parse integer from empty string"@,
            IntParseError::InvalidDigit => "invalid digit found in string"@,
            IntParseError::PosOverflow => "number too large to fit in target type"@,
        }
    }

    /// The error in words.
    pub fn message(self) -> (r: String)
        ensures
            r@ == self.words(),
    {
        match self {
            IntParseError::Empty => "cannot parse integer from empty string".to_owned(),
            IntParseError::InvalidDigit => "invalid digit found in string".to_owned(),
            IntParseError::PosOverflow => "number too large to fit in target type".to_owned(),
        }
    }
}

/// Reading the digits `d` from left to right, with `acc` read so far: the first
/// character at which the reading cannot go on decides the error.
pub open spec fn scan_digits(d: Seq<char>, acc: u64) -> Result<u64, IntParseError>
    decreases d.len(),
{
    if d.len() == 0 {
        Ok(acc)
    } else if !is_digit(d[0]) {
        Err(IntParseError::InvalidDigit)
    } else if acc * 10 + digit_value(d[0]) > u64::MAX {
        Err(IntParseError::PosOverflow)
    } else {
        scan_digits(d.drop_first(), (acc * 10 + digit_value(d[0])) as u64)
    }
}

/// The number that a text stands for: an optional `+`, then decimal digits.
pub open spec fn parsed_u64(s: Seq<char>) -> Result<u64, IntParseError> {
    if s.len() == 0 {
        Err(IntParseError::Empty)
    } else if s[0] == '+' && s.len() == 1 {
        Err(IntParseError::InvalidDigit)
    } else if s[0] == '+' {
        scan_digits(s.drop_first(), 0)
    } else {
        scan_digits(s, 0)
    }
}

/// Reads a number from a text.
pub fn parse_u64(s: &str) -> (r: Result<u64, IntParseError>)
    ensures
        r == parsed_u64(s@),
{
    let v = chars_of(s);
    if v.len() == 0 {
        return Err(IntParseError::Empty);
    }
    let mut i: usize = 0;
    if v[0] == '+' {
        if v.len() == 1 {
            return Err(IntParseError::InvalidDigit);
        }
        i = 1;
        assert(v@.skip(1) =~= s@.drop_first());
    } else {
        assert(v@.skip(0) =~= s@);
    }
    let ghost whole = v@.skip(i as int);
    let mut acc: u64 = 0;
    while i < v.len()
        invariant
            i <= v.len(),
            scan_digits(whole, 0) == scan_digits(v@.skip(i as int), acc),
            parsed_u64(s@) == scan_digits(whole, 0),
        decreases v.len() - i,
    {
        let c: char = v[i];
        assert(v@.skip(i as int)[0] == c);
        if !('0' <= c && c <= '9') {
            return Err(IntParseError::InvalidDigit);
        }
        let d: u64 = (c as u32 - 48) as u64;
        if acc > (u64::MAX - d) / 10 {
            assert(acc * 10 + d > u64::MAX);
            return Err(IntParseError::PosOverflow);
        }
        acc = acc * 10 + d;
        assert(v@.skip(i as int).drop_first() =~= v@.skip(i + 1));
        i = i + 1;
    }
    Ok(acc)
}

proof fn lemma_scan_digits(d: Seq<char>, acc: u64, n: u64)
    ensures
        scan_digits(d, acc) == Ok::<u64, IntParseError>(n) <==> all_digits(d)
            && acc * pow10(d.len()) + digits_value(d) == n,
    decreases d.len(),
{
    if d.len() == 0 {
        assert(acc * pow10(0) == acc) by (nonlinear_arith)
            requires
                pow10(0) == 1,
        ;
    } else {
        lemma_digits_value_front(d);
        let rest = d.drop_first();
        let k = pow10(rest.len());
        assert(k >= 1) by {
            lemma_pow10_positive(rest.len());
        }
        assert(pow10(d.len()) == 10 * k);
        if is_digit(d[0]) {
            let step = acc * 10 + digit_value(d[0]);
            assert(acc * (10 * k) + digit_value(d[0]) * k == step * k) by (nonlinear_arith)
                requires
                    step == acc * 10 + digit_value(d[0]),
            ;
            if step > u64::MAX {
                assert(step * k >= step) by (nonlinear_arith)
                    requires
                        k >= 1,
                        step >= 0,
                ;
            } else {
                lemma_scan_digits(rest, step as u64, n);
            }
            if all_digits(rest) {
                assert forall|i: int| 0 <= i < d.len() implies is_digit(#[trigger] d[i]) by {
                    if i > 0 {
                        assert(d[i] == rest[i - 1]);
                    }
                }
            }
            if all_digits(d) {
                assert forall|i: int| 0 <= i < rest.len() implies is_digit(#[trigger] rest[i]) by {
                    assert(rest[i] == d[i + 1]);
                }
            }
        }
    }
}

/// Ten to the power of `n`.
pub open spec fn pow10(n: nat) -> nat
    decreases n,
{
    if n == 0 {
        1
    } else {
        10 * pow10((n - 1) as nat)
    }
}

proof fn lemma_pow10_positive(n: nat)
    ensures
        pow10(n) >= 1,
    decreases n,
{
    if n > 0 {
        lemma_pow10_positive((n - 1) as nat);
    }
}

proof fn lemma_digits_value_front(d: Seq<char>)
    requires
        d.len() > 0,
    ensures
        digits_value(d) == digit_value(d[0]) * pow10((d.len() - 1) as nat) + digits_value(
            d.drop_first(),
        ),
    decreases d.len(),
{
    if d.len() == 1 {
        assert(digits_value(d.drop_last()) == 0);
        assert(digits_value(d.drop_first()) == 0);
        assert(digit_value(d[0]) * pow10(0) == digit_value(d[0])) by (nonlinear_arith)
            requires
                pow10(0) == 1,
        ;
    } else {
        let init = d.drop_last();
        lemma_digits_value_front(init);
        assert(init.drop_first() =~= d.drop_first().drop_last());
        assert(d.drop_first().last() == d.last());
        let k = pow10((init.len() - 1) as nat);
        assert(pow10((d.len() - 1) as nat) == 10 * k);
        assert((digit_value(d[0]) * k + digits_value(init.drop_first())) * 10 == digit_value(d[0])
            * (10 * k) + digits_value(init.drop_first()) * 10) by (nonlinear_arith);
    }
}

/// A text is read as the number `n` exactly when it is, behind an optional `+`,
/// a run of one or more decimal digits whose value is `n`.
pub proof fn parsed_number_is_the_value_of_its_digits(s: Seq<char>, n: u64)
    ensures
        parsed_u64(s) == Ok::<u64, IntParseError>(n) <==> ({
            let d = if s.len() > 0 && s[0] == '+' {
                s.drop_first()
            } else {
                s
            };
            d.len() > 0 && all_digits(d) && digits_value(d) == n
        }),
{
    let d = if s.len() > 0 && s[0] == '+' {
        s.drop_first()
    } else {
        s
    };
    lemma_scan_digits(d, 0, n);
    assert(0 * pow10(d.len()) == 0);
}

proof fn lemma_decimal_digits(n: nat)
    ensures
        decimal(n).len() > 0,
        all_digits(decimal(n)),
        digits_value(decimal(n)) == n,
    decreases n,
{
    if n < 10 {
        assert(decimal(n).drop_last() =~= Seq::<char>::empty());
        assert(digits_value(decimal(n).drop_last()) == 0);
    } else {
        lemma_decimal_digits(n / 10);
        assert(decimal(n).drop_last() =~= decimal(n / 10));
    }
}

/// A number survives being written in decimal and read back.
pub proof fn a_number_reads_back_from_its_numeral(n: u64)
    ensures
        parsed_u64(decimal(n as nat)) == Ok::<u64, IntParseError>(n),
{
    lemma_decimal_digits(n as nat);
    assert(is_digit(decimal(n as nat)[0]));
    parsed_number_is_the_value_of_its_digits(decimal(n as nat), n);
}

// ─────────────────────── classes of characters ───────────────────────

/// The classes of characters that texts are trimmed and split by.
#[derive(Debug, Clone, Copy, PartialEq, Eq, Structural)]
pub enum CharClass {
    /// White space, as Unicode's `White_Space` property has it.
    White,
    /// Anything but white space.
    NonWhite,
    /// A space or a tab.
    Blank,
    /// A slash.
    Slash,
    /// A colon, a space or a tab.
    ColonOrBlank,
    /// A decimal digit.
    Digit,
    /// Anything but a letter of the ASCII alphabet.
    NonLetter,
    /// White space between the parts of a JSON text.
    JsonSpace,
}

/// A character with Unicode's `White_Space` property.
pub open spec fn is_white(c: char) -> bool {
    let n = c as u32;
    ||| 0x09 <= n <= 0x0d
    ||| n == 0x20
    ||| n == 0x85
    ||| n == 0xa0
    ||| n == 0x1680
    ||| 0x2000 <= n <= 0x200a
    ||| n == 0x2028
    ||| n == 0x2029
    ||| n == 0x202f
    ||| n == 0x205f
    ||| n == 0x3000
}

/// A letter of the ASCII alphabet.
pub open spec fn is_letter(c: char) -> bool {
    'a' <= c <= 'z' || 'A' <= c <= 'Z'
}

impl CharClass {
    /// The character is of the class.
    pub open spec fn holds(self, c: char) -> bool {
        match self {
            CharClass::White => is_white(c),
            CharClass::NonWhite => !is_white(c),
            CharClass::Blank => c == ' ' || c == '\t',
            CharClass::Slash => c == '/',
            CharClass::ColonOrBlank => c == ':' || c == ' ' || c == '\t',
            CharClass::Digit => is_digit(c),
            CharClass::NonLetter => !is_letter(c),
            CharClass::JsonSpace => c == ' ' || c == '\t' || c == '\n' || c == '\r',
        }
    }

    /// Whether the character is of the class.
    pub fn has(self, c: char) -> (r: bool)
        ensures
            r == self.holds(c),
    {
        match self {
            CharClass::White => white(c),
            CharClass::NonWhite => !white(c),
            CharClass::Blank => c == ' ' || c == '\t',
            CharClass::Slash => c == '/',
            CharClass::ColonOrBlank => c == ':' || c == ' ' || c == '\t',
            CharClass::Digit => '0' <= c && c <= '9',
            CharClass::NonLetter => !(('a' <= c && c <= 'z') || ('A' <= c && c <= 'Z')),
            CharClass::JsonSpace => c == ' ' || c == '\t' || c == '\n' || c == '\r',
        }
    }
}

fn white(c: char) -> (r: bool)
    ensures
        r == is_white(c),
{
    let n: u32 = c as u32;
    (0x09 <= n && n <= 0x0d) || n == 0x20 || n == 0x85 || n == 0xa0 || n == 0x1680 || (0x2000 <= n
        && n <= 0x200a) || n == 0x2028 || n == 0x2029 || n == 0x202f || n == 0x205f || n == 0x3000
}

/// How many characters at the front of `s` are of the class.
pub open spec fn leading(s: Seq<char>, k: CharClass) -> nat
    decreases s.len(),
{
    if s.len() > 0 && k.holds(s[0]) {
        1 + leading(s.drop_first(), k)
    } else {
        0
    }
}

/// How many characters at the end of `s` are of the class.
pub open spec fn trailing(s: Seq<char>, k: CharClass) -> nat
    decreases s.len(),
{
    if s.len() > 0 && k.holds(s.last()) {
        1 + trailing(s.drop_last(), k)
    } else {
        0
    }
}

/// `leading` counts exactly the front run of the class.
pub proof fn lemma_leading(s: Seq<char>, k: CharClass)
    ensures
        leading(s, k) <= s.len(),
        forall|i: int| 0 <= i < leading(s, k) ==> k.holds(#[trigger] s[i]),
        leading(s, k) < s.len() ==> !k.holds(s[leading(s, k) as int]),
    decreases s.len(),
{
    if s.len() > 0 && k.holds(s[0]) {
        let t = s.drop_first();
        lemma_leading(t, k);
        assert forall|i: int| 0 <= i < leading(s, k) implies k.holds(#[trigger] s[i]) by {
            if i > 0 {
                assert(s[i] == t[i - 1]);
            }
        }
    }
}

/// `trailing` counts exactly the final run of the class.
pub proof fn lemma_trailing(s: Seq<char>, k: CharClass)
    ensures
        trailing(s, k) <= s.len(),
        forall|i: int| s.len() - trailing(s, k) <= i < s.len() ==> k.holds(#[trigger] s[i]),
        trailing(s, k) < s.len() ==> !k.holds(s[s.len() - 1 - trailing(s, k)]),
    decreases s.len(),
{
    if s.len() > 0 && k.holds(s.last()) {
        let t = s.drop_last();
        lemma_trailing(t, k);
        assert forall|i: int| s.len() - trailing(s, k) <= i < s.len() implies k.holds(
            #[trigger] s[i],
        ) by {
            if i < s.len() - 1 {
                assert(s[i] == t[i]);
            }
        }
    }
}

/// A front run of the class is the one that `leading` counts.
pub proof fn lemma_leading_is(s: Seq<char>, k: CharClass, n: int)
    requires
        0 <= n <= s.len(),
        forall|i: int| 0 <= i < n ==> k.holds(#[trigger] s[i]),
        n < s.len() ==> !k.holds(s[n]),
    ensures
        leading(s, k) == n,
{
    lemma_leading(s, k);
    let m = leading(s, k) as int;
    if m < n {
        assert(k.holds(s[m]));
    } else if n < m {
        assert(k.holds(s[n]));
    }
}

/// A final run of the class is the one that `trailing` counts.
pub proof fn lemma_trailing_is(s: Seq<char>, k: CharClass, n: int)
    requires
        0 <= n <= s.len(),
        forall|i: int| s.len() - n <= i < s.len() ==> k.holds(#[trigger] s[i]),
        n < s.len() ==> !k.holds(s[s.len() - 1 - n]),
    ensures
        trailing(s, k) == n,
{
    lemma_trailing(s, k);
    let m = trailing(s, k) as int;
    if m < n {
        assert(k.holds(s[s.len() - 1 - m]));
    } else if n < m {
        assert(k.holds(s[s.len() - 1 - n]));
    }
}

/// The end of the run of the class that starts at `from`.
pub fn run_end(v: &Vec<char>, from: usize, to: usize, k: CharClass) -> (r: usize)
    requires
        from <= to <= v.len(),
    ensures
        r == from + leading(v@.subrange(from as int, to as int), k),
        from <= r <= to,
{
    let ghost s = v@.subrange(from as int, to as int);
    let mut i: usize = from;
    assert(s.skip(0) =~= s);
    while i < to && k.has(v[i])
        invariant
            from <= i <= to <= v.len(),
            s == v@.subrange(from as int, to as int),
            leading(s, k) == (i - from) + leading(s.skip(i - from), k),
        decreases to - i,
    {
        assert(s.skip(i - from)[0] == v@[i as int]);
        assert(s.skip(i - from).drop_first() =~= s.skip(i + 1 - from));
        i = i + 1;
    }
    if i < to {
        assert(s.skip(i - from)[0] == v@[i as int]);
    }
    i
}

/// The start of the run of the class that ends at `to`.
pub fn run_start(v: &Vec<char>, from: usize, to: usize, k: CharClass) -> (r: usize)
    requires
        from <= to <= v.len(),
    ensures
        r == to - trailing(v@.subrange(from as int, to as int), k),
        from <= r <= to,
{
    let ghost s = v@.subrange(from as int, to as int);
    let mut j: usize = to;
    assert(s.take(to - from) =~= s);
    while j > from && k.has(v[j - 1])
        invariant
            from <= j <= to <= v.len(),
            s == v@.subrange(from as int, to as int),
            trailing(s, k) == (to - j) + trailing(s.take(j - from), k),
        decreases j,
    {
        assert(s.take(j - from).last() == v@[j - 1]);
        assert(s.take(j - from).drop_last() =~= s.take(j - 1 - from));
        j = j - 1;
    }
    if j > from {
        assert(s.take(j - from).last() == v@[j - 1]);
    }
    j
}

/// `s` without the characters of the class at its front.
pub open spec fn without_leading(s: Seq<char>, k: CharClass) -> Seq<char> {
    s.skip(leading(s, k) as int)
}

/// `s` without the characters of the class at its end.
pub open spec fn without_trailing(s: Seq<char>, k: CharClass) -> Seq<char> {
    s.take(s.len() - trailing(s, k))
}

/// `s` without white space at either end.
pub open spec fn trimmed(s: Seq<char>) -> Seq<char> {
    without_trailing(without_leading(s, CharClass::White), CharClass::White)
}

/// The text without white space at either end.
pub fn trim(s: &str) -> (r: String)
    ensures
        r@ == trimmed(s@),
{
    let v = chars_of(s);
    assert(v@.subrange(0, v.len() as int) =~= s@);
    let a: usize = run_end(&v, 0, v.len(), CharClass::White);
    let b: usize = run_start(&v, a, v.len(), CharClass::White);
    assert(v@.subrange(a as int, v.len() as int) =~= without_leading(s@, CharClass::White));
    assert(v@.subrange(a as int, b as int) =~= trimmed(s@));
    text_between(&v, a, b)
}

/// The text without characters of the class at its end.
pub fn trim_end(s: &str, k: CharClass) -> (r: String)
    ensures
        r@ == without_trailing(s@, k),
{
    let v = chars_of(s);
    assert(v@.subrange(0, v.len() as int) =~= s@);
    let b: usize = run_start(&v, 0, v.len(), k);
    assert(v@.subrange(0, b as int) =~= without_trailing(s@, k));
    text_between(&v, 0, b)
}

// ─────────────────────── words, lines, pieces ───────────────────────

/// The views of a sequence of texts.
pub open spec fn texts(v: Seq<String>) -> Seq<Seq<char>> {
    v.map_values(|s: String| s@)
}

/// Appending a text appends its view.
pub broadcast proof fn lemma_texts_push(v: Seq<String>, s: String)
    ensures
        #[trigger] texts(v.push(s)) == texts(v).push(s@),
{
    assert(texts(v.push(s)) =~= texts(v).push(s@));
}

/// The words of a text: its runs of characters that are no white space.
pub open spec fn words(s: Seq<char>) -> Seq<Seq<char>>
    decreases s.len(),
{
    let t = without_leading(s, CharClass::White);
    let n = leading(t, CharClass::NonWhite);
    if t.len() == 0 || n == 0 || n > t.len() || t.len() > s.len() {
        Seq::empty()
    } else {
        seq![t.take(n as int)] + words(t.skip(n as int))
    }
}

/// The words of a text, in order.
pub fn split_words(s: &str) -> (r: Vec<String>)
    ensures
        texts(r@) == words(s@),
{
    let v = chars_of(s);
    let mut r: Vec<String> = Vec::new();
    let mut i: usize = 0;
    assert(v@.skip(0) =~= s@);
    assert(texts(r@) =~= Seq::<Seq<char>>::empty());
    while i < v.len()
        invariant
            i <= v.len(),
            words(s@) == texts(r@) + words(v@.skip(i as int)),
        decreases v.len() - i,
    {
        broadcast use lemma_texts_push;

        let ghost rest = v@.skip(i as int);
        assert(v@.subrange(i as int, v.len() as int) =~= rest);
        let a: usize = run_end(&v, i, v.len(), CharClass::White);
        let ghost t = without_leading(rest, CharClass::White);
        assert(t =~= v@.skip(a as int));
        assert(v@.subrange(a as int, v.len() as int) =~= t);
        let b: usize = run_end(&v, a, v.len(), CharClass::NonWhite);
        proof {
            lemma_leading(rest, CharClass::White);
            lemma_leading(t, CharClass::NonWhite);
        }
        if a == v.len() {
            assert(words(rest) =~= Seq::<Seq<char>>::empty());
            assert(v@.skip(v.len() as int) =~= Seq::<char>::empty());
            assert(words(v@.skip(v.len() as int)) =~= Seq::<Seq<char>>::empty());
            i = v.len();
        } else {
            assert(t[0] == v@[a as int]);
            assert(b > a);
            assert(v@.subrange(a as int, b as int) =~= t.take(b - a));
            assert(t.skip(b - a) =~= v@.skip(b as int));
            let ghost before = texts(r@);
            r.push(text_between(&v, a, b));
            assert(texts(r@) + words(v@.skip(b as int)) =~= before + (seq![t.take(b - a)] + words(
                v@.skip(b as int),
            )));
            i = b;
        }
    }
    assert(v@.skip(v.len() as int) =~= Seq::<char>::empty());
    assert(words(v@.skip(v.len() as int)) =~= Seq::<Seq<char>>::empty());
    assert(texts(r@) + Seq::<Seq<char>>::empty() =~= texts(r@));
    r
}

/// No character is white space.
pub open spec fn solid(s: Seq<char>) -> bool {
    forall|i: int| 0 <= i < s.len() ==> !is_white(#[trigger] s[i])
}

/// A text without white space is trimmed already.
pub proof fn lemma_solid_is_trimmed(s: Seq<char>)
    requires
        solid(s),
    ensures
        trimmed(s) == s,
{
    assert(leading(s, CharClass::White) == 0);
    assert(without_leading(s, CharClass::White) =~= s);
    assert(trailing(s, CharClass::White) == 0);
    assert(without_trailing(s, CharClass::White) =~= s);
}

/// Two words with a blank between them are those two words.
pub proof fn lemma_two_words(a: Seq<char>, b: Seq<char>)
    requires
        a.len() > 0,
        b.len() > 0,
        solid(a),
        solid(b),
    ensures
        words(a + " "@ + b) == seq![a, b],
{
    reveal_strlit(" ");
    let s = a + " "@ + b;
    let rest = " "@ + b;
    assert(s[0] == a[0]);
    assert(leading(s, CharClass::White) == 0);
    assert(without_leading(s, CharClass::White) =~= s);
    assert forall|i: int| 0 <= i < a.len() implies CharClass::NonWhite.holds(#[trigger] s[i]) by {
        assert(s[i] == a[i]);
    }
    assert(s[a.len() as int] == ' ');
    lemma_leading_is(s, CharClass::NonWhite, a.len() as int);
    assert(s.take(a.len() as int) =~= a);
    assert(s.skip(a.len() as int) =~= rest);
    assert(rest[0] == ' ');
    assert(rest[1] == b[0]);
    lemma_leading_is(rest, CharClass::White, 1);
    assert(without_leading(rest, CharClass::White) =~= b);
    lemma_leading_is(b, CharClass::NonWhite, b.len() as int);
    assert(b.take(b.len() as int) =~= b);
    assert(b.skip(b.len() as int) =~= Seq::<char>::empty());
    assert(words(Seq::<char>::empty()) =~= Seq::<Seq<char>>::empty());
    assert(words(rest) =~= seq![b]);
    assert(words(s) =~= seq![a, b]);
}

/// A numeral has digits and nothing else.
pub proof fn lemma_decimal_is_solid(n: nat)
    ensures
        decimal(n).len() > 0,
        solid(decimal(n)),
{
    lemma_decimal_digits(n);
    assert forall|i: int| 0 <= i < decimal(n).len() implies !is_white(#[trigger] decimal(n)[i]) by {
        assert(is_digit(decimal(n)[i]));
    }
}

/// Where `c` first stands in `s`, or the length of `s` where it does not.
pub open spec fn index_or_end(s: Seq<char>, c: char) -> nat
    decreases s.len(),
{
    if s.len() == 0 || s[0] == c {
        0
    } else {
        1 + index_or_end(s.drop_first(), c)
    }
}

/// `index_or_end` is the first place of the character.
pub proof fn lemma_index_or_end(s: Seq<char>, c: char)
    ensures
        index_or_end(s, c) <= s.len(),
        forall|i: int| 0 <= i < index_or_end(s, c) ==> #[trigger] s[i] != c,
        index_or_end(s, c) < s.len() ==> s[index_or_end(s, c) as int] == c,
    decreases s.len(),
{
    if s.len() > 0 && s[0] != c {
        let t = s.drop_first();
        lemma_index_or_end(t, c);
        assert forall|i: int| 0 <= i < index_or_end(s, c) implies #[trigger] s[i] != c by {
            if i > 0 {
                assert(s[i] == t[i - 1]);
            }
        }
    }
}

/// Where `c` first stands at or behind `from`, or the end.
pub fn find_char(v: &Vec<char>, from: usize, c: char) -> (r: usize)
    requires
        from <= v.len(),
    ensures
        r == from + index_or_end(v@.skip(from as int), c),
        from <= r <= v.len(),
        forall|i: int| from <= i < r ==> #[trigger] v@[i] != c,
        r < v.len() ==> v@[r as int] == c,
{
    let mut i: usize = from;
    let ghost s = v@.skip(from as int);
    while i < v.len() && v[i] != c
        invariant
            from <= i <= v.len(),
            s == v@.skip(from as int),
            forall|j: int| from <= j < i ==> #[trigger] v@[j] != c,
            index_or_end(s, c) == (i - from) + index_or_end(v@.skip(i as int), c),
        decreases v.len() - i,
    {
        assert(v@.skip(i as int)[0] == v@[i as int]);
        assert(v@.skip(i as int).drop_first() =~= v@.skip(i + 1));
        i = i + 1;
    }
    if i < v.len() {
        assert(v@.skip(i as int)[0] == v@[i as int]);
    }
    i
}

/// The pieces of `s` between the places of `c`.
pub open spec fn pieces(s: Seq<char>, c: char) -> Seq<Seq<char>>
    decreases s.len(),
{
    let n = index_or_end(s, c);
    if n >= s.len() {
        seq![s]
    } else {
        seq![s.take(n as int)] + pieces(s.skip(n as int + 1), c)
    }
}

/// The pieces of a text between the places of a character.
pub fn split_pieces(s: &str, c: char) -> (r: Vec<String>)
    ensures
        texts(r@) == pieces(s@, c),
        r.len() > 0,
{
    let v = chars_of(s);
    let mut r: Vec<String> = Vec::new();
    let mut i: usize = 0;
    assert(v@.skip(0) =~= s@);
    assert(texts(r@) + pieces(s@, c) =~= pieces(s@, c));
    loop
        invariant
            i <= v.len(),
            pieces(s@, c) == texts(r@) + pieces(v@.skip(i as int), c),
        decreases v.len() - i,
    {
        broadcast use lemma_texts_push;

        let ghost rest = v@.skip(i as int);
        let ghost before = texts(r@);
        let n: usize = find_char(&v, i, c);
        r.push(text_between(&v, i, n));
        assert(v@.subrange(i as int, n as int) =~= rest.take(n - i));
        if n == v.len() {
            assert(rest.take(n - i) =~= rest);
            assert(texts(r@) =~= before + seq![rest]);
            return r;
        }
        assert(rest.skip(n - i + 1) =~= v@.skip(n + 1));
        assert(texts(r@) + pieces(v@.skip(n + 1), c) =~= before + (seq![rest.take(n - i)] + pieces(
            v@.skip(n + 1),
            c,
        )));
        i = n + 1;
    }
}

/// `line` without its line end: a final `\n`, and a `\r` in front of that.
pub open spec fn without_line_end(line: Seq<char>) -> Seq<char> {
    if line.len() > 0 && line.last() == '\n' {
        let body = line.drop_last();
        if body.len() > 0 && body.last() == '\r' {
            body.drop_last()
        } else {
            body
        }
    } else {
        line
    }
}

/// The lines of `s`, each with its final `\n` where it has one.
pub open spec fn full_lines(s: Seq<char>) -> Seq<Seq<char>>
    decreases s.len(),
{
    let n = index_or_end(s, '\n');
    if s.len() == 0 {
        Seq::empty()
    } else if n >= s.len() {
        seq![s]
    } else {
        seq![s.take(n as int + 1)] + full_lines(s.skip(n as int + 1))
    }
}

/// The lines of a text, each with its final `\n` where it has one.
pub fn split_full_lines(s: &str) -> (r: Vec<String>)
    ensures
        texts(r@) == full_lines(s@),
{
    let v = chars_of(s);
    let mut r: Vec<String> = Vec::new();
    let mut i: usize = 0;
    assert(v@.skip(0) =~= s@);
    assert(texts(r@) + full_lines(s@) =~= full_lines(s@));
    while i < v.len()
        invariant
            i <= v.len(),
            full_lines(s@) == texts(r@) + full_lines(v@.skip(i as int)),
        decreases v.len() - i,
    {
        broadcast use lemma_texts_push;

        let ghost rest = v@.skip(i as int);
        let ghost before = texts(r@);
        let n: usize = find_char(&v, i, '\n');
        let end: usize = if n < v.len() { n + 1 } else { n };
        r.push(text_between(&v, i, end));
        if n == v.len() {
            assert(v@.subrange(i as int, end as int) =~= rest);
            assert(v@.skip(end as int) =~= Seq::<char>::empty());
            assert(texts(r@) + full_lines(v@.skip(end as int)) =~= before + seq![rest]);
        } else {
            assert(v@.subrange(i as int, end as int) =~= rest.take(n - i + 1));
            assert(rest.skip(n - i + 1) =~= v@.skip(end as int));
            assert(texts(r@) + full_lines(v@.skip(end as int)) =~= before + (seq![
                rest.take(n - i + 1),
            ] + full_lines(v@.skip(end as int))));
        }
        i = end;
    }
    assert(v@.skip(v.len() as int) =~= Seq::<char>::empty());
    assert(texts(r@) + Seq::<Seq<char>>::empty() =~= texts(r@));
    r
}

/// A line without its line end.
pub fn strip_line_end(line: &str) -> (r: String)
    ensures
        r@ == without_line_end(line@),
{
    let v = chars_of(line);
    let mut n: usize = v.len();
    if n > 0 && v[n - 1] == '\n' {
        n = n - 1;
        if n > 0 && v[n - 1] == '\r' {
            n = n - 1;
        }
    }
    assert(v@.subrange(0, n as int) =~= without_line_end(line@));
    text_between(&v, 0, n)
}

/// The lines of `s`, without their line ends.
pub open spec fn lines(s: Seq<char>) -> Seq<Seq<char>> {
    full_lines(s).map_values(|l: Seq<char>| without_line_end(l))
}

/// The lines of a text, without their line ends.
pub fn split_lines(s: &str) -> (r: Vec<String>)
    ensures
        texts(r@) == lines(s@),
{
    let full = split_full_lines(s);
    let mut r: Vec<String> = Vec::new();
    let mut i: usize = 0;
    while i < full.len()
        invariant
            i <= full.len(),
            r.len() == i,
            forall|j: int| 0 <= j < i ==> (#[trigger] r@[j])@ == without_line_end(full@[j]@),
        decreases full.len() - i,
    {
        r.push(strip_line_end(full[i].as_str()));
        i = i + 1;
    }
    assert(texts(full@).len() == full.len());
    assert forall|j: int| 0 <= j < full.len() implies #[trigger] lines(s@)[j] == without_line_end(
        full@[j]@,
    ) by {
        assert(texts(full@)[j] == full@[j]@);
    }
    assert(texts(r@) =~= lines(s@));
    r
}

// ─────────────────────── searching ───────────────────────

/// `needle` stands in `s` at `i`.
pub open spec fn occurs_at(s: Seq<char>, needle: Seq<char>, i: int) -> bool {
    0 <= i && i + needle.len() <= s.len() && s.subrange(i, i + needle.len()) == needle
}

/// `needle` stands somewhere in `s`.
pub open spec fn occurs(s: Seq<char>, needle: Seq<char>) -> bool {
    exists|i: int| occurs_at(s, needle, i)
}

/// The first place at or behind `from` at which `needle` stands in `s`.
pub open spec fn place_from(s: Seq<char>, needle: Seq<char>, from: int) -> Option<int>
    decreases s.len() + 1 - from,
{
    if from < 0 || from + needle.len() > s.len() {
        None
    } else if occurs_at(s, needle, from) {
        Some(from)
    } else {
        place_from(s, needle, from + 1)
    }
}

/// `place_from` finds the first place, and finds one where there is one.
pub proof fn lemma_place_from(s: Seq<char>, needle: Seq<char>, from: int)
    requires
        from >= 0,
    ensures
        place_from(s, needle, from) matches Some(i) ==> i >= from && occurs_at(s, needle, i)
            && forall|j: int| from <= j < i ==> !#[trigger] occurs_at(s, needle, j),
        place_from(s, needle, from) is None ==> forall|j: int|
            from <= j ==> !#[trigger] occurs_at(s, needle, j),
    decreases s.len() + 1 - from,
{
    if from + needle.len() <= s.len() && !occurs_at(s, needle, from) {
        lemma_place_from(s, needle, from + 1);
    }
}

/// Whether `needle` stands in the text at `i`.
pub fn stands_at(v: &Vec<char>, needle: &Vec<char>, i: usize) -> (r: bool)
    requires
        i + needle.len() <= v.len(),
    ensures
        r == occurs_at(v@, needle@, i as int),
{
    let mut k: usize = 0;
    while k < needle.len()
        invariant
            k <= needle.len(),
            i + needle.len() <= v.len(),
            forall|j: int| 0 <= j < k ==> v@[i + j] == #[trigger] needle@[j],
        decreases needle.len() - k,
    {
        if v[i + k] != needle[k] {
            assert(v@.subrange(i as int, i + needle@.len())[k as int] != needle@[k as int]);
            return false;
        }
        k = k + 1;
    }
    assert(v@.subrange(i as int, i + needle@.len()) =~= needle@);
    true
}

/// Where `needle` first stands in the text.
pub fn find_text(v: &Vec<char>, needle: &Vec<char>) -> (r: Option<usize>)
    ensures
        match r {
            Some(i) => place_from(v@, needle@, 0) == Some(i as int) && i + needle.len() <= v.len(),
            None => place_from(v@, needle@, 0) is None,
        },
{
    if needle.len() > v.len() {
        return None;
    }
    let last: usize = v.len() - needle.len();
    let mut i: usize = 0;
    while i <= last
        invariant
            i <= last + 1,
            last + needle.len() == v.len(),
            place_from(v@, needle@, 0) == place_from(v@, needle@, i as int),
        decreases last + 1 - i,
    {
        if stands_at(v, needle, i) {
            return Some(i);
        }
        if i == last {
            return None;
        }
        i = i + 1;
    }
    None
}

/// Whether `needle` stands somewhere in the text.
pub fn contains_text(s: &str, needle: &str) -> (r: bool)
    ensures
        r == occurs(s@, needle@),
{
    let v = chars_of(s);
    let n = chars_of(needle);
    proof {
        lemma_place_from(s@, needle@, 0);
    }
    match find_text(&v, &n) {
        Some(_) => true,
        None => false,
    }
}

/// The last place of `c` in `s` before `to`.
pub open spec fn last_place(s: Seq<char>, c: char, to: int) -> Option<int>
    decreases to,
{
    if to <= 0 {
        None
    } else if s[to - 1] == c {
        Some(to - 1)
    } else {
        last_place(s, c, to - 1)
    }
}

/// `last_place` is the last place of the character.
pub proof fn lemma_last_place(s: Seq<char>, c: char, to: int)
    requires
        0 <= to <= s.len(),
    ensures
        last_place(s, c, to) matches Some(i) ==> 0 <= i < to && s[i] == c && forall|j: int|
            i < j < to ==> #[trigger] s[j] != c,
        last_place(s, c, to) is None ==> forall|j: int| 0 <= j < to ==> #[trigger] s[j] != c,
    decreases to,
{
    if to > 0 && s[to - 1] != c {
        lemma_last_place(s, c, to - 1);
    }
}

/// A last place of the character is the one that `last_place` finds.
pub proof fn lemma_last_place_is(s: Seq<char>, c: char, to: int, k: int)
    requires
        0 <= k < to <= s.len(),
        s[k] == c,
        forall|j: int| k < j < to ==> #[trigger] s[j] != c,
    ensures
        last_place(s, c, to) == Some(k),
{
    lemma_last_place(s, c, to);
    match last_place(s, c, to) {
        Some(i) => {
            if i < k {
                assert(s[k] != c);
            }
        },
        None => {
            assert(s[k] != c);
        },
    }
}

/// Where `c` last stands before `to`.
pub fn rfind_char(v: &Vec<char>, c: char, to: usize) -> (r: Option<usize>)
    requires
        to <= v.len(),
    ensures
        match r {
            Some(i) => last_place(v@, c, to as int) == Some(i as int) && i < to && v@[i as int] == c
                && forall|j: int| i < j < to ==> #[trigger] v@[j] != c,
            None => last_place(v@, c, to as int) is None && forall|j: int|
                0 <= j < to ==> #[trigger] v@[j] != c,
        },
{
    let mut i: usize = to;
    while i > 0
        invariant
            i <= to <= v.len(),
            forall|j: int| i <= j < to ==> #[trigger] v@[j] != c,
            last_place(v@, c, to as int) == last_place(v@, c, i as int),
        decreases i,
    {
        if v[i - 1] == c {
            return Some(i - 1);
        }
        i = i - 1;
    }
    None
}

/// `s` starts with `prefix`.
pub open spec fn starts(s: Seq<char>, prefix: Seq<char>) -> bool {
    prefix.len() <= s.len() && s.take(prefix.len() as int) == prefix
}

/// The text behind a prefix, where the text starts with it.
pub fn strip_prefix(s: &str, prefix: &str) -> (r: Option<String>)
    ensures
        match r {
            Some(rest) => starts(s@, prefix@) && rest@ == s@.skip(prefix@.len() as int),
            None => !starts(s@, prefix@),
        },
{
    let v = chars_of(s);
    let p = chars_of(prefix);
    if p.len() > v.len() {
        return None;
    }
    if stands_at(&v, &p, 0) {
        assert(s@.subrange(0, prefix@.len() as int) =~= s@.take(prefix@.len() as int));
        assert(v@.subrange(p.len() as int, v.len() as int) =~= s@.skip(prefix@.len() as int));
        Some(text_between(&v, p.len(), v.len()))
    } else {
        assert(s@.subrange(0, prefix@.len() as int) =~= s@.take(prefix@.len() as int));
        None
    }
}

// ─────────────────────── laws ───────────────────────

/// What is taken off the end of a text is the run of the class there, and nothing
/// else.
pub proof fn only_the_end_run_is_taken_off(s: Seq<char>, run: Seq<char>, k: CharClass)
    requires
        forall|i: int| 0 <= i < run.len() ==> k.holds(#[trigger] run[i]),
        s.len() > 0 ==> !k.holds(s.last()),
    ensures
        without_trailing(s + run, k) == s,
{
    let all = s + run;
    assert forall|i: int| all.len() - run.len() <= i < all.len() implies k.holds(
        #[trigger] all[i],
    ) by {
        assert(all[i] == run[i - s.len()]);
    }
    if s.len() > 0 {
        assert(all[s.len() - 1] == s.last());
    }
    lemma_trailing_is(all, k, run.len() as int);
    assert(without_trailing(all, k) =~= s);
}

/// What is taken off the front of a text is the run of the class there, and nothing
/// else.
pub proof fn only_the_front_run_is_taken_off(run: Seq<char>, s: Seq<char>, k: CharClass)
    requires
        forall|i: int| 0 <= i < run.len() ==> k.holds(#[trigger] run[i]),
        s.len() > 0 ==> !k.holds(s[0]),
    ensures
        without_leading(run + s, k) == s,
{
    let all = run + s;
    assert forall|i: int| 0 <= i < run.len() implies k.holds(#[trigger] all[i]) by {
        assert(all[i] == run[i]);
    }
    if s.len() > 0 {
        assert(all[run.len() as int] == s[0]);
    }
    lemma_leading_is(all, k, run.len() as int);
    assert(without_leading(all, k) =~= s);
}

/// A text is trimmed of the white space around it, and of nothing else.
pub proof fn only_white_space_around_is_trimmed(front: Seq<char>, s: Seq<char>, back: Seq<char>)
    requires
        forall|i: int| 0 <= i < front.len() ==> is_white(#[trigger] front[i]),
        forall|i: int| 0 <= i < back.len() ==> is_white(#[trigger] back[i]),
        s.len() > 0 ==> !is_white(s[0]) && !is_white(s.last()),
    ensures
        trimmed(front + s + back) == s,
{
    let k = CharClass::White;
    assert forall|i: int| 0 <= i < front.len() implies k.holds(#[trigger] front[i]) by {
        assert(is_white(front[i]));
    }
    assert forall|i: int| 0 <= i < back.len() implies k.holds(#[trigger] back[i]) by {
        assert(is_white(back[i]));
    }
    if s.len() > 0 {
        assert(front + s + back =~= front + (s + back));
        assert((s + back)[0] == s[0]);
        only_the_front_run_is_taken_off(front, s + back, k);
        only_the_end_run_is_taken_off(s, back, k);
    } else {
        let run = front + back;
        assert(front + s + back =~= run + s);
        assert forall|i: int| 0 <= i < run.len() implies k.holds(#[trigger] run[i]) by {
            if i < front.len() {
                assert(run[i] == front[i]);
            } else {
                assert(run[i] == back[i - front.len()]);
            }
        }
        only_the_front_run_is_taken_off(run, s, k);
        only_the_end_run_is_taken_off(s, Seq::empty(), k);
        assert(s + Seq::<char>::empty() =~= s);
    }
}

/// A numeral is made of the digits from `0` to `9`, and has no zero in front but for
/// the number zero.
pub proof fn a_numeral_is_made_of_digits(n: nat)
    ensures
        decimal(n).len() > 0,
        forall|i: int| 0 <= i < decimal(n).len() ==> '0' <= #[trigger] decimal(n)[i] <= '9',
        decimal(n)[0] == '0' ==> n == 0,
    decreases n,
{
    lemma_decimal_digits(n);
    assert forall|i: int| 0 <= i < decimal(n).len() implies '0' <= #[trigger] decimal(n)[i]
        <= '9' by {
        assert(is_digit(decimal(n)[i]));
    }
    if n >= 10 {
        a_numeral_is_made_of_digits(n / 10);
        lemma_decimal_digits(n / 10);
        assert(decimal(n)[0] == decimal(n / 10)[0]);
    }
}

/// A text stands first where it occurs and does not occur earlier.
pub proof fn a_text_is_found_where_it_first_stands(s: Seq<char>, needle: Seq<char>, i: int)
    ensures
        occurs_at(s, needle, i) && (forall|j: int| 0 <= j < i ==> !#[trigger] occurs_at(s, needle, j))
            ==> place_from(s, needle, 0) == Some(i),
        (forall|j: int| 0 <= j <= s.len() ==> !#[trigger] occurs_at(s, needle, j)) ==> place_from(
            s,
            needle,
            0,
        ) is None,
{
    lemma_place_from(s, needle, 0);
    match place_from(s, needle, 0) {
        Some(k) => {
            assert(occurs_at(s, needle, k));
            if occurs_at(s, needle, i) && k > i {
                assert(!occurs_at(s, needle, i));
            }
        },
        None => {
            if occurs_at(s, needle, i) {
                assert(!occurs_at(s, needle, i));
            }
        },
    }
}

/// The words of a text are its runs without white space, one after the other: what
/// stands in front of the first white space behind a word is that word, and white
/// space alone holds none.
pub proof fn words_are_what_white_space_parts(
    front: Seq<char>,
    word: Seq<char>,
    rest: Seq<char>,
)
    requires
        forall|i: int| 0 <= i < front.len() ==> is_white(#[trigger] front[i]),
        word.len() > 0,
        solid(word),
        rest.len() > 0 ==> is_white(rest[0]),
    ensures
        words(front).len() == 0,
        words(front + word + rest) == seq![word] + words(rest),
{
    let s = front + word + rest;
    assert forall|i: int| 0 <= i < front.len() implies CharClass::White.holds(
        #[trigger] front[i],
    ) by {
        assert(is_white(front[i]));
    }
    let none = Seq::<char>::empty();
    only_the_front_run_is_taken_off(front, none, CharClass::White);
    assert(front + none =~= front);
    assert(s =~= front + (word + rest));
    assert((word + rest)[0] == word[0]);
    only_the_front_run_is_taken_off(front, word + rest, CharClass::White);
    let u = word + rest;
    assert forall|i: int| 0 <= i < word.len() implies CharClass::NonWhite.holds(
        #[trigger] u[i],
    ) by {
        assert(u[i] == word[i]);
    }
    if rest.len() > 0 {
        assert(u[word.len() as int] == rest[0]);
    }
    lemma_leading_is(u, CharClass::NonWhite, word.len() as int);
    assert(u.take(word.len() as int) =~= word);
    assert(u.skip(word.len() as int) =~= rest);
}

/// The lines of a text are what its line ends part: a line in front of a line end is
/// a line of its own, without it and without a carriage return in front of it; what
/// stands behind the last line end is a line where there is something.
pub proof fn lines_are_what_line_ends_part(line: Seq<char>, rest: Seq<char>)
    requires
        forall|i: int| 0 <= i < line.len() ==> #[trigger] line[i] != '\n',
    ensures
        lines(Seq::empty()).len() == 0,
        line.len() > 0 ==> lines(line) == seq![line],
        lines(line + seq!['\n'] + rest) == seq![
            if line.len() > 0 && line.last() == '\r' {
                line.drop_last()
            } else {
                line
            },
        ] + lines(rest),
{
    let s = line + seq!['\n'] + rest;
    lemma_index_or_end(s, '\n');
    lemma_index_or_end(line, '\n');
    let n = index_or_end(s, '\n') as int;
    assert(s[line.len() as int] == '\n');
    if n < line.len() {
        assert(s[n] == line[n]);
    }
    assert(n == line.len());
    let first = s.take(n + 1);
    assert(first =~= line.push('\n'));
    assert(first.drop_last() =~= line);
    assert(s.skip(n + 1) =~= rest);
    let f = |l: Seq<char>| without_line_end(l);
    assert(full_lines(s) == seq![first] + full_lines(rest));
    assert(lines(s) =~= seq![f(first)] + lines(rest));
    let k = index_or_end(line, '\n') as int;
    if k < line.len() {
        assert(line[k] != '\n');
    }
    if line.len() > 0 {
        assert(full_lines(line) =~= seq![line]);
        assert(line.last() != '\n');
        assert(lines(line) =~= seq![line]);
    }
}

/// Each class of characters holds the characters of its name and no other.
pub proof fn a_class_holds_its_own_characters(c: char)
    ensures
        CharClass::Blank.holds(c) <==> c == ' ' || c == '\t',
        CharClass::JsonSpace.holds(c) <==> CharClass::Blank.holds(c) || c == '\n' || c == '\r',
        CharClass::ColonOrBlank.holds(c) <==> CharClass::Blank.holds(c) || c == ':',
        CharClass::Slash.holds(c) <==> c == '/',
        CharClass::Digit.holds(c) <==> 48 <= c as int <= 57,
        CharClass::NonLetter.holds(c) <==> !(65 <= c as int <= 90 || 97 <= c as int <= 122),
        CharClass::White.holds(c) != CharClass::NonWhite.holds(c),
        CharClass::JsonSpace.holds(c) ==> CharClass::White.holds(c),
        CharClass::White.holds(c) && (c as int) < 128 <==> 9 <= c as int <= 13 || c == ' ',
{
}

/// A text holds another exactly where it can be parted into something, the other
/// and something, at the very ends too.
pub proof fn a_text_holds_what_it_is_made_of(
    front: Seq<char>,
    needle: Seq<char>,
    end: Seq<char>,
    s: Seq<char>,
)
    ensures
        occurs_at(front + needle + end, needle, front.len() as int),
        occurs(s, needle) <==> exists|a: Seq<char>, b: Seq<char>|
            s == #[trigger] (a + needle + b),
{
    let whole = front + needle + end;
    assert(whole.subrange(front.len() as int, (front.len() + needle.len()) as int) =~= needle);
    if occurs(s, needle) {
        let i = choose|i: int| occurs_at(s, needle, i);
        let a = s.take(i);
        let b = s.skip(i + needle.len());
        assert(s =~= a + s.subrange(i, i + needle.len()) + b);
        assert(s == a + needle + b);
    }
    if exists|a: Seq<char>, b: Seq<char>| s == #[trigger] (a + needle + b) {
        let (a, b) = choose|a: Seq<char>, b: Seq<char>| s == #[trigger] (a + needle + b);
        assert(s.subrange(a.len() as int, (a.len() + needle.len()) as int) =~= needle);
        assert(occurs_at(s, needle, a.len() as int));
    }
}

} // verus!
