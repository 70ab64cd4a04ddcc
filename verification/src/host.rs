//! The host: where its levers and metrics live, how their raw texts are read,
//! and how its service manager is called.

use vstd::prelude::*;

use crate::json::join_texts;
use crate::provider::{ProviderError, ProviderErrorView};
use crate::text::{
    chars_of, code_text, debug_text, decimal_text, parse_u64, run_end, same_text, split_lines,
    split_words, strip_prefix, text_between, trim, CharClass,
};

verus! {

// ─────────────────────── paths ───────────────────────

/// The ZFS ARC ceiling.
pub const ZFS_ARC_MAX_PATH: &'static str = "/sys/module/zfs/parameters/zfs_arc_max";

/// The ARC statistics.
pub const ZFS_ARCSTATS_PATH: &'static str = "/proc/spl/kstat/zfs/arcstats";

/// The kernel's memory report.
pub const MEMINFO_PATH: &'static str = "/proc/meminfo";

/// The parameters of the ZFS module.
pub const ZFS_PARAM_DIR: &'static str = "/sys/module/zfs/parameters/";

/// The key with its dots turned into slashes.
pub open spec fn slashed(key: Seq<char>) -> Seq<char> {
    key.map_values(
        |c: char|
            if c == '.' {
                '/'
            } else {
                c
            },
    )
}

/// The path of a kernel parameter, by its dotted key.
#[must_use]
pub fn sysctl_path(key: &str) -> (r: String)
    ensures
        r@ == "/proc/sys/"@ + slashed(key@),
{
    let v = chars_of(key);
    let mut r = "/proc/sys/".to_owned();
    let mut i: usize = 0;
    assert("/proc/sys/"@ + slashed(key@.take(0)) =~= "/proc/sys/"@);
    while i < v.len()
        invariant
            i <= v.len(),
            v@ == key@,
            r@ == "/proc/sys/"@ + slashed(key@.take(i as int)),
        decreases v.len() - i,
    {
        r.push(
            if v[i] == '.' {
                '/'
            } else {
                v[i]
            },
        );
        i = i + 1;
        assert(r@ =~= "/proc/sys/"@ + slashed(key@.take(i as int)));
    }
    assert(key@.take(key@.len() as int) =~= key@);
    r
}

/// The path of a ZFS module parameter.
#[must_use]
pub fn zfs_param_path(param: &str) -> (r: String)
    ensures
        r@ == ZFS_PARAM_DIR@ + param@,
{
    let mut r = ZFS_PARAM_DIR.to_owned();
    r.append(param);
    r
}

/// The path of a resource's pressure-stall report.
#[must_use]
pub fn psi_path(resource: &str) -> (r: String)
    ensures
        r@ == "/proc/pressure/"@ + resource@,
{
    let mut r = "/proc/pressure/".to_owned();
    r.append(resource);
    r
}

// ─────────────────────── errors ───────────────────────

/// Why the host could not be read or written.
#[derive(Debug, PartialEq, Eq)]
pub enum HostError {
    /// A file could not be read or written.
    Io(String),
    /// A text is not what was expected.
    Parse(String),
    /// A command failed.
    Command { argv: String, code: Option<i32>, stderr: String },
    /// The lever has no static ceiling.
    NoEnvelope(String),
}

/// A host error with its texts as characters.
pub enum HostErrorView {
    /// A file could not be read or written.
    Io(Seq<char>),
    /// A text is not what was expected.
    Parse(Seq<char>),
    /// A command failed.
    Command { argv: Seq<char>, code: Option<i32>, stderr: Seq<char> },
    /// The lever has no static ceiling.
    NoEnvelope(Seq<char>),
}

impl View for HostError {
    type V = HostErrorView;

    open spec fn view(&self) -> HostErrorView {
        match *self {
            HostError::Io(m) => HostErrorView::Io(m@),
            HostError::Parse(m) => HostErrorView::Parse(m@),
            HostError::Command { argv, code, stderr } => HostErrorView::Command {
                argv: argv@,
                code,
                stderr: stderr@,
            },
            HostError::NoEnvelope(m) => HostErrorView::NoEnvelope(m@),
        }
    }
}

/// A result with its error's texts as characters.
pub open spec fn host_result<T>(r: Result<T, HostError>) -> Result<T, HostErrorView> {
    match r {
        Ok(v) => Ok(v),
        Err(e) => Err(e@),
    }
}

impl HostErrorView {
    /// The error in words.
    pub open spec fn words(self) -> Seq<char> {
        match self {
            HostErrorView::Io(m) => "host io error: "@ + m,
            HostErrorView::Parse(m) => "host parse error: "@ + m,
            HostErrorView::Command { argv, code, stderr } => "`"@ + argv + "` exited "@
                + crate::text::code_words(code) + ": "@ + stderr,
            HostErrorView::NoEnvelope(unit) => "no L2 envelope (ceiling) declared for `"@ + unit
                + "`"@,
        }
    }

    /// What the error means to a provider: a text that cannot be read is a
    /// missing metric, a missing ceiling is permanent, the rest may mend.
    pub open spec fn to_provider(self) -> ProviderErrorView {
        match self {
            HostErrorView::Parse(_) => ProviderErrorView::MetricsMissing,
            HostErrorView::NoEnvelope(m) => ProviderErrorView::ApiPermanent(m),
            HostErrorView::Io(m) => ProviderErrorView::ApiTransient(m),
            HostErrorView::Command { .. } => ProviderErrorView::ApiTransient(self.words()),
        }
    }
}

impl Clone for HostError {
    fn clone(&self) -> (r: Self)
        ensures
            r == *self,
    {
        match self {
            HostError::Io(m) => HostError::Io(m.clone()),
            HostError::Parse(m) => HostError::Parse(m.clone()),
            HostError::Command { argv, code, stderr } => HostError::Command {
                argv: argv.clone(),
                code: *code,
                stderr: stderr.clone(),
            },
            HostError::NoEnvelope(m) => HostError::NoEnvelope(m.clone()),
        }
    }
}

impl HostError {
    /// The error in words.
    #[must_use]
    pub fn message(&self) -> (r: String)
        ensures
            r@ == self@.words(),
    {
        match self {
            HostError::Io(m) => {
                let mut s = "host io error: ".to_owned();
                s.append(m.as_str());
                s
            },
            HostError::Parse(m) => {
                let mut s = "host parse error: ".to_owned();
                s.append(m.as_str());
                s
            },
            HostError::Command { argv, code, stderr } => {
                let mut s = "`".to_owned();
                s.append(argv.as_str());
                s.append("` exited ");
                s.append(code_text(*code).as_str());
                s.append(": ");
                s.append(stderr.as_str());
                s
            },
            HostError::NoEnvelope(unit) => {
                let mut s = "no L2 envelope (ceiling) declared for `".to_owned();
                s.append(unit.as_str());
                s.append("`");
                s
            },
        }
    }

    /// What the error means to a provider.
    #[must_use]
    pub fn into_provider(self) -> (r: ProviderError)
        ensures
            r@ == self@.to_provider(),
    {
        match self {
            HostError::Parse(_) => ProviderError::MetricsMissing,
            HostError::NoEnvelope(m) => ProviderError::ApiPermanent(m),
            HostError::Io(m) => ProviderError::ApiTransient(m),
            HostError::Command { argv, code, stderr } => {
                let e = HostError::Command { argv, code, stderr };
                ProviderError::ApiTransient(e.message())
            },
        }
    }

    /// That a text is not what was expected.
    pub fn parse(words: &str) -> (r: Self)
        ensures
            r@ == HostErrorView::Parse(words@),
    {
        HostError::Parse(words.to_owned())
    }
}

// ─────────────────────── reading the host's texts ───────────────────────

/// The number that a text stands for.
pub open spec fn number_of(s: Seq<char>) -> Result<u64, HostErrorView> {
    match crate::text::parsed_u64(s) {
        Ok(n) => Ok(n),
        Err(e) => Err(HostErrorView::Parse(e.words())),
    }
}

fn number(s: &str) -> (r: Result<u64, HostError>)
    ensures
        host_result(r) == number_of(s@),
{
    match parse_u64(s) {
        Ok(n) => Ok(n),
        Err(e) => Err(HostError::Parse(e.message())),
    }
}

/// The number in a file that holds nothing else but white space.
pub fn parse_sysfs_u64(raw: &str) -> (r: Result<u64, HostError>)
    ensures
        host_result(r) == number_of(crate::text::trimmed(raw@)),
{
    number(trim(raw).as_str())
}

/// The last column of the first line whose first word is `row`.
pub open spec fn arcstats_row_of(lines: Seq<Seq<char>>, row: Seq<char>) -> Result<
    u64,
    HostErrorView,
>
    decreases lines.len(),
{
    if lines.len() == 0 {
        Err(HostErrorView::Parse("arcstats has no such row"@))
    } else {
        let w = crate::text::words(lines[0]);
        if w.len() > 0 && w[0] == row {
            if w.len() == 1 {
                Err(HostErrorView::Parse("arcstats row has no data column"@))
            } else {
                number_of(w.last())
            }
        } else {
            arcstats_row_of(lines.drop_first(), row)
        }
    }
}

/// The data of a row of the ARC statistics.
pub fn parse_arcstats_row(text: &str, row: &str) -> (r: Result<u64, HostError>)
    ensures
        host_result(r) == arcstats_row_of(crate::text::lines(text@), row@),
{
    let lines = split_lines(text);
    let ghost all = crate::text::texts(lines@);
    let mut i: usize = 0;
    assert(all.skip(0) =~= all);
    while i < lines.len()
        invariant
            i <= lines.len(),
            all == crate::text::texts(lines@),
            all == crate::text::lines(text@),
            arcstats_row_of(all, row@) == arcstats_row_of(all.skip(i as int), row@),
        decreases lines.len() - i,
    {
        assert(all.skip(i as int)[0] == lines@[i as int]@);
        assert(all.skip(i as int).drop_first() =~= all.skip(i + 1));
        let w = split_words(lines[i].as_str());
        assert(crate::text::texts(w@) == crate::text::words(lines@[i as int]@));
        if w.len() > 0 {
            assert(crate::text::texts(w@)[0] == w@[0]@);
            assert(crate::text::texts(w@).last() == w@.last()@);
            if same_text(w[0].as_str(), row) {
                if w.len() == 1 {
                    return Err(HostError::parse("arcstats row has no data column"));
                }
                return number(w[w.len() - 1].as_str());
            }
        }
        i = i + 1;
    }
    Err(HostError::parse("arcstats has no such row"))
}

/// `n` thousand-and-twenty-fours, or the largest number where that is more.
pub open spec fn kibibytes(n: u64) -> u64 {
    if n * 1024 > u64::MAX {
        u64::MAX
    } else {
        (n * 1024) as u64
    }
}

/// What stands behind the field's label: a number, in bytes where its unit is
/// the kernel's `kB`.
pub open spec fn meminfo_value(rest: Seq<char>) -> Result<u64, HostErrorView> {
    let w = crate::text::words(rest);
    if w.len() == 0 {
        Err(HostErrorView::Parse("meminfo field has no value"@))
    } else {
        match number_of(w[0]) {
            Ok(n) => Ok(
                if w.len() > 1 && w[1] == "kB"@ {
                    kibibytes(n)
                } else {
                    n
                },
            ),
            Err(e) => Err(e),
        }
    }
}

/// The value on the first line that is labelled with the field.
pub open spec fn meminfo_field_of(lines: Seq<Seq<char>>, field: Seq<char>) -> Result<
    u64,
    HostErrorView,
>
    decreases lines.len(),
{
    if lines.len() == 0 {
        Err(HostErrorView::Parse("meminfo has no such field"@))
    } else if crate::text::starts(lines[0], field + ":"@) {
        meminfo_value(lines[0].skip((field + ":"@).len() as int))
    } else {
        meminfo_field_of(lines.drop_first(), field)
    }
}

fn read_meminfo_value(rest: &str) -> (r: Result<u64, HostError>)
    ensures
        host_result(r) == meminfo_value(rest@),
{
    let w = split_words(rest);
    let ghost all = crate::text::texts(w@);
    assert(all == crate::text::words(rest@));
    if w.len() == 0 {
        return Err(HostError::parse("meminfo field has no value"));
    }
    assert(all[0] == w@[0]@);
    match number(w[0].as_str()) {
        Err(e) => Err(e),
        Ok(n) => {
            let mut kb = false;
            if w.len() > 1 {
                assert(all[1] == w@[1]@);
                kb = same_text(w[1].as_str(), "kB");
            }
            if !kb {
                return Ok(n);
            }
            match n.checked_mul(1024) {
                Some(b) => Ok(b),
                None => Ok(u64::MAX),
            }
        },
    }
}

/// A field of the kernel's memory report, in bytes where it is printed in `kB`.
pub fn parse_meminfo_field(text: &str, field: &str) -> (r: Result<u64, HostError>)
    ensures
        host_result(r) == meminfo_field_of(crate::text::lines(text@), field@),
{
    let lines = split_lines(text);
    let ghost all = crate::text::texts(lines@);
    let mut label = field.to_owned();
    label.append(":");
    let mut i: usize = 0;
    assert(all.skip(0) =~= all);
    while i < lines.len()
        invariant
            i <= lines.len(),
            all == crate::text::texts(lines@),
            all == crate::text::lines(text@),
            label@ == field@ + ":"@,
            meminfo_field_of(all, field@) == meminfo_field_of(all.skip(i as int), field@),
        decreases lines.len() - i,
    {
        assert(all.skip(i as int)[0] == lines@[i as int]@);
        assert(all.skip(i as int).drop_first() =~= all.skip(i + 1));
        match strip_prefix(lines[i].as_str(), label.as_str()) {
            Some(rest) => {
                return read_meminfo_value(rest.as_str());
            },
            None => {},
        }
        i = i + 1;
    }
    Err(HostError::parse("meminfo has no such field"))
}

/// What stands behind the prefix in the first word that starts with it.
pub open spec fn first_behind(words: Seq<Seq<char>>, prefix: Seq<char>) -> Option<Seq<char>>
    decreases words.len(),
{
    if words.len() == 0 {
        None
    } else if crate::text::starts(words[0], prefix) {
        Some(words[0].skip(prefix.len() as int))
    } else {
        first_behind(words.drop_first(), prefix)
    }
}

fn find_behind(words: &Vec<String>, prefix: &str) -> (r: Option<String>)
    ensures
        match r {
            Some(s) => first_behind(crate::text::texts(words@), prefix@) == Some(s@),
            None => first_behind(crate::text::texts(words@), prefix@) is None,
        },
{
    let ghost all = crate::text::texts(words@);
    let mut i: usize = 0;
    assert(all.skip(0) =~= all);
    while i < words.len()
        invariant
            i <= words.len(),
            all == crate::text::texts(words@),
            first_behind(all, prefix@) == first_behind(all.skip(i as int), prefix@),
        decreases words.len() - i,
    {
        assert(all.skip(i as int)[0] == words@[i as int]@);
        assert(all.skip(i as int).drop_first() =~= all.skip(i + 1));
        match strip_prefix(words[i].as_str(), prefix) {
            Some(rest) => {
                return Some(rest);
            },
            None => {},
        }
        i = i + 1;
    }
    None
}

/// The first ten-second average on a line of the kind.
pub open spec fn psi_avg10_of(lines: Seq<Seq<char>>, kind: Seq<char>) -> Result<
    Seq<char>,
    HostErrorView,
>
    decreases lines.len(),
{
    if lines.len() == 0 {
        Err(HostErrorView::Parse("PSI line/avg10 not found"@))
    } else if crate::text::starts(lines[0], kind) {
        match first_behind(crate::text::words(lines[0].skip(kind.len() as int)), "avg10="@) {
            Some(v) => Ok(v),
            None => psi_avg10_of(lines.drop_first(), kind),
        }
    } else {
        psi_avg10_of(lines.drop_first(), kind)
    }
}

/// The numeral of the ten-second average in a pressure-stall report: a
/// percentage with decimals.
pub fn find_psi_avg10(text: &str, kind: &str) -> (r: Result<String, HostError>)
    ensures
        match r {
            Ok(v) => psi_avg10_of(crate::text::lines(text@), kind@) == Ok::<
                Seq<char>,
                HostErrorView,
            >(v@),
            Err(e) => psi_avg10_of(crate::text::lines(text@), kind@) == Err::<
                Seq<char>,
                HostErrorView,
            >(e@),
        },
{
    let lines = split_lines(text);
    let ghost all = crate::text::texts(lines@);
    let mut i: usize = 0;
    assert(all.skip(0) =~= all);
    while i < lines.len()
        invariant
            i <= lines.len(),
            all == crate::text::texts(lines@),
            all == crate::text::lines(text@),
            psi_avg10_of(all, kind@) == psi_avg10_of(all.skip(i as int), kind@),
        decreases lines.len() - i,
    {
        assert(all.skip(i as int)[0] == lines@[i as int]@);
        assert(all.skip(i as int).drop_first() =~= all.skip(i + 1));
        match strip_prefix(lines[i].as_str(), kind) {
            Some(rest) => {
                let w = split_words(rest.as_str());
                match find_behind(&w, "avg10=") {
                    Some(v) => {
                        return Ok(v);
                    },
                    None => {},
                }
            },
            None => {},
        }
        i = i + 1;
    }
    Err(HostError::parse("PSI line/avg10 not found"))
}

/// The words for a property whose text is no number.
pub open spec fn bad_property(property: Seq<char>, t: Seq<char>, e: crate::text::IntParseError) -> Seq<
    char,
> {
    property + "="@ + crate::text::debug_quoted(t) + ": "@ + e.words()
}

fn bad_property_text(property: &str, t: &str, e: crate::text::IntParseError) -> (r: String)
    ensures
        r@ == bad_property(property@, t@, e),
{
    let mut s = property.to_owned();
    s.append("=");
    s.append(debug_text(t).as_str());
    s.append(": ");
    s.append(e.message().as_str());
    s
}

/// The memory that a unit holds, as the service manager prints it.
pub fn parse_memory_current(v: &str) -> (r: Result<u64, HostError>)
    ensures
        host_result(r) == match crate::text::parsed_u64(crate::text::trimmed(v@)) {
            Ok(n) => Ok::<u64, HostErrorView>(n),
            Err(e) => Err(HostErrorView::Parse(bad_property("MemoryCurrent"@, v@, e))),
        },
{
    match parse_u64(trim(v).as_str()) {
        Ok(n) => Ok(n),
        Err(e) => Err(HostError::Parse(bad_property_text("MemoryCurrent", v, e))),
    }
}

/// A numeric property of a unit: nothing where it is unset or unbounded.
pub open spec fn unit_number_of(property: Seq<char>, v: Seq<char>) -> Result<
    Option<u64>,
    HostErrorView,
> {
    let t = crate::text::trimmed(v);
    if t.len() == 0 || t == "infinity"@ || t == "[not set]"@ {
        Ok(None)
    } else {
        match crate::text::parsed_u64(t) {
            Ok(n) => Ok(Some(n)),
            Err(e) => Err(HostErrorView::Parse(bad_property(property, t, e))),
        }
    }
}

/// A numeric property of a unit, as the service manager prints it.
pub fn parse_unit_number(property: &str, v: &str) -> (r: Result<Option<u64>, HostError>)
    ensures
        host_result(r) == unit_number_of(property@, v@),
{
    let t = trim(v);
    if is_blank(t.as_str()) || same_text(t.as_str(), "infinity") || same_text(
        t.as_str(),
        "[not set]",
    ) {
        return Ok(None);
    }
    match parse_u64(t.as_str()) {
        Ok(n) => Ok(Some(n)),
        Err(e) => Err(HostError::Parse(bad_property_text(property, t.as_str(), e))),
    }
}

fn is_blank(s: &str) -> (r: bool)
    ensures
        r == (s@.len() == 0),
{
    chars_of(s).len() == 0
}

/// A unit's accumulated cpu time: it must be set.
pub open spec fn cpu_usage_of(v: Seq<char>) -> Result<u64, HostErrorView> {
    let t = crate::text::trimmed(v);
    if t.len() == 0 || t == "[not set]"@ || t == "infinity"@ {
        Err(
            HostErrorView::Parse("CPUUsageNSec unavailable: "@ + crate::text::debug_quoted(t)),
        )
    } else {
        match crate::text::parsed_u64(t) {
            Ok(n) => Ok(n),
            Err(e) => Err(HostErrorView::Parse(bad_property("CPUUsageNSec"@, t, e))),
        }
    }
}

/// A unit's accumulated cpu time in nanoseconds, as the service manager prints it.
pub fn parse_cpu_usage_nsec(v: &str) -> (r: Result<u64, HostError>)
    ensures
        host_result(r) == cpu_usage_of(v@),
{
    let t = trim(v);
    if is_blank(t.as_str()) || same_text(t.as_str(), "[not set]") || same_text(
        t.as_str(),
        "infinity",
    ) {
        let mut s = "CPUUsageNSec unavailable: ".to_owned();
        s.append(debug_text(t.as_str()).as_str());
        return Err(HostError::Parse(s));
    }
    match parse_u64(t.as_str()) {
        Ok(n) => Ok(n),
        Err(e) => Err(HostError::Parse(bad_property_text("CPUUsageNSec", t.as_str(), e))),
    }
}

/// A property of a unit as it is printed: nothing where it is unset.
pub fn parse_unit_text(v: &str) -> (r: Option<String>)
    ensures
        ({
            let t = crate::text::trimmed(v@);
            match r {
                None => t.len() == 0 || t == "[not set]"@,
                Some(s) => s@ == t && t.len() > 0 && t != "[not set]"@,
            }
        }),
{
    let t = trim(v);
    if is_blank(t.as_str()) || same_text(t.as_str(), "[not set]") {
        None
    } else {
        Some(t)
    }
}

// ─────────────────────── rates and quotas ───────────────────────

/// The number, or the largest that fits.
pub open spec fn capped(n: nat) -> u64 {
    if n > u64::MAX {
        u64::MAX
    } else {
        n as u64
    }
}

/// `delta` spread over `window`, in units of `scale` per unit; nothing over an
/// empty window.
pub open spec fn rate_of(delta: u64, scale: nat, window: u128) -> u64 {
    if window == 0 {
        0
    } else {
        capped(delta as nat * scale / window as nat)
    }
}

fn rate(delta: u64, scale: u64, window: u128) -> (r: u64)
    ensures
        r == rate_of(delta, scale as nat, window),
{
    if window == 0 {
        return 0;
    }
    assert(delta * scale <= u64::MAX * u64::MAX) by (nonlinear_arith)
        requires
            0 <= delta <= u64::MAX,
            0 <= scale <= u64::MAX,
    ;
    let q: u128 = (delta as u128) * (scale as u128) / window;
    if q > u64::MAX as u128 {
        u64::MAX
    } else {
        q as u64
    }
}

/// The cpu rate, in thousandths of a core: cpu nanoseconds over wall nanoseconds.
#[must_use]
pub fn cpu_millicores(delta_nsec: u64, window_nsec: u128) -> (r: u64)
    ensures
        r == rate_of(delta_nsec, 1000, window_nsec),
{
    rate(delta_nsec, 1000, window_nsec)
}

/// The rate per second of a counter over wall nanoseconds.
#[must_use]
pub fn io_rate_per_sec(delta: u64, window_nanos: u128) -> (r: u64)
    ensures
        r == rate_of(delta, 1_000_000_000, window_nanos),
{
    rate(delta, 1_000_000_000, window_nanos)
}

/// How many microseconds a unit of time holds.
pub open spec fn unit_usec(unit: Seq<char>) -> Option<nat> {
    if unit == "us"@ {
        Some(1)
    } else if unit == "ms"@ {
        Some(1_000)
    } else if unit == "s"@ {
        Some(1_000_000)
    } else if unit == "min"@ {
        Some(60_000_000)
    } else if unit == "h"@ {
        Some(3_600_000_000)
    } else if unit == "d"@ {
        Some(86_400_000_000)
    } else {
        None
    }
}

fn unit_multiplier(unit: &str) -> (r: Option<u64>)
    ensures
        match r {
            Some(m) => unit_usec(unit@) == Some(m as nat),
            None => unit_usec(unit@) is None,
        },
{
    if same_text(unit, "us") {
        Some(1)
    } else if same_text(unit, "ms") {
        Some(1_000)
    } else if same_text(unit, "s") {
        Some(1_000_000)
    } else if same_text(unit, "min") {
        Some(60_000_000)
    } else if same_text(unit, "h") {
        Some(3_600_000_000)
    } else if same_text(unit, "d") {
        Some(86_400_000_000)
    } else {
        None
    }
}

/// The microseconds of one component of a timespan: a number, and from its
/// first letter on a unit.
pub open spec fn token_usec(token: Seq<char>) -> Option<nat> {
    let k = crate::text::leading(token, CharClass::NonLetter) as int;
    if k >= token.len() {
        None
    } else {
        match (crate::text::parsed_u64(token.take(k)), unit_usec(token.skip(k))) {
            (Ok(n), Some(m)) => Some(n as nat * m),
            _ => None,
        }
    }
}

/// The microseconds of all components together.
pub open spec fn tokens_usec(tokens: Seq<Seq<char>>) -> Option<nat>
    decreases tokens.len(),
{
    if tokens.len() == 0 {
        Some(0)
    } else {
        match (tokens_usec(tokens.drop_last()), token_usec(tokens.last())) {
            (Some(a), Some(b)) => Some(a + b),
            _ => None,
        }
    }
}

/// A timespan in microseconds: `infinity` is unbounded, an unreadable one or
/// one that does not fit is an error.
pub open spec fn quota_usec(s: Seq<char>) -> Result<Option<u64>, ()> {
    let t = crate::text::trimmed(s);
    let tokens = crate::text::words(t);
    if t == "infinity"@ {
        Ok(None)
    } else if tokens.len() == 0 {
        Err(())
    } else {
        match tokens_usec(tokens) {
            Some(n) => if n <= u64::MAX {
                Ok(Some(n as u64))
            } else {
                Err(())
            },
            None => Err(()),
        }
    }
}

/// The components beyond the first `k` never lessen what the first `k` come to.
proof fn lemma_tokens_grow(tokens: Seq<Seq<char>>, k: int)
    requires
        0 <= k <= tokens.len(),
    ensures
        tokens_usec(tokens.take(k)) is None ==> tokens_usec(tokens) is None,
        tokens_usec(tokens.take(k)) matches Some(a) ==> (tokens_usec(tokens) matches Some(b) ==> a
            <= b),
    decreases tokens.len() - k,
{
    if k == tokens.len() {
        assert(tokens.take(k) =~= tokens);
    } else {
        lemma_tokens_grow(tokens, k + 1);
        assert(tokens.take(k + 1).drop_last() =~= tokens.take(k));
    }
}

fn token_value(token: &str) -> (r: Option<u64>)
    ensures
        match r {
            Some(n) => token_usec(token@) == Some(n as nat),
            None => token_usec(token@) matches Some(n) ==> n > u64::MAX,
        },
{
    let v = chars_of(token);
    assert(v@.subrange(0, v.len() as int) =~= token@);
    let k: usize = run_end(&v, 0, v.len(), CharClass::NonLetter);
    if k == v.len() {
        return None;
    }
    assert(v@.subrange(0, k as int) =~= token@.take(k as int));
    assert(v@.subrange(k as int, v.len() as int) =~= token@.skip(k as int));
    let n: u64 = match parse_u64(text_between(&v, 0, k).as_str()) {
        Ok(n) => n,
        Err(_) => {
            return None;
        },
    };
    match unit_multiplier(text_between(&v, k, v.len()).as_str()) {
        Some(m) => n.checked_mul(m),
        None => None,
    }
}

/// Reads a timespan such as `1min 30s` into microseconds.
pub fn parse_cpu_quota_usec(s: &str) -> (r: Result<Option<u64>, ()>)
    ensures
        r == quota_usec(s@),
{
    let t = trim(s);
    if same_text(t.as_str(), "infinity") {
        return Ok(None);
    }
    let tokens = split_words(t.as_str());
    let ghost all = crate::text::texts(tokens@);
    if tokens.len() == 0 {
        return Err(());
    }
    let mut total: u64 = 0;
    let mut i: usize = 0;
    assert(all.take(0) =~= Seq::<Seq<char>>::empty());
    while i < tokens.len()
        invariant
            i <= tokens.len(),
            tokens.len() > 0,
            all == crate::text::texts(tokens@),
            all == crate::text::words(crate::text::trimmed(s@)),
            crate::text::trimmed(s@) != "infinity"@,
            tokens_usec(all.take(i as int)) == Some(total as nat),
        decreases tokens.len() - i,
    {
        proof {
            assert(all.take(i + 1).drop_last() =~= all.take(i as int));
            assert(all.take(i + 1).last() == tokens@[i as int]@);
            lemma_tokens_grow(all, i + 1);
        }
        match token_value(tokens[i].as_str()) {
            None => {
                return Err(());
            },
            Some(n) => match total.checked_add(n) {
                None => {
                    return Err(());
                },
                Some(sum) => {
                    total = sum;
                },
            },
        }
        i = i + 1;
    }
    assert(all.take(all.len() as int) =~= all);
    Ok(Some(total))
}

/// The cap of a device in a list of devices and caps.
pub open spec fn device_cap(words: Seq<Seq<char>>, device: Seq<char>) -> Option<u64>
    decreases words.len(),
{
    if words.len() < 2 {
        None
    } else if words[0] == device {
        match crate::text::parsed_u64(words[1]) {
            Ok(n) => Some(n),
            Err(_) => None,
        }
    } else {
        device_cap(words.skip(2), device)
    }
}

/// The cap of a device in a text such as `8:0 1000 259:0 2000`.
#[must_use]
pub fn parse_io_max_for_device(raw: &str, device: &str) -> (r: Option<u64>)
    ensures
        r == device_cap(crate::text::words(raw@), device@),
{
    let words = split_words(raw);
    let ghost all = crate::text::texts(words@);
    let mut i: usize = 0;
    assert(all.skip(0) =~= all);
    while words.len() - i >= 2
        invariant
            i <= words.len(),
            all == crate::text::texts(words@),
            all == crate::text::words(raw@),
            device_cap(all, device@) == device_cap(all.skip(i as int), device@),
        decreases words.len() - i,
    {
        assert(all.skip(i as int)[0] == words@[i as int]@);
        assert(all.skip(i as int)[1] == words@[i + 1]@);
        assert(all.skip(i as int).skip(2) =~= all.skip(i + 2));
        if same_text(words[i].as_str(), device) {
            return match parse_u64(words[i + 1].as_str()) {
                Ok(n) => Some(n),
                Err(_) => None,
            };
        }
        i = i + 2;
    }
    None
}

// ─────────────────────── the service manager ───────────────────────

/// How the host's files and its service manager are reached.
#[derive(Debug, PartialEq, Eq)]
pub struct SystemdSysfsEnv {
    root: String,
    nsenter_pid: Option<u32>,
    systemctl_bin: String,
}

impl Clone for SystemdSysfsEnv {
    fn clone(&self) -> (r: Self)
        ensures
            r == *self,
    {
        SystemdSysfsEnv {
            root: self.root.clone(),
            nsenter_pid: self.nsenter_pid,
            systemctl_bin: self.systemctl_bin.clone(),
        }
    }
}

impl Default for SystemdSysfsEnv {
    fn default() -> (r: Self)
        ensures
            r.prefix().len() == 0,
            r.entered() is None,
            r.program() == "systemctl"@,
    {
        let root = String::new();
        SystemdSysfsEnv { root, nsenter_pid: None, systemctl_bin: "systemctl".to_owned() }
    }
}

/// The process that a setting names, where it names one.
pub open spec fn pid_of(setting: Option<String>) -> Option<u32> {
    match setting {
        None => None,
        Some(s) => match crate::text::parsed_u64(s@) {
            Ok(n) => if n <= u32::MAX {
                Some(n as u32)
            } else {
                None
            },
            Err(_) => None,
        },
    }
}

/// The arguments that print one property of a unit.
pub fn show_args(unit: &str, property: &str) -> (r: Vec<String>)
    ensures
        crate::text::texts(r@) == seq!["show"@, unit@, "-p"@, property@, "--value"@],
{
    let r = vec![
        "show".to_owned(),
        unit.to_owned(),
        "-p".to_owned(),
        property.to_owned(),
        "--value".to_owned(),
    ];
    assert(crate::text::texts(r@) =~= seq!["show"@, unit@, "-p"@, property@, "--value"@]);
    r
}

/// The arguments that set one property of a unit until the next boot.
pub fn set_args(unit: &str, property: &str, value: &str) -> (r: Vec<String>)
    ensures
        crate::text::texts(r@) == seq![
            "set-property"@,
            "--runtime"@,
            unit@,
            property@ + "="@ + value@,
        ],
{
    let mut assignment = property.to_owned();
    assignment.append("=");
    assignment.append(value);
    let r = vec![
        "set-property".to_owned(),
        "--runtime".to_owned(),
        unit.to_owned(),
        assignment,
    ];
    assert(crate::text::texts(r@) =~= seq![
        "set-property"@,
        "--runtime"@,
        unit@,
        property@ + "="@ + value@,
    ]);
    r
}

/// The views of a slice of texts.
pub open spec fn arg_texts(args: Seq<&str>) -> Seq<Seq<char>> {
    args.map_values(|s: &str| s@)
}

/// The program and the arguments that call the service manager, through the
/// namespaces of a process where one is given.
pub open spec fn invocation_of(
    nsenter_pid: Option<u32>,
    systemctl_bin: Seq<char>,
    args: Seq<Seq<char>>,
) -> (Seq<char>, Seq<Seq<char>>) {
    match nsenter_pid {
        Some(pid) => (
            "nsenter"@,
            seq![
                "-t"@,
                crate::text::decimal(pid as nat),
                "-m"@,
                "-u"@,
                "-i"@,
                "-n"@,
                "-p"@,
                "--"@,
                systemctl_bin,
            ] + args,
        ),
        None => (systemctl_bin, args),
    }
}

impl SystemdSysfsEnv {
    /// What every path is prefixed with.
    pub closed spec fn prefix(self) -> Seq<char> {
        self.root@
    }

    /// The process whose namespaces are entered.
    pub closed spec fn entered(self) -> Option<u32> {
        self.nsenter_pid
    }

    /// The service manager's program.
    pub closed spec fn program(self) -> Seq<char> {
        self.systemctl_bin@
    }

    /// The host as its settings describe it: a prefix for paths, the process
    /// whose namespaces are entered, and the service manager's program.
    #[must_use]
    pub fn from_settings(
        host_root: Option<String>,
        nsenter_pid: Option<String>,
        systemctl_bin: Option<String>,
    ) -> (r: Self)
        ensures
            r.prefix() == match host_root {
                Some(s) => s@,
                None => Seq::<char>::empty(),
            },
            r.entered() == pid_of(nsenter_pid),
            r.program() == match systemctl_bin {
                Some(s) => s@,
                None => "systemctl"@,
            },
    {
        let pid: Option<u32> = match &nsenter_pid {
            None => None,
            Some(s) => match parse_u64(s.as_str()) {
                Ok(n) => if n <= u32::MAX as u64 {
                    Some(n as u32)
                } else {
                    None
                },
                Err(_) => None,
            },
        };
        let root = match host_root {
            Some(s) => s,
            None => String::new(),
        };
        let bin = match systemctl_bin {
            Some(s) => s,
            None => "systemctl".to_owned(),
        };
        let r = SystemdSysfsEnv { root, nsenter_pid: pid, systemctl_bin: bin };
        assert(host_root is None ==> r.prefix() =~= Seq::<char>::empty());
        r
    }

    /// The host behind a prefix for paths.
    #[must_use]
    pub fn with_root(root: &str) -> (r: Self)
        ensures
            r.prefix() == root@,
            r.entered() is None,
            r.program() == "systemctl"@,
    {
        SystemdSysfsEnv {
            root: root.to_owned(),
            nsenter_pid: None,
            systemctl_bin: "systemctl".to_owned(),
        }
    }

    /// An absolute path of the host, behind the prefix.
    #[must_use]
    pub fn at(&self, abs: &str) -> (r: String)
        ensures
            r@ == self.prefix() + abs@,
    {
        let mut s = self.root.clone();
        s.append(abs);
        s
    }

    /// The program and the arguments that call the service manager.
    #[must_use]
    pub fn systemctl_invocation(
        nsenter_pid: Option<u32>,
        systemctl_bin: &str,
        args: &[&str],
    ) -> (r: (String, Vec<String>))
        ensures
            (r.0@, crate::text::texts(r.1@)) == invocation_of(
                nsenter_pid,
                systemctl_bin@,
                arg_texts(args@),
            ),
    {
        let (program, mut argv): (String, Vec<String>) = match nsenter_pid {
            Some(pid) => (
                "nsenter".to_owned(),
                vec![
                    "-t".to_owned(),
                    decimal_text(pid as u64),
                    "-m".to_owned(),
                    "-u".to_owned(),
                    "-i".to_owned(),
                    "-n".to_owned(),
                    "-p".to_owned(),
                    "--".to_owned(),
                    systemctl_bin.to_owned(),
                ],
            ),
            None => (systemctl_bin.to_owned(), Vec::new()),
        };
        let ghost head = crate::text::texts(argv@);
        let mut i: usize = 0;
        assert(head + arg_texts(args@.take(0)) =~= head);
        while i < args.len()
            invariant
                i <= args.len(),
                crate::text::texts(argv@) == head + arg_texts(args@.take(i as int)),
            decreases args.len() - i,
        {
            broadcast use crate::text::lemma_texts_push;

            argv.push(args[i].to_owned());
            i = i + 1;
            assert(crate::text::texts(argv@) =~= head + arg_texts(args@.take(i as int)));
        }
        assert(args@.take(args@.len() as int) =~= args@);
        proof {
            let want = invocation_of(nsenter_pid, systemctl_bin@, arg_texts(args@));
            assert(crate::text::texts(argv@) =~= want.1);
        }
        (program, argv)
    }

    /// The program and the arguments that call this host's service manager.
    #[must_use]
    pub fn invocation(&self, args: &[&str]) -> (r: (String, Vec<String>))
        ensures
            (r.0@, crate::text::texts(r.1@)) == invocation_of(
                self.entered(),
                self.program(),
                arg_texts(args@),
            ),
    {
        Self::systemctl_invocation(self.nsenter_pid, self.systemctl_bin.as_str(), args)
    }
}

/// How a command line is printed: the program and its arguments, with blanks
/// between them.
pub open spec fn command_line(program: Seq<char>, argv: Seq<Seq<char>>) -> Seq<char> {
    program + " "@ + crate::json::joined(argv, " "@)
}

/// A command line printed.
pub fn command_line_text(program: &str, argv: &Vec<String>) -> (r: String)
    ensures
        r@ == command_line(program@, crate::text::texts(argv@)),
{
    let mut s = program.to_owned();
    s.append(" ");
    s.append(join_texts(argv, " ").as_str());
    s
}

/// What a finished command comes to: its output without white space at either
/// end, or the failure.
pub fn finished_command(
    program: &str,
    argv: &Vec<String>,
    success: bool,
    code: Option<i32>,
    stdout: &str,
    stderr: &str,
) -> (r: Result<String, HostError>)
    ensures
        match r {
            Ok(out) => success && out@ == crate::text::trimmed(stdout@),
            Err(e) => !success && e@ == (HostErrorView::Command {
                argv: command_line(program@, crate::text::texts(argv@)),
                code,
                stderr: crate::text::trimmed(stderr@),
            }),
        },
{
    if !success {
        return Err(
            HostError::Command {
                argv: command_line_text(program, argv),
                code,
                stderr: trim(stderr),
            },
        );
    }
    Ok(trim(stdout))
}

} // verus!
