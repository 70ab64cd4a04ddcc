//! What the host's texts say, and what is made of them.

use vstd::prelude::*;

use crate::dimension::{Sample, Target};
use crate::host::{
    arcstats_row_of, bad_property, cpu_usage_of, device_cap, first_behind, invocation_of,
    meminfo_field_of, meminfo_value, number_of, pid_of, psi_avg10_of, quota_usec, rate_of, slashed,
    token_usec, tokens_usec, unit_number_of, unit_usec, HostError, HostErrorView,
};
use crate::host_cluster::{
    arc_limit_of, io_limit_of, limit_outcome, metric_read, or_nothing, planned_write,
    property_limit_of, quota_limit_of, rate_since, rated, used_outcome, write_of, ArcDescriptor,
    CgroupCpuDescriptor, CgroupMemoryDescriptor, EnvelopesView, HostEnvironment,
    HostParamDescriptor, HostRead, HostWriteView,
};
use crate::layout::{HostKnob, HostMetric, IoMaxField, LimitLayout, MetricSource, SsaPatch};
use crate::provider::{DimensionDescriptor, ProviderErrorView};
use crate::text::{decimal, parsed_u64, starts, trimmed, words, CharClass};

verus! {

// ─────────────────────── numbers ───────────────────────

/// A number that stands alone, with white space around it or not, is read as that
/// number.
pub proof fn a_number_with_white_space_around_is_read(
    front: Seq<char>,
    n: u64,
    back: Seq<char>,
    property: Seq<char>,
)
    requires
        forall|i: int| 0 <= i < front.len() ==> crate::text::is_white(#[trigger] front[i]),
        forall|i: int| 0 <= i < back.len() ==> crate::text::is_white(#[trigger] back[i]),
    ensures
        ({
            let s = front + decimal(n as nat) + back;
            &&& trimmed(s) == decimal(n as nat)
            &&& number_of(trimmed(s)) == Ok::<u64, HostErrorView>(n)
            &&& unit_number_of(property, s) == Ok::<Option<u64>, HostErrorView>(Some(n))
            &&& cpu_usage_of(s) == Ok::<u64, HostErrorView>(n)
        }),
{
    let d = decimal(n as nat);
    crate::text::lemma_decimal_is_solid(n as nat);
    crate::text::a_numeral_is_made_of_digits(n as nat);
    assert(!crate::text::is_white(d[0]));
    assert(!crate::text::is_white(d[d.len() - 1]));
    crate::text::only_white_space_around_is_trimmed(front, d, back);
    crate::text::a_number_reads_back_from_its_numeral(n);
    reveal_strlit("infinity");
    reveal_strlit("[not set]");
    assert("infinity"@[0] == 'i');
    assert("[not set]"@[0] == '[');
    assert('0' <= d[0] <= '9');
}

/// A property that is not set, or is without bound, has no number; a unit whose cpu
/// time is not set cannot be read.
pub proof fn an_unset_property_has_no_number(property: Seq<char>, v: Seq<char>)
    requires
        trimmed(v).len() == 0 || trimmed(v) == "infinity"@ || trimmed(v) == "[not set]"@,
    ensures
        unit_number_of(property, v) == Ok::<Option<u64>, HostErrorView>(None),
        cpu_usage_of(v) matches Err(e) && e is Parse,
{
}

/// What is set and is no number is an error that names the property and its text.
pub proof fn a_property_that_is_no_number_is_an_error(property: Seq<char>, v: Seq<char>)
    requires
        trimmed(v).len() > 0,
        trimmed(v) != "infinity"@,
        trimmed(v) != "[not set]"@,
        parsed_u64(trimmed(v)) is Err,
    ensures
        unit_number_of(property, v) == Err::<Option<u64>, HostErrorView>(
            HostErrorView::Parse(bad_property(property, trimmed(v), parsed_u64(trimmed(v))->Err_0)),
        ),
        cpu_usage_of(v) == Err::<u64, HostErrorView>(
            HostErrorView::Parse(
                bad_property("CPUUsageNSec"@, trimmed(v), parsed_u64(trimmed(v))->Err_0),
            ),
        ),
{
}

// ─────────────────────── reports ───────────────────────

/// A line of the ARC statistics is the row's where its first word is.
pub open spec fn is_row(line: Seq<char>, row: Seq<char>) -> bool {
    words(line).len() > 0 && words(line)[0] == row
}

/// A row's datum is the last word of the first line that is the row's; a row of one
/// word, and a row that is not there, have none.
pub proof fn a_rows_datum_is_its_last_word(lines: Seq<Seq<char>>, row: Seq<char>, i: int)
    ensures
        0 <= i < lines.len() && is_row(lines[i], row) && (forall|j: int|
            0 <= j < i ==> !is_row(#[trigger] lines[j], row)) ==> if words(lines[i]).len() == 1 {
            arcstats_row_of(lines, row) is Err
        } else {
            arcstats_row_of(lines, row) == number_of(words(lines[i]).last())
        },
        (forall|j: int| 0 <= j < lines.len() ==> !is_row(#[trigger] lines[j], row))
            ==> arcstats_row_of(lines, row) is Err,
    decreases lines.len(),
{
    if lines.len() > 0 {
        let rest = lines.drop_first();
        assert forall|j: int| 0 <= j < rest.len() implies rest[j] == #[trigger] lines[j + 1] by {}
        a_rows_datum_is_its_last_word(rest, row, i - 1);
        if 0 < i < lines.len() && is_row(lines[i], row) && (forall|j: int|
            0 <= j < i ==> !is_row(#[trigger] lines[j], row)) {
            assert(!is_row(lines[0], row));
            assert(rest[i - 1] == lines[i]);
            assert forall|j: int| 0 <= j < i - 1 implies !is_row(#[trigger] rest[j], row) by {
                assert(!is_row(lines[j + 1], row));
            }
        }
        if forall|j: int| 0 <= j < lines.len() ==> !is_row(#[trigger] lines[j], row) {
            assert(!is_row(lines[0], row));
            assert forall|j: int| 0 <= j < rest.len() implies !is_row(#[trigger] rest[j], row) by {
                assert(!is_row(lines[j + 1], row));
            }
        }
    }
}

/// A line of the memory report is the field's where it starts with the field's name
/// and a colon.
pub open spec fn is_field(line: Seq<char>, field: Seq<char>) -> bool {
    line.len() > field.len() && line.take(field.len() as int) == field && line[field.len() as int]
        == ':'
}

proof fn lemma_is_field(line: Seq<char>, field: Seq<char>)
    ensures
        starts(line, field + ":"@) == is_field(line, field),
        (field + ":"@).len() == field.len() + 1,
{
    reveal_strlit(":");
    let label = field + ":"@;
    if is_field(line, field) {
        assert(line.subrange(0, label.len() as int) =~= label) by {
            assert forall|k: int| 0 <= k < field.len() implies line[k] == #[trigger] field[k] by {
                assert(line.take(field.len() as int)[k] == field[k]);
            }
        }
    }
    if starts(line, label) {
        assert forall|k: int| 0 <= k < label.len() implies line[k] == #[trigger] label[k] by {
            assert(line.subrange(0, label.len() as int)[k] == label[k]);
        }
        assert(line.take(field.len() as int) =~= field);
        assert(label[field.len() as int] == ':');
    }
}

/// A field's value is what stands behind the colon on the first line that is the
/// field's; a field that is not there has none.
pub proof fn a_fields_value_stands_behind_its_colon(
    lines: Seq<Seq<char>>,
    field: Seq<char>,
    i: int,
)
    ensures
        0 <= i < lines.len() && is_field(lines[i], field) && (forall|j: int|
            0 <= j < i ==> !is_field(#[trigger] lines[j], field)) ==> meminfo_field_of(
            lines,
            field,
        ) == meminfo_value(lines[i].skip(field.len() as int + 1)),
        (forall|j: int| 0 <= j < lines.len() ==> !is_field(#[trigger] lines[j], field))
            ==> meminfo_field_of(lines, field) is Err,
    decreases lines.len(),
{
    if lines.len() > 0 {
        let rest = lines.drop_first();
        lemma_is_field(lines[0], field);
        assert forall|j: int| 0 <= j < rest.len() implies rest[j] == #[trigger] lines[j + 1] by {}
        a_fields_value_stands_behind_its_colon(rest, field, i - 1);
        if 0 < i < lines.len() && is_field(lines[i], field) && (forall|j: int|
            0 <= j < i ==> !is_field(#[trigger] lines[j], field)) {
            assert(!is_field(lines[0], field));
            assert(rest[i - 1] == lines[i]);
            assert forall|j: int| 0 <= j < i - 1 implies !is_field(#[trigger] rest[j], field) by {
                assert(!is_field(lines[j + 1], field));
            }
        }
        if forall|j: int| 0 <= j < lines.len() ==> !is_field(#[trigger] lines[j], field) {
            assert(!is_field(lines[0], field));
            assert forall|j: int| 0 <= j < rest.len() implies !is_field(
                #[trigger] rest[j],
                field,
            ) by {
                assert(!is_field(lines[j + 1], field));
            }
        }
    }
}

/// A value in `kB` is that many times 1024 bytes, as far as the machine can hold it;
/// a value without a unit, or with another, is what it says.
pub proof fn a_value_in_kb_is_in_kibibytes(rest: Seq<char>, n: u64)
    requires
        words(rest).len() > 0,
        words(rest)[0] == decimal(n as nat),
    ensures
        meminfo_value(rest) == Ok::<u64, HostErrorView>(
            if words(rest).len() > 1 && words(rest)[1] == "kB"@ {
                if n * 1024 <= u64::MAX {
                    (n * 1024) as u64
                } else {
                    u64::MAX
                }
            } else {
                n
            },
        ),
{
    crate::text::a_number_reads_back_from_its_numeral(n);
}

/// A label without a value is an error.
pub proof fn a_label_without_a_value_is_an_error(rest: Seq<char>)
    requires
        words(rest).len() == 0 || number_of(words(rest)[0]) is Err,
    ensures
        meminfo_value(rest) is Err,
{
}

/// What stands behind a prefix is found in the first word that starts with it.
pub proof fn a_prefixed_word_is_found_first(ws: Seq<Seq<char>>, prefix: Seq<char>, i: int)
    ensures
        0 <= i < ws.len() && starts(ws[i], prefix) && (forall|j: int|
            0 <= j < i ==> !starts(#[trigger] ws[j], prefix)) ==> first_behind(ws, prefix) == Some(
            ws[i].skip(prefix.len() as int),
        ),
        (forall|j: int| 0 <= j < ws.len() ==> !starts(#[trigger] ws[j], prefix)) ==> first_behind(
            ws,
            prefix,
        ) is None,
    decreases ws.len(),
{
    if ws.len() > 0 {
        let rest = ws.drop_first();
        assert forall|j: int| 0 <= j < rest.len() implies rest[j] == #[trigger] ws[j + 1] by {}
        a_prefixed_word_is_found_first(rest, prefix, i - 1);
        if 0 < i < ws.len() && starts(ws[i], prefix) && (forall|j: int|
            0 <= j < i ==> !starts(#[trigger] ws[j], prefix)) {
            assert(!starts(ws[0], prefix));
            assert(rest[i - 1] == ws[i]);
            assert forall|j: int| 0 <= j < i - 1 implies !starts(#[trigger] rest[j], prefix) by {
                assert(!starts(ws[j + 1], prefix));
            }
        }
        if forall|j: int| 0 <= j < ws.len() ==> !starts(#[trigger] ws[j], prefix) {
            assert(!starts(ws[0], prefix));
            assert forall|j: int| 0 <= j < rest.len() implies !starts(
                #[trigger] rest[j],
                prefix,
            ) by {
                assert(!starts(ws[j + 1], prefix));
            }
        }
    }
}

/// What a line of a pressure report says of the ten-second average, where it is a
/// line of the kind and says so.
pub open spec fn average_on(line: Seq<char>, kind: Seq<char>) -> Option<Seq<char>> {
    if starts(line, kind) {
        first_behind(words(line.skip(kind.len() as int)), "avg10="@)
    } else {
        None
    }
}

/// The ten-second average is the one on the first line of the kind that has one.
pub proof fn an_average_stands_on_the_first_line_of_its_kind(
    lines: Seq<Seq<char>>,
    kind: Seq<char>,
    i: int,
)
    ensures
        0 <= i < lines.len() && average_on(lines[i], kind) is Some && (forall|j: int|
            0 <= j < i ==> average_on(#[trigger] lines[j], kind) is None) ==> psi_avg10_of(
            lines,
            kind,
        ) == Ok::<Seq<char>, HostErrorView>(average_on(lines[i], kind)->0),
        (forall|j: int| 0 <= j < lines.len() ==> average_on(#[trigger] lines[j], kind) is None)
            ==> psi_avg10_of(lines, kind) is Err,
    decreases lines.len(),
{
    if lines.len() > 0 {
        let rest = lines.drop_first();
        assert forall|j: int| 0 <= j < rest.len() implies rest[j] == #[trigger] lines[j + 1] by {}
        an_average_stands_on_the_first_line_of_its_kind(rest, kind, i - 1);
        if 0 < i < lines.len() && average_on(lines[i], kind) is Some && (forall|j: int|
            0 <= j < i ==> average_on(#[trigger] lines[j], kind) is None) {
            assert(average_on(lines[0], kind) is None);
            assert(rest[i - 1] == lines[i]);
            assert forall|j: int| 0 <= j < i - 1 implies average_on(
                #[trigger] rest[j],
                kind,
            ) is None by {
                assert(average_on(lines[j + 1], kind) is None);
            }
        }
        if forall|j: int| 0 <= j < lines.len() ==> average_on(#[trigger] lines[j], kind) is None {
            assert(average_on(lines[0], kind) is None);
            assert forall|j: int| 0 <= j < rest.len() implies average_on(
                #[trigger] rest[j],
                kind,
            ) is None by {
                assert(average_on(lines[j + 1], kind) is None);
            }
        }
    }
}

// ─────────────────────── rates and quotas ───────────────────────

/// A rate is what was counted, in the units of its scale, per unit of the window,
/// rounded down, as far as the machine can hold it; over no window there is none.
pub proof fn a_rate_is_what_was_counted_over_its_window(delta: u64, scale: nat, window: u128)
    ensures
        window == 0 ==> rate_of(delta, scale, window) == 0,
        window > 0 && rate_of(delta, scale, window) < u64::MAX ==> rate_of(delta, scale, window)
            * window <= delta * scale < (rate_of(delta, scale, window) + 1) * window,
        window > 0 && rate_of(delta, scale, window) == u64::MAX ==> u64::MAX * window <= delta
            * scale,
{
    if window > 0 {
        let a = (delta as nat * scale) as int;
        let w = window as int;
        let q = a / w;
        vstd::arithmetic::div_mod::lemma_fundamental_div_mod(a, w);
        vstd::arithmetic::div_mod::lemma_mod_bound(a, w);
        assert(w * q <= a < w * q + w);
        assert(w * q == q * w) by (nonlinear_arith);
        assert((q + 1) * w == q * w + w) by (nonlinear_arith);
        assert(q >= 0) by {
            vstd::arithmetic::div_mod::lemma_div_pos_is_pos(a, w);
        }
        if q >= u64::MAX {
            assert(u64::MAX * w <= q * w) by (nonlinear_arith)
                requires
                    q >= u64::MAX,
                    w > 0,
            ;
        }
    }
}

/// The units of time, in microseconds.
pub proof fn a_unit_of_time_holds_its_microseconds()
    ensures
        unit_usec("us"@) == Some(1nat),
        unit_usec("ms"@) == Some(1_000nat),
        unit_usec("s"@) == Some(1_000_000nat),
        unit_usec("min"@) == Some(60 * 1_000_000nat),
        unit_usec("h"@) == Some(60 * 60 * 1_000_000nat),
        unit_usec("d"@) == Some(24 * 60 * 60 * 1_000_000nat),
{
    reveal_strlit("us");
    reveal_strlit("ms");
    reveal_strlit("s");
    reveal_strlit("min");
    reveal_strlit("h");
    reveal_strlit("d");
    assert("us"@[0] == 'u' && "ms"@[0] == 'm' && "s"@[0] == 's' && "h"@[0] == 'h' && "d"@[0]
        == 'd');
    assert("us"@.len() == 2 && "ms"@.len() == 2 && "s"@.len() == 1 && "min"@.len() == 3
        && "h"@.len() == 1 && "d"@.len() == 1);
}

/// One component of a timespan is its number times its unit.
pub proof fn a_component_is_its_number_times_its_unit(n: u64, unit: Seq<char>)
    requires
        unit.len() > 0,
        crate::text::is_letter(unit[0]),
    ensures
        token_usec(decimal(n as nat) + unit) == match unit_usec(unit) {
            Some(m) => Some(n as nat * m),
            None => None,
        },
{
    let d = decimal(n as nat);
    let s = d + unit;
    crate::text::a_numeral_is_made_of_digits(n as nat);
    assert forall|i: int| 0 <= i < d.len() implies CharClass::NonLetter.holds(#[trigger] s[i]) by {
        assert(s[i] == d[i]);
        assert('0' <= d[i] <= '9');
    }
    assert(s[d.len() as int] == unit[0]);
    crate::text::lemma_leading_is(s, CharClass::NonLetter, d.len() as int);
    assert(s.take(d.len() as int) =~= d);
    assert(s.skip(d.len() as int) =~= unit);
    crate::text::a_number_reads_back_from_its_numeral(n);
}

/// A timespan is the sum of its components, and unreadable where one of them is.
pub proof fn a_timespan_is_the_sum_of_its_components(tokens: Seq<Seq<char>>, token: Seq<char>)
    ensures
        tokens_usec(Seq::empty()) == Some(0nat),
        tokens_usec(tokens.push(token)) == match (tokens_usec(tokens), token_usec(token)) {
            (Some(a), Some(b)) => Some(a + b),
            _ => None,
        },
{
    assert(tokens.push(token).drop_last() =~= tokens);
}

/// A quota is its timespan in microseconds where that fits the machine; `infinity`
/// is without bound, and anything else is an error.
pub proof fn a_quota_is_its_timespan(s: Seq<char>)
    ensures
        trimmed(s) == "infinity"@ ==> quota_usec(s) == Ok::<Option<u64>, ()>(None),
        trimmed(s) != "infinity"@ && words(trimmed(s)).len() == 0 ==> quota_usec(s) is Err,
        trimmed(s) != "infinity"@ && words(trimmed(s)).len() > 0 ==> (match tokens_usec(
            words(trimmed(s)),
        ) {
            Some(n) => if n <= u64::MAX {
                quota_usec(s) == Ok::<Option<u64>, ()>(Some(n as u64))
            } else {
                quota_usec(s) is Err
            },
            None => quota_usec(s) is Err,
        }),
{
}

/// The device of the pair with the number `j` in a list of devices and caps by turns.
pub open spec fn device_at(ws: Seq<Seq<char>>, j: int) -> Seq<char> {
    ws[2 * j]
}

/// The cap of a device stands behind the device, in a list of devices and caps by
/// turns: the first such pair counts.
pub proof fn a_devices_cap_stands_behind_it(ws: Seq<Seq<char>>, device: Seq<char>, n: u64, i: int)
    ensures
        0 <= i && 2 * i + 1 < ws.len() && device_at(ws, i) == device && ws[2 * i + 1] == decimal(
            n as nat,
        ) && (forall|j: int| 0 <= j < i ==> #[trigger] device_at(ws, j) != device) ==> device_cap(
            ws,
            device,
        ) == Some(n),
        (forall|j: int| 0 <= j && 2 * j + 1 < ws.len() ==> #[trigger] device_at(ws, j) != device)
            ==> device_cap(ws, device) is None,
    decreases ws.len(),
{
    crate::text::a_number_reads_back_from_its_numeral(n);
    if ws.len() >= 2 {
        let rest = ws.skip(2);
        a_devices_cap_stands_behind_it(rest, device, n, i - 1);
        if 0 < i && 2 * i + 1 < ws.len() && device_at(ws, i) == device && ws[2 * i + 1] == decimal(
            n as nat,
        ) && (forall|j: int| 0 <= j < i ==> #[trigger] device_at(ws, j) != device) {
            assert(device_at(ws, 0) != device);
            assert(device_at(rest, i - 1) == device_at(ws, i));
            assert(rest[2 * (i - 1) + 1] == ws[2 * i + 1]);
            assert forall|j: int| 0 <= j < i - 1 implies #[trigger] device_at(rest, j)
                != device by {
                assert(device_at(ws, j + 1) != device);
                assert(device_at(rest, j) == device_at(ws, j + 1));
            }
        }
        if forall|j: int| 0 <= j && 2 * j + 1 < ws.len() ==> #[trigger] device_at(ws, j) != device {
            assert(device_at(ws, 0) != device);
            assert forall|j: int| 0 <= j && 2 * j + 1 < rest.len() implies #[trigger] device_at(
                rest,
                j,
            ) != device by {
                assert(device_at(ws, j + 1) != device);
                assert(device_at(rest, j) == device_at(ws, j + 1));
            }
        }
    }
}

// ─────────────────────── paths and commands ───────────────────────

/// The path of a kernel parameter has a slash for each dot of its key, and keeps
/// every other character.
pub proof fn a_key_keeps_all_but_its_dots(key: Seq<char>)
    ensures
        slashed(key).len() == key.len(),
        forall|i: int|
            0 <= i < key.len() ==> #[trigger] slashed(key)[i] == if key[i] == '.' {
                '/'
            } else {
                key[i]
            },
{
}

/// The service manager is called with its arguments as they are; inside the
/// namespaces of a process it is called through `nsenter` with that process's
/// number, behind which the program and its arguments stand unchanged.
pub proof fn the_service_manager_gets_its_arguments(
    pid: u32,
    program: Seq<char>,
    args: Seq<Seq<char>>,
)
    ensures
        invocation_of(None, program, args) == (program, args),
        ({
            let (outer, all) = invocation_of(Some(pid), program, args);
            &&& outer == "nsenter"@
            &&& all.len() == 9 + args.len()
            &&& all[0] == "-t"@ && all[1] == decimal(pid as nat)
            &&& all[2] == "-m"@ && all[3] == "-u"@ && all[4] == "-i"@ && all[5] == "-n"@ && all[6]
                == "-p"@
            &&& all[7] == "--"@
            &&& all[8] == program
            &&& all.skip(9) == args
        }),
{
    let all = invocation_of(Some(pid), program, args).1;
    assert(all.skip(9) =~= args);
}

/// A setting names a process exactly where it is a number that fits one.
pub proof fn a_setting_names_the_process_of_its_number(setting: String, n: u64)
    requires
        setting@ == decimal(n as nat),
    ensures
        pid_of(Some(setting)) == if n <= u32::MAX {
            Some(n as u32)
        } else {
            None
        },
        pid_of(None) is None,
{
    crate::text::a_number_reads_back_from_its_numeral(n);
}

// ─────────────────────── ceilings and writes ───────────────────────

/// What bounds a lever: the ARC its own ceiling, a unit's property the unit's memory
/// ceiling, a unit's quota the unit's cpu ceiling. A unit without a declared ceiling
/// has no lever, a pod's soft limit never has, and the parameters of the whole host
/// and the I/O caps are without bound.
pub proof fn a_lever_is_bounded_by_its_own_ceiling(env: EnvelopesView, knob: HostKnob, unit: String)
    ensures
        env.ceiling(HostKnob::ZfsArcMax) == Ok::<u64, HostErrorView>(env.arc),
        knob matches HostKnob::CgroupProperty { unit: u, .. } && u == unit ==> env.ceiling(knob)
            == if env.memory.dom().contains(unit@) {
            Ok::<u64, HostErrorView>(env.memory[unit@])
        } else {
            Err(HostErrorView::NoEnvelope(unit@))
        },
        knob matches HostKnob::CgroupCpuQuota { unit: u } && u == unit ==> env.ceiling(knob)
            == if env.cpu.dom().contains(unit@) {
            Ok::<u64, HostErrorView>(env.cpu[unit@])
        } else {
            Err(HostErrorView::NoEnvelope(unit@))
        },
        knob is Sysctl || knob is ZfsParam || knob is CgroupIoMax ==> env.ceiling(knob) == Ok::<
            u64,
            HostErrorView,
        >(u64::MAX),
        knob is PodCgroupMemoryHigh ==> env.ceiling(knob) is Err,
{
}

/// What is written for a lever: its own file or property, and exactly the value. Cpu
/// is written in percent of a core, rounded down to a whole one, and an I/O cap
/// behind its device.
pub proof fn a_write_sets_exactly_its_lever(knob: HostKnob, value: u64)
    ensures
        knob is ZfsArcMax ==> write_of(knob, value) == Some(
            HostWriteView::Sysfs { path: "/sys/module/zfs/parameters/zfs_arc_max"@, value },
        ),
        knob matches HostKnob::CgroupProperty { unit, property } ==> write_of(knob, value) == Some(
            HostWriteView::PropertyNumber { unit: unit@, property: property@, value },
        ),
        knob matches HostKnob::Sysctl { key } ==> write_of(knob, value) == Some(
            HostWriteView::Sysfs { path: "/proc/sys/"@ + slashed(key@), value },
        ),
        knob matches HostKnob::ZfsParam { param } ==> write_of(knob, value) == Some(
            HostWriteView::Sysfs { path: "/sys/module/zfs/parameters/"@ + param@, value },
        ),
        knob matches HostKnob::CgroupCpuQuota { unit } ==> {
            let percent = value / 10;
            &&& percent * 10 <= value < percent * 10 + 10
            &&& write_of(knob, value) == Some(
                HostWriteView::PropertyText {
                    unit: unit@,
                    property: "CPUQuota"@,
                    value: decimal(percent as nat) + "%"@,
                },
            )
        },
        knob matches HostKnob::CgroupIoMax { unit, device, field } ==> write_of(knob, value)
            == Some(
            HostWriteView::PropertyText {
                unit: unit@,
                property: match field {
                    IoMaxField::Rbps => "IOReadBandwidthMax"@,
                    IoMaxField::Wbps => "IOWriteBandwidthMax"@,
                    IoMaxField::Riops => "IOReadIOPSMax"@,
                    IoMaxField::Wiops => "IOWriteIOPSMax"@,
                },
                value: device@ + " "@ + decimal(value as nat),
            },
        ),
        knob is PodCgroupMemoryHigh ==> write_of(knob, value) is None,
{
}

/// A value within its lever's ceiling is written where writes are enabled, and a
/// value above it, a lever without a ceiling and a layout that is none of the host's
/// are refused.
pub proof fn a_value_within_its_ceiling_is_written(
    env: EnvelopesView,
    patch: SsaPatch,
    knob: HostKnob,
)
    ensures
        patch.layout == LimitLayout::Host(knob) && (env.ceiling(knob) matches Ok(c) && patch.value
            <= c) ==> planned_write(env, true, patch) == Ok::<
            Option<HostWriteView>,
            ProviderErrorView,
        >(write_of(knob, patch.value)),
        patch.layout == LimitLayout::Host(knob) && (env.ceiling(knob) matches Ok(c) && patch.value
            > c) ==> (planned_write(env, true, patch) matches Err(e) && e is ApiPermanent),
        patch.layout == LimitLayout::Host(knob) && env.ceiling(knob) is Err ==> planned_write(
            env,
            true,
            patch,
        ) == Err::<Option<HostWriteView>, ProviderErrorView>(
            env.ceiling(knob)->Err_0.to_provider(),
        ),
        !(patch.layout is Host) ==> (planned_write(env, true, patch) matches Err(e) && e
            is ApiPermanent),
{
}

/// What an error of the host means to a provider: a text that cannot be read is a
/// missing metric, a missing ceiling stays, and what failed on the way may mend.
pub proof fn only_the_hosts_failures_on_the_way_may_mend(e: HostErrorView)
    ensures
        e.to_provider() is MetricsMissing <==> e is Parse,
        e.to_provider() is ApiPermanent <==> e is NoEnvelope,
        e.to_provider() is ApiTransient <==> e is Io || e is Command,
{
}

// ─────────────────────── limits ───────────────────────

/// The limit of a lever is what the host says; where it says that there is none, the
/// lever's own ceiling, and for an I/O cap no bound.
pub proof fn a_limit_is_what_the_host_says(
    env: EnvelopesView,
    knob: HostKnob,
    unit: Seq<char>,
    device: Seq<char>,
    v: u64,
    e: HostErrorView,
)
    ensures
        v > 0 ==> arc_limit_of(env, Ok(v)) == Ok::<u64, ProviderErrorView>(v),
        arc_limit_of(env, Ok(0)) == Ok::<u64, ProviderErrorView>(env.arc),
        arc_limit_of(env, Err(e)) == Err::<u64, ProviderErrorView>(e.to_provider()),
        property_limit_of(env, knob, Ok(Some(v))) == Ok::<u64, ProviderErrorView>(v),
        property_limit_of(env, knob, Ok(None)) == match env.ceiling(knob) {
            Ok(c) => Ok::<u64, ProviderErrorView>(c),
            Err(x) => Err(x.to_provider()),
        },
        property_limit_of(env, knob, Err(e)) == Err::<u64, ProviderErrorView>(e.to_provider()),
        quota_limit_of(env, knob, unit, Ok(None)) == property_limit_of(env, knob, Ok(None)),
        quota_limit_of(env, knob, unit, Err(e)) == Err::<u64, ProviderErrorView>(e.to_provider()),
        io_limit_of(device, Ok(None)) == Ok::<u64, ProviderErrorView>(u64::MAX),
        io_limit_of(device, Err(e)) == Err::<u64, ProviderErrorView>(e.to_provider()),
{
}

/// A unit's cpu limit in thousandths of a core is a thousandth of its quota of
/// microseconds per second, rounded down; a quota without bound is the ceiling, and
/// one that cannot be read stays an error.
pub proof fn a_cpu_limit_is_its_quota_per_second(
    env: EnvelopesView,
    knob: HostKnob,
    unit: Seq<char>,
    raw: Seq<char>,
)
    ensures
        quota_usec(raw) matches Ok(Some(usec)) ==> (quota_limit_of(
            env,
            knob,
            unit,
            Ok(Some(raw)),
        ) matches Ok(m) && m * 1000 <= usec < m * 1000 + 1000),
        quota_usec(raw) == Ok::<Option<u64>, ()>(None) ==> quota_limit_of(
            env,
            knob,
            unit,
            Ok(Some(raw)),
        ) == property_limit_of(env, knob, Ok(None)),
        quota_usec(raw) is Err ==> (quota_limit_of(env, knob, unit, Ok(Some(raw))) matches Err(e)
            && e is ApiPermanent),
{
}

/// An I/O limit is the device's own cap, and without bound where it has none.
pub proof fn an_io_limit_is_its_devices_cap(device: Seq<char>, raw: Seq<char>)
    ensures
        io_limit_of(device, Ok(Some(raw))) == Ok::<u64, ProviderErrorView>(
            match device_cap(words(raw), device) {
                Some(v) => v,
                None => u64::MAX,
            },
        ),
{
}

// ─────────────────────── rates over readings ───────────────────────

/// A counter that was read before has a rate: how far it went over how long that
/// took, in the units of its scale. A counter that went back, or a clock that stood,
/// gives no rate above zero.
pub proof fn a_rate_is_the_progress_since_the_last_reading(
    samples: Map<Seq<char>, (u64, u128)>,
    key: Seq<char>,
    counter: u64,
    now: u128,
    scale: nat,
)
    ensures
        !samples.dom().contains(key) ==> rate_since(samples, key, counter, now, scale) == Err::<
            crate::dimension::Sample,
            ProviderErrorView,
        >(ProviderErrorView::MetricsMissing),
        samples.dom().contains(key) ==> {
            let (was, at) = samples[key];
            &&& rate_since(samples, key, counter, now, scale) matches Ok(s)
            &&& s.age_secs == 0
            &&& counter >= was && now > at ==> s.value == rate_of(
                (counter - was) as u64,
                scale,
                (now - at) as u128,
            )
            &&& now <= at ==> s.value == 0
            &&& counter <= was ==> s.value == 0
        },
{
    if samples.dom().contains(key) {
        let (was, at) = samples[key];
        if counter <= was && now > at {
            let w = (now - at) as int;
            assert(0 * scale == 0) by (nonlinear_arith);
            vstd::arithmetic::div_mod::lemma_div_basics(w);
            assert(0int / w == 0) by (nonlinear_arith)
                requires
                    w > 0,
            ;
        }
    }
}

/// Of two readings of a counter the second has the rate between them, and what
/// happened to other counters in between does not matter.
pub proof fn two_readings_give_the_rate_between_them(
    key: Seq<char>,
    scale: nat,
    first: u64,
    at: u128,
    second: u64,
    now: u128,
    before: Map<Seq<char>, (u64, u128)>,
    between: Map<Seq<char>, (u64, u128)>,
    later: Map<Seq<char>, (u64, u128)>,
    after: Map<Seq<char>, (u64, u128)>,
    r1: Result<crate::dimension::Sample, ProviderErrorView>,
    r2: Result<crate::dimension::Sample, ProviderErrorView>,
)
    requires
        rated(Ok(first), key, at, scale, before, between, r1),
        later.dom().contains(key),
        later[key] == between[key],
        rated(Ok(second), key, now, scale, later, after, r2),
        second >= first,
        now > at,
    ensures
        r2 matches Ok(s) && s.value == rate_of((second - first) as u64, scale, (now - at) as u128),
        forall|other: Seq<char>|
            other != key && #[trigger] later.dom().contains(other) ==> after.dom().contains(other)
                && after[other] == later[other],
{
}

/// A counter that could not be read changes nothing of what is kept, and its error
/// is the outcome; an unset counter counts as zero.
pub proof fn a_counter_that_could_not_be_read_changes_nothing(
    key: Seq<char>,
    scale: nat,
    now: u128,
    e: HostErrorView,
    before: Map<Seq<char>, (u64, u128)>,
    after: Map<Seq<char>, (u64, u128)>,
    r: Result<crate::dimension::Sample, ProviderErrorView>,
    n: u64,
)
    ensures
        rated(Err(e), key, now, scale, before, after, r) ==> after == before && r == Err::<
            crate::dimension::Sample,
            ProviderErrorView,
        >(e.to_provider()),
        or_nothing(Ok(None)) == Ok::<u64, HostErrorView>(0),
        or_nothing(Ok(Some(n))) == Ok::<u64, HostErrorView>(n),
        or_nothing(Err(e)) == Err::<u64, HostErrorView>(e),
{
}

/// A metric is read where it stands: each of its own unit, row, field or resource.
pub proof fn a_metric_is_read_where_it_stands(metric: HostMetric)
    ensures
        metric is ArcSize ==> metric_read(metric) is ArcSize,
        metric matches HostMetric::ArcKstat { row } ==> metric_read(metric) == (HostRead::ArcRow {
            row: row@,
        }),
        metric matches HostMetric::MeminfoField { field } ==> metric_read(metric) == (
        HostRead::Meminfo { field: field@ }),
        metric matches HostMetric::CgroupMemoryCurrent { unit } ==> metric_read(metric) == (
        HostRead::MemoryCurrent { unit: unit@ }),
        metric matches HostMetric::CgroupCpuUsage { unit } ==> metric_read(metric) == (
        HostRead::CpuUsage { unit: unit@ }),
        metric matches HostMetric::CgroupIoStat { unit, field } ==> metric_read(metric) == (
        HostRead::Property {
            unit: unit@,
            property: match field {
                IoMaxField::Rbps => "IOReadBytes"@,
                IoMaxField::Wbps => "IOWriteBytes"@,
                IoMaxField::Riops => "IOReadOperations"@,
                IoMaxField::Wiops => "IOWriteOperations"@,
            },
        }),
        metric matches HostMetric::Psi { resource, kind } ==> metric_read(metric) == (
        HostRead::Psi { resource: resource.name(), kind: kind.name() }),
{
}

// ─────────────────────── outcomes ───────────────────────

/// What a host reads for a source that it reads at once is its number, taken now: the
/// readings kept for rates stay as they are, and an error of the host is the outcome
/// where it failed.
pub proof fn a_reading_of_the_moment_is_the_hosts_number<H: HostEnvironment>(
    env: H,
    metric: HostMetric,
    now: u128,
    before: Map<Seq<char>, (u64, u128)>,
    after: Map<Seq<char>, (u64, u128)>,
    r: Result<Sample, ProviderErrorView>,
)
    requires
        !(metric is CgroupCpuUsage) && !(metric is CgroupIoStat),
        used_outcome(env, MetricSource::Host(metric), now, before, after, r),
    ensures
        after == before,
        r matches Ok(s) ==> s.age_secs == 0 && env.gives(metric_read(metric), Ok(s.value)),
        r matches Err(e) ==> exists|h: HostError|
            #[trigger] env.gives(metric_read(metric), Err(h)) && e == h@.to_provider(),
{
    let x = choose|x: Result<u64, HostError>|
        #[trigger] env.gives(metric_read(metric), x) && r == crate::host_cluster::fresh(
            crate::host::host_result(x),
        );
    match x {
        Ok(v) => {},
        Err(h) => {
            assert(env.gives(metric_read(metric), Err(h)));
        },
    }
}

/// A unit's cpu time and its I/O are rates over what was read before, and each is
/// kept under a key of its own: cpu time, counted in nanoseconds and taken in
/// thousandths of a core, under the unit, and I/O, taken per second, under the unit
/// and the field.
pub proof fn cpu_and_io_are_rates_over_earlier_readings<H: HostEnvironment>(
    env: H,
    unit: String,
    field: IoMaxField,
    now: u128,
    before: Map<Seq<char>, (u64, u128)>,
    after: Map<Seq<char>, (u64, u128)>,
    r: Result<Sample, ProviderErrorView>,
)
    ensures
        used_outcome(
            env,
            MetricSource::Host(HostMetric::CgroupCpuUsage { unit }),
            now,
            before,
            after,
            r,
        ) && after != before ==> exists|n: u64|
            #[trigger] env.gives(HostRead::CpuUsage { unit: unit@ }, Ok(n)) && after
                == before.insert(unit@, (n, now)) && r == rate_since(before, unit@, n, now, 1000),
        used_outcome(
            env,
            MetricSource::Host(HostMetric::CgroupIoStat { unit, field }),
            now,
            before,
            after,
            r,
        ) && after != before ==> exists|n: Option<u64>|
            #[trigger] env.gives_optional(
                HostRead::Property { unit: unit@, property: field.counter_name() },
                Ok(n),
            ) && {
                let counter = match n {
                    Some(c) => c,
                    None => 0,
                };
                let key = "io:"@ + unit@ + ":"@ + field.name();
                after == before.insert(key, (counter, now)) && r == rate_since(
                    before,
                    key,
                    counter,
                    now,
                    1_000_000_000,
                )
            },
{
    let cpu = HostMetric::CgroupCpuUsage { unit };
    if used_outcome(env, MetricSource::Host(cpu), now, before, after, r) && after != before {
        let x = choose|x: Result<u64, HostError>|
            #[trigger] env.gives(metric_read(cpu), x) && rated(
                crate::host::host_result(x),
                unit@,
                now,
                1000,
                before,
                after,
                r,
            );
        assert(x is Ok);
        assert(env.gives(HostRead::CpuUsage { unit: unit@ }, Ok(x->Ok_0)));
    }
    let io = HostMetric::CgroupIoStat { unit, field };
    if used_outcome(env, MetricSource::Host(io), now, before, after, r) && after != before {
        let x = choose|x: Result<Option<u64>, HostError>|
            #[trigger] env.gives_optional(metric_read(io), x) && rated(
                or_nothing(crate::host::host_result(x)),
                crate::host_cluster::io_key(unit@, field),
                now,
                1_000_000_000,
                before,
                after,
                r,
            );
        assert(x is Ok);
        assert(env.gives_optional(
            HostRead::Property { unit: unit@, property: field.counter_name() },
            Ok(x->Ok_0),
        ));
    }
}

/// A limit that a host reads as a bare number is that number, read where the lever
/// stands; a lever of a pod and a layout of Kubernetes are read elsewhere.
pub proof fn a_bare_limit_is_read_where_its_lever_stands<H: HostEnvironment>(
    env: H,
    envelopes: EnvelopesView,
    layout: LimitLayout,
    v: u64,
    r: Result<u64, ProviderErrorView>,
)
    requires
        limit_outcome(env, envelopes, layout, r),
    ensures
        r == Ok::<u64, ProviderErrorView>(v) ==> layout is Host,
        !(layout is Host) || (layout->Host_0 is PodCgroupMemoryHigh) ==> r matches Err(
            ProviderErrorView::ApiPermanent(_),
        ),
        r == Ok::<u64, ProviderErrorView>(v) ==> (layout matches LimitLayout::Host(
            HostKnob::Sysctl { key },
        ) ==> env.gives(
            HostRead::Sysfs { path: "/proc/sys/"@ + slashed(key@) },
            Ok(v),
        )),
        r == Ok::<u64, ProviderErrorView>(v) ==> (layout matches LimitLayout::Host(
            HostKnob::ZfsParam { param },
        ) ==> env.gives(
            HostRead::Sysfs { path: "/sys/module/zfs/parameters/"@ + param@ },
            Ok(v),
        )),
{
}

// ─────────────────────── what a host carves ───────────────────────

/// Each dimension of a host bounds one lever and reads the usage of what that lever
/// bounds: the cache's bound and its size, and for a unit its own property and its
/// own usage.
pub proof fn a_host_dimension_reads_what_it_bounds(
    arc: ArcDescriptor,
    memory: CgroupMemoryDescriptor,
    cpu: CgroupCpuDescriptor,
    param: HostParamDescriptor,
    target: Target,
    layout: LimitLayout,
    source: MetricSource,
)
    ensures
        arc.lives_at(target, layout) ==> layout is Host && layout->Host_0 is ZfsArcMax,
        arc.reads_from(target, source) ==> source is Host && source->Host_0 is ArcSize,
        memory.lives_at(target, layout) ==> (layout matches LimitLayout::Host(
            HostKnob::CgroupProperty { unit, property },
        ) && unit@ == target.name@ && property@ == "MemoryHigh"@),
        memory.reads_from(target, source) ==> (source matches MetricSource::Host(
            HostMetric::CgroupMemoryCurrent { unit },
        ) && unit@ == target.name@),
        cpu.lives_at(target, layout) ==> (layout matches LimitLayout::Host(
            HostKnob::CgroupCpuQuota { unit },
        ) && unit@ == target.name@),
        cpu.reads_from(target, source) ==> (source matches MetricSource::Host(
            HostMetric::CgroupCpuUsage { unit },
        ) && unit@ == target.name@),
        param.lives_at(target, layout) ==> layout == LimitLayout::Host(param.knob),
        param.reads_from(target, source) ==> source == MetricSource::Host(param.metric),
        cpu.resource_name() == "cpu"@,
        arc.resource_name() == "memory"@ && memory.resource_name() == "memory"@,
        arc.directions() is Bidirectional && memory.directions() is Bidirectional
            && cpu.directions() is Bidirectional,
        param.directions() == param.dir,
{
}

/// A dimension writes under a name of its own, made of the project's and its own
/// name, so that no two dimensions write as one owner.
pub proof fn a_dimension_writes_under_its_own_name(
    arc: ArcDescriptor,
    memory: CgroupMemoryDescriptor,
    cpu: CgroupCpuDescriptor,
    param: HostParamDescriptor,
)
    ensures
        arc.manager() == "breathe/"@ + arc.dimension().name(),
        memory.manager() == "breathe/"@ + memory.dimension().name(),
        cpu.manager() == "breathe/"@ + cpu.dimension().name(),
        param.manager() == "breathe/"@ + param.dimension().name(),
        arc.dimension() is Arc,
        memory.dimension() is Cgroup,
        cpu.dimension() is CgroupCpu,
        param.dimension() is HostParam,
{
    reveal_strlit("breathe/");
    reveal_strlit("arc");
    reveal_strlit("cgroup");
    reveal_strlit("cgroup-cpu");
    reveal_strlit("host-param");
    reveal_strlit("breathe/arc");
    reveal_strlit("breathe/cgroup");
    reveal_strlit("breathe/cgroup-cpu");
    reveal_strlit("breathe/host-param");
    assert(arc.manager() =~= "breathe/"@ + arc.dimension().name());
    assert(memory.manager() =~= "breathe/"@ + memory.dimension().name());
    assert(cpu.manager() =~= "breathe/"@ + cpu.dimension().name());
    assert(param.manager() =~= "breathe/"@ + param.dimension().name());
}

/// A limit that is more than a bare number is made of what stands at its lever's own
/// place: the cache's bound, a unit's property, a unit's cpu quota, or the cap of a
/// device.
pub proof fn a_limit_is_made_of_what_stands_at_its_lever<H: HostEnvironment>(
    env: H,
    envelopes: EnvelopesView,
    knob: HostKnob,
    r: Result<u64, ProviderErrorView>,
)
    requires
        limit_outcome(env, envelopes, LimitLayout::Host(knob), r),
    ensures
        knob is ZfsArcMax ==> exists|x: Result<u64, HostError>|
            #[trigger] env.gives(
                HostRead::Sysfs { path: "/sys/module/zfs/parameters/zfs_arc_max"@ },
                x,
            ) && r == arc_limit_of(envelopes, crate::host::host_result(x)),
        knob matches HostKnob::CgroupProperty { unit, property } ==> exists|
            x: Result<Option<u64>, HostError>,
        |
            #[trigger] env.gives_optional(
                HostRead::Property { unit: unit@, property: property@ },
                x,
            ) && r == property_limit_of(envelopes, knob, crate::host::host_result(x)),
        knob matches HostKnob::CgroupCpuQuota { unit } ==> exists|
            x: Result<Option<String>, HostError>,
        |
            #[trigger] env.gives_text(
                HostRead::Property { unit: unit@, property: "CPUQuotaPerSecUSec"@ },
                x,
            ) && r == quota_limit_of(
                envelopes,
                knob,
                unit@,
                crate::host_cluster::text_result(x),
            ),
        knob matches HostKnob::CgroupIoMax { unit, device, field } ==> exists|
            x: Result<Option<String>, HostError>,
        |
            #[trigger] env.gives_text(
                HostRead::Property { unit: unit@, property: field.cap_name() },
                x,
            ) && r == io_limit_of(device@, crate::host_cluster::text_result(x)),
{
}

/// A command line is the program and each argument behind it, with one blank in front
/// of each.
pub proof fn a_command_line_lists_its_arguments(
    program: Seq<char>,
    argv: Seq<Seq<char>>,
    arg: Seq<char>,
)
    ensures
        crate::host::command_line(program, seq![arg]) == program + " "@ + arg,
        argv.len() > 0 ==> crate::host::command_line(program, argv.push(arg))
            == crate::host::command_line(program, argv) + " "@ + arg,
{
    crate::kube_laws::joining_puts_a_separator_between(argv, arg, " "@);
    let before = crate::json::joined(argv, " "@);
    assert(program + " "@ + (before + " "@ + arg) =~= program + " "@ + before + " "@ + arg);
}

} // verus!
