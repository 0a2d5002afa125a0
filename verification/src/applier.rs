//! The value applier: what a decoded reading does to the registry, and the
//! whole way of a line from text to metric.
use crate::catalog::{EntryView, MetricKind};
use crate::decimal::{clamp_i64, clamp_u64, is_decimal, scaled_value};
use crate::decoder::{
    content_end, content_start, decode, lemma_first_entry_for, obis_code_of, parse_p1_line,
};
use crate::metrics::{label_slot, total_at};
use crate::registry::{CellState, Registry, RegistryView, FRACTION_UNITS};
use vstd::prelude::*;

verus! {

/// A reading that passed the decoder and is no decimal number all the same.
#[derive(Clone, Copy, Debug, PartialEq, Eq, Structural)]
pub enum ApplyError {
    InvalidNumber,
}

/// Index of the last entry of `c` before `upto` with the OBIS code `obis`,
/// or -1.
pub open spec fn last_entry_for(c: Seq<EntryView>, obis: Seq<char>, upto: int) -> int
    decreases upto,
{
    if upto <= 0 {
        -1
    } else if c[upto - 1].obis_code == obis {
        upto - 1
    } else {
        last_entry_for(c, obis, upto - 1)
    }
}

/// The catalog entry that handles an OBIS code: the last one that declares
/// it. `None` means that the code is not monitored.
pub open spec fn lookup(c: Seq<EntryView>, obis: Seq<char>) -> Option<int> {
    let i = last_entry_for(c, obis, c.len() as int);
    if i < 0 {
        None
    } else {
        Some(i)
    }
}

/// The value that a gauge takes from a reading: the reading times the scale,
/// rounded to the nearest integer, kept within `i64`.
pub open spec fn gauge_target(raw: Seq<char>, scale: nat) -> i64 {
    clamp_i64(scaled_value(raw, scale))
}

/// The absolute reading that an integer counter is held against: the reading
/// times the scale, rounded to the nearest integer that is not negative,
/// kept within `u64`.
pub open spec fn counter_target(raw: Seq<char>, scale: nat) -> u64 {
    clamp_u64(scaled_value(raw, scale))
}

/// The absolute reading that a fractional counter is held against: the
/// reading times the scale, in units of `1 / FRACTION_UNITS`, kept within
/// `u64`.
pub open spec fn fraction_target(raw: Seq<char>, scale: nat) -> u64 {
    clamp_u64(scaled_value(raw, scale * FRACTION_UNITS as nat))
}

/// The totals of an integer counter; none for another instance.
pub open spec fn totals_of(state: CellState) -> Map<u64, u64> {
    match state {
        CellState::IntCounter(totals) => totals,
        _ => Map::empty(),
    }
}

/// The total of a fractional counter; zero for another instance.
pub open spec fn fraction_of(state: CellState) -> u64 {
    match state {
        CellState::FloatCounter(total) => total,
        _ => 0,
    }
}

pub open spec fn larger(a: u64, b: u64) -> u64 {
    if a > b {
        a
    } else {
        b
    }
}

/// What the instance of `entry` holds after the reading `raw`.
///
/// A gauge holds the reading. A counter is raised to the reading where the
/// reading is above its total, and keeps its total otherwise; an integer
/// counter keeps one total for each list of label values, and the entry's
/// own is the one concerned.
pub open spec fn advanced(state: CellState, entry: EntryView, raw: Seq<char>) -> CellState {
    match entry.kind {
        MetricKind::GaugeInt => CellState::Gauge(gauge_target(raw, entry.scale)),
        MetricKind::CounterIntDelta => {
            let slot = label_slot(entry.label_values);
            CellState::IntCounter(
                totals_of(state).insert(
                    slot,
                    larger(counter_target(raw, entry.scale), total_at(totals_of(state), slot)),
                ),
            )
        },
        MetricKind::CounterFloatDelta => CellState::FloatCounter(
            larger(fraction_target(raw, entry.scale), fraction_of(state)),
        ),
    }
}

/// The registry after the reading `raw` for the OBIS code `obis`: unchanged
/// where the code is not monitored, else with the instance of the code's
/// entry advanced and every other instance as it was.
pub open spec fn applied(v: RegistryView, obis: Seq<char>, raw: Seq<char>) -> RegistryView {
    match lookup(v.catalog, obis) {
        None => v,
        Some(i) => RegistryView {
            cells: v.cells.update(
                v.cell_of[i] as int,
                advanced(v.cells[v.cell_of[i] as int], v.catalog[i], raw),
            ),
            ..v
        },
    }
}

/// The registry after one raw line: unchanged where the line decodes to
/// nothing, else with the decoded reading applied.
pub open spec fn line_effect(v: RegistryView, line: Seq<char>) -> RegistryView {
    match decode(v.catalog, line) {
        None => v,
        Some(parsed) => applied(v, parsed.obis_code, parsed.raw_value),
    }
}

/// What the decoder hands on is the OBIS code of the line, which some
/// catalog entry declares, and a decimal number.
pub proof fn law_decoded_reading(c: Seq<EntryView>, line: Seq<char>)
    ensures
        decode(c, line) matches Some(parsed) ==> {
            &&& parsed.obis_code == obis_code_of(line)
            &&& lookup(c, parsed.obis_code) is Some
            &&& is_decimal(parsed.raw_value)
        },
{
    lemma_first_entry_for(c, obis_code_of(line), 0);
    lemma_lookup_in_range(c, obis_code_of(line));
}

/// Processes one raw line: decodes it and applies the reading.
///
/// A line that is empty, a footer, garbage or for an OBIS code outside the
/// catalog changes nothing. No line is an error: what the decoder hands on is
/// a decimal number, and a counter that does not advance stays as it is.
pub fn process_p1_line(registry: &mut Registry, line: &str) -> (r: Result<(), ApplyError>)
    requires
        old(registry).wf(),
    ensures
        final(registry).wf(),
        r is Ok,
        final(registry)@ == line_effect(old(registry)@, line@),
{
    let parsed = match parse_p1_line(registry.catalog(), line) {
        Some(parsed) => parsed,
        None => {
            return Ok(());
        },
    };
    proof {
        law_decoded_reading(registry@.catalog, line@);
    }
    registry.apply(&parsed)
}

/// An empty line and a footer line change nothing.
pub proof fn law_empty_and_footer_lines_do_nothing(v: RegistryView, line: Seq<char>)
    requires
        content_start(line) == content_end(line) || line[content_start(line)] == '!',
    ensures
        line_effect(v, line) == v,
{
}

/// A line for an OBIS code that no catalog entry declares changes nothing.
pub proof fn law_unmonitored_lines_do_nothing(v: RegistryView, line: Seq<char>)
    requires
        forall|k: int|
            0 <= k < v.catalog.len() ==> (#[trigger] v.catalog[k]).obis_code != obis_code_of(line),
    ensures
        line_effect(v, line) == v,
{
    lemma_first_entry_for(v.catalog, obis_code_of(line), 0);
}

/// Applying a reading keeps a registry well formed: the catalog and the
/// layout stay, and every instance keeps its kind.
pub proof fn law_applied_keeps_wf(v: RegistryView, obis: Seq<char>, raw: Seq<char>)
    requires
        v.wf(),
    ensures
        applied(v, obis, raw).wf(),
        applied(v, obis, raw).catalog == v.catalog,
        applied(v, obis, raw).cell_of == v.cell_of,
        applied(v, obis, raw).cells.len() == v.cells.len(),
{
    lemma_lookup_in_range(v.catalog, obis);
    let w = applied(v, obis, raw);
    match lookup(v.catalog, obis) {
        None => {},
        Some(i) => {
            let k = v.cell_of[i] as int;
            assert(v.cells[k].kind() == v.catalog[i].kind);
            assert(w.cells[k].kind() == v.cells[k].kind());
            assert forall|a: int| 0 <= a < v.catalog.len() implies (#[trigger] w.cell_of[a])
                < w.cells.len() && w.cells[w.cell_of[a] as int].kind() == w.catalog[a].kind by {
                assert(v.cell_of[a] < v.cells.len());
            }
        },
    }
}

/// The entry that `lookup` finds is an entry of the catalog with that code,
/// and no later entry has the code.
pub proof fn lemma_lookup_in_range(c: Seq<EntryView>, obis: Seq<char>)
    ensures
        lookup(c, obis) matches Some(i) ==> 0 <= i < c.len() && c[i].obis_code == obis && forall|
            j: int,
        |
            i < j < c.len() ==> (#[trigger] c[j]).obis_code != obis,
        lookup(c, obis) is None ==> forall|j: int|
            0 <= j < c.len() ==> (#[trigger] c[j]).obis_code != obis,
{
    lemma_last_entry_for(c, obis, c.len() as int);
}

proof fn lemma_last_entry_for(c: Seq<EntryView>, obis: Seq<char>, upto: int)
    requires
        0 <= upto <= c.len(),
    ensures
        -1 <= last_entry_for(c, obis, upto) < upto,
        last_entry_for(c, obis, upto) >= 0 ==> c[last_entry_for(c, obis, upto)].obis_code == obis,
        forall|j: int|
            last_entry_for(c, obis, upto) < j < upto ==> (#[trigger] c[j]).obis_code != obis,
    decreases upto,
{
    if upto > 0 && c[upto - 1].obis_code != obis {
        lemma_last_entry_for(c, obis, upto - 1);
    }
}

/// No reading lowers a counter. Whatever is applied to a well-formed
/// registry, the total of every child of every integer counter and the total
/// of every fractional counter are afterwards what they were or above.
pub proof fn law_counters_never_decrease(
    v: RegistryView,
    obis: Seq<char>,
    raw: Seq<char>,
    k: int,
    slot: u64,
)
    requires
        v.wf(),
        0 <= k < v.cells.len(),
    ensures
        total_at(totals_of(applied(v, obis, raw).cells[k]), slot) >= total_at(
            totals_of(v.cells[k]),
            slot,
        ),
        fraction_of(applied(v, obis, raw).cells[k]) >= fraction_of(v.cells[k]),
{
    lemma_lookup_in_range(v.catalog, obis);
    match lookup(v.catalog, obis) {
        None => {},
        Some(i) => {
            assert(v.cells[v.cell_of[i] as int].kind() == v.catalog[i].kind);
        },
    }
}

/// The same of a raw line: no line lowers a counter.
pub proof fn law_lines_never_lower_counters(v: RegistryView, line: Seq<char>, k: int, slot: u64)
    requires
        v.wf(),
        0 <= k < v.cells.len(),
    ensures
        total_at(totals_of(line_effect(v, line).cells[k]), slot) >= total_at(
            totals_of(v.cells[k]),
            slot,
        ),
        fraction_of(line_effect(v, line).cells[k]) >= fraction_of(v.cells[k]),
{
    match decode(v.catalog, line) {
        None => {},
        Some(parsed) => {
            law_counters_never_decrease(v, parsed.obis_code, parsed.raw_value, k, slot);
        },
    }
}

/// A reading at or below the total leaves an integer counter's totals as
/// they were, under every slot.
pub proof fn law_stale_reading_keeps_totals(
    v: RegistryView,
    obis: Seq<char>,
    raw: Seq<char>,
    slot: u64,
)
    requires
        v.wf(),
        lookup(v.catalog, obis) matches Some(i) && v.catalog[i].kind == MetricKind::CounterIntDelta
            && counter_target(raw, v.catalog[i].scale) <= total_at(
            totals_of(v.cells[v.cell_of[i] as int]),
            label_slot(v.catalog[i].label_values),
        ),
    ensures
        forall|k: int|
            0 <= k < v.cells.len() ==> total_at(
                totals_of(#[trigger] applied(v, obis, raw).cells[k]),
                slot,
            ) == total_at(totals_of(v.cells[k]), slot),
{
    lemma_lookup_in_range(v.catalog, obis);
    let i = lookup(v.catalog, obis)->0;
    assert(v.cells[v.cell_of[i] as int].kind() == v.catalog[i].kind);
}

/// A reading at or below the total leaves a fractional counter as it was,
/// and with it the whole registry.
pub proof fn law_stale_reading_keeps_fraction(v: RegistryView, obis: Seq<char>, raw: Seq<char>)
    requires
        v.wf(),
        lookup(v.catalog, obis) matches Some(i) && v.catalog[i].kind
            == MetricKind::CounterFloatDelta && fraction_target(raw, v.catalog[i].scale)
            <= fraction_of(v.cells[v.cell_of[i] as int]),
    ensures
        applied(v, obis, raw) == v,
{
    lemma_lookup_in_range(v.catalog, obis);
    let i = lookup(v.catalog, obis)->0;
    assert(v.cells[v.cell_of[i] as int].kind() == v.catalog[i].kind);
    assert(applied(v, obis, raw).cells =~= v.cells);
    assert(applied(v, obis, raw) =~= v);
}

/// A gauge holds the last reading, whatever it held before: the reading
/// times the scale, rounded to the nearest integer, where that fits `i64`.
pub proof fn law_gauge_holds_last_reading(v: RegistryView, obis: Seq<char>, raw: Seq<char>)
    requires
        v.wf(),
        lookup(v.catalog, obis) matches Some(i) && v.catalog[i].kind == MetricKind::GaugeInt,
    ensures
        ({
            let i = lookup(v.catalog, obis)->0;
            &&& applied(v, obis, raw).cells[v.cell_of[i] as int] == CellState::Gauge(
                gauge_target(raw, v.catalog[i].scale),
            )
            &&& i64::MIN <= scaled_value(raw, v.catalog[i].scale) <= i64::MAX ==> gauge_target(
                raw,
                v.catalog[i].scale,
            ) == scaled_value(raw, v.catalog[i].scale)
        }),
{
    lemma_lookup_in_range(v.catalog, obis);
    let i = lookup(v.catalog, obis)->0;
    assert(v.cell_of[i] < v.cells.len());
}

/// Applying the same reading twice is applying it once.
pub proof fn law_same_reading_twice(v: RegistryView, obis: Seq<char>, raw: Seq<char>)
    requires
        v.wf(),
    ensures
        applied(applied(v, obis, raw), obis, raw) == applied(v, obis, raw),
{
    lemma_lookup_in_range(v.catalog, obis);
    let w = applied(v, obis, raw);
    match lookup(v.catalog, obis) {
        None => {},
        Some(i) => {
            let k = v.cell_of[i] as int;
            assert(v.cell_of[i] < v.cells.len());
            assert(advanced(w.cells[k], v.catalog[i], raw) =~= w.cells[k]);
            assert(applied(w, obis, raw).cells =~= w.cells);
            assert(applied(w, obis, raw) =~= w);
        },
    }
}

/// Processing the same line twice in a row is processing it once: the second
/// time nothing changes.
pub proof fn law_same_line_twice(v: RegistryView, line: Seq<char>)
    requires
        v.wf(),
    ensures
        line_effect(line_effect(v, line), line) == line_effect(v, line),
{
    match decode(v.catalog, line) {
        None => {},
        Some(parsed) => {
            law_same_reading_twice(v, parsed.obis_code, parsed.raw_value);
        },
    }
}

} // verus!
