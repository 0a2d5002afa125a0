//! The metric catalog: which OBIS codes are monitored, and how each is
//! exported.
use vstd::prelude::*;

verus! {

/// How a reading is turned into an exported value.
#[derive(Clone, Copy, Debug, PartialEq, Eq, Hash, Structural)]
pub enum MetricKind {
    /// Instantaneous signed integer; the last reading wins.
    GaugeInt,
    /// Absolute integer reading of a meter that only counts up; the exported
    /// counter follows it upward and never comes down.
    CounterIntDelta,
    /// The same with fractional precision.
    CounterFloatDelta,
}

/// One line of the catalog.
#[derive(Debug)]
pub struct CatalogEntry {
    pub obis_code: String,
    pub metric_name: String,
    pub help_text: String,
    pub kind: MetricKind,
    /// Factor from the meter's unit to the exported unit.
    pub scale: u32,
    /// Values of the label dimension, for a labelled metric.
    pub label_values: Vec<String>,
}

/// A catalog entry as plain values.
pub struct EntryView {
    pub obis_code: Seq<char>,
    pub metric_name: Seq<char>,
    pub help_text: Seq<char>,
    pub kind: MetricKind,
    pub scale: nat,
    pub label_values: Seq<Seq<char>>,
}

/// The views of a sequence of strings.
pub open spec fn strings_view(v: Seq<String>) -> Seq<Seq<char>> {
    Seq::new(v.len(), |i: int| v[i]@)
}

impl View for CatalogEntry {
    type V = EntryView;

    open spec fn view(&self) -> EntryView {
        EntryView {
            obis_code: self.obis_code@,
            metric_name: self.metric_name@,
            help_text: self.help_text@,
            kind: self.kind,
            scale: self.scale as nat,
            label_values: strings_view(self.label_values@),
        }
    }
}

/// The views of a sequence of entries.
pub open spec fn entries_view(c: Seq<CatalogEntry>) -> Seq<EntryView> {
    Seq::new(c.len(), |i: int| c[i]@)
}

/// What can be wrong with a catalog entry.
#[derive(Clone, Copy, Debug, PartialEq, Eq, Structural)]
pub enum CatalogIssue {
    /// The OBIS code is empty.
    EmptyObisCode,
    /// The metric name is no metric identifier.
    InvalidMetricName,
    /// The scale is zero.
    ZeroScale,
    /// An integer counter does not carry exactly one label value, for its
    /// one label dimension.
    LabelCount,
    /// An earlier entry exports the same metric name with another kind.
    KindConflict,
}

/// An invalid catalog: the first entry at fault and what is wrong with it.
#[derive(Clone, Copy, Debug, PartialEq, Eq, Structural)]
pub struct CatalogError {
    pub entry: usize,
    pub issue: CatalogIssue,
}

pub open spec fn is_name_start(c: char) -> bool {
    ('a' <= c && c <= 'z') || ('A' <= c && c <= 'Z') || c == '_' || c == ':'
}

pub open spec fn is_name_char(c: char) -> bool {
    is_name_start(c) || ('0' <= c && c <= '9')
}

/// A metric identifier: a letter, `_` or `:`, then letters, digits, `_` and `:`.
pub open spec fn is_metric_name(s: Seq<char>) -> bool {
    &&& s.len() > 0
    &&& is_name_start(s[0])
    &&& forall|i: int| 0 < i < s.len() ==> is_name_char(#[trigger] s[i])
}

/// Some entry before `i` exports the metric name of entry `i` with another kind.
pub open spec fn kind_conflict(c: Seq<EntryView>, i: int) -> bool {
    exists|j: int| 0 <= j < i && #[trigger] c[j].metric_name == c[i].metric_name && c[j].kind != c[i].kind
}

/// What is wrong with entry `i` of the catalog `c`, if anything.
pub open spec fn entry_issue(c: Seq<EntryView>, i: int) -> Option<CatalogIssue> {
    if c[i].obis_code.len() == 0 {
        Some(CatalogIssue::EmptyObisCode)
    } else if !is_metric_name(c[i].metric_name) {
        Some(CatalogIssue::InvalidMetricName)
    } else if c[i].scale == 0 {
        Some(CatalogIssue::ZeroScale)
    } else if c[i].kind == MetricKind::CounterIntDelta && c[i].label_values.len() != 1 {
        Some(CatalogIssue::LabelCount)
    } else if kind_conflict(c, i) {
        Some(CatalogIssue::KindConflict)
    } else {
        None
    }
}

/// A catalog in which no entry is at fault.
pub open spec fn catalog_valid(c: Seq<EntryView>) -> bool {
    forall|i: int| 0 <= i < c.len() ==> (#[trigger] entry_issue(c, i)) is None
}

fn check_metric_name(name: &str) -> (r: bool)
    ensures
        r == is_metric_name(name@),
{
    let chars = crate::text::to_chars(name);
    if chars.len() == 0 {
        return false;
    }
    let mut i: usize = 0;
    while i < chars.len()
        invariant
            0 <= i <= chars.len(),
            chars@ == name@,
            chars.len() > 0,
            i > 0 ==> is_name_start(chars@[0]),
            forall|k: int| 0 < k < i ==> is_name_char(#[trigger] chars@[k]),
        decreases chars.len() - i,
    {
        let c: char = chars[i];
        let start: bool = (c >= 'a' && c <= 'z') || (c >= 'A' && c <= 'Z') || c == '_' || c == ':';
        if !(start || (i > 0 && c >= '0' && c <= '9')) {
            return false;
        }
        i = i + 1;
    }
    true
}

/// Whether an entry before `i` exports the metric name of entry `i` with
/// another kind.
fn has_kind_conflict(catalog: &Vec<CatalogEntry>, i: usize) -> (r: bool)
    requires
        i < catalog.len(),
    ensures
        r == kind_conflict(entries_view(catalog@), i as int),
{
    let ghost c = entries_view(catalog@);
    let mut j: usize = 0;
    while j < i
        invariant
            0 <= j <= i < catalog.len(),
            c == entries_view(catalog@),
            forall|k: int|
                0 <= k < j ==> !(#[trigger] c[k].metric_name == c[i as int].metric_name && c[k].kind
                    != c[i as int].kind),
        decreases i - j,
    {
        if catalog[j].metric_name == catalog[i].metric_name && catalog[j].kind != catalog[i].kind {
            assert(c[j as int].metric_name == c[i as int].metric_name && c[j as int].kind
                != c[i as int].kind);
            return true;
        }
        j = j + 1;
    }
    false
}

/// Checks a catalog. Reports the first entry at fault.
pub fn check_catalog(catalog: &Vec<CatalogEntry>) -> (r: Result<(), CatalogError>)
    ensures
        r is Ok <==> catalog_valid(entries_view(catalog@)),
        r matches Err(e) ==> {
            &&& e.entry < catalog.len()
            &&& entry_issue(entries_view(catalog@), e.entry as int) == Some(e.issue)
            &&& forall|k: int|
                0 <= k < e.entry ==> (#[trigger] entry_issue(entries_view(catalog@), k)) is None
        },
{
    let ghost c = entries_view(catalog@);
    let mut i: usize = 0;
    while i < catalog.len()
        invariant
            0 <= i <= catalog.len(),
            c == entries_view(catalog@),
            forall|k: int| 0 <= k < i ==> (#[trigger] entry_issue(c, k)) is None,
        decreases catalog.len() - i,
    {
        let entry = &catalog[i];
        assert(c[i as int] == entry@);
        let issue: Option<CatalogIssue> = if entry.obis_code.as_str().is_empty() {
            Some(CatalogIssue::EmptyObisCode)
        } else if !check_metric_name(entry.metric_name.as_str()) {
            Some(CatalogIssue::InvalidMetricName)
        } else if entry.scale == 0 {
            Some(CatalogIssue::ZeroScale)
        } else if entry.kind == MetricKind::CounterIntDelta && entry.label_values.len() != 1 {
            Some(CatalogIssue::LabelCount)
        } else if has_kind_conflict(catalog, i) {
            Some(CatalogIssue::KindConflict)
        } else {
            None
        };
        assert(issue == entry_issue(c, i as int));
        match issue {
            Some(found) => {
                return Err(CatalogError { entry: i, issue: found });
            },
            None => {},
        }
        i = i + 1;
    }
    Ok(())
}

fn entry(
    obis_code: &str,
    metric_name: &str,
    help_text: &str,
    kind: MetricKind,
    scale: u32,
    label: Option<&str>,
) -> (r: CatalogEntry)
    ensures
        r@ == (EntryView {
            obis_code: obis_code@,
            metric_name: metric_name@,
            help_text: help_text@,
            kind,
            scale: scale as nat,
            label_values: match label {
                Some(l) => seq![l@],
                None => Seq::empty(),
            },
        }),
{
    let mut label_values: Vec<String> = Vec::new();
    match label {
        Some(l) => {
            label_values.push(l.to_owned());
        },
        None => {},
    }
    let r = CatalogEntry {
        obis_code: obis_code.to_owned(),
        metric_name: metric_name.to_owned(),
        help_text: help_text.to_owned(),
        kind,
        scale,
        label_values,
    };
    assert(r@.label_values =~= match label {
        Some(l) => seq![l@],
        None => Seq::empty(),
    });
    r
}

/// The catalog that `catalog` returns.
pub open spec fn builtin_entries() -> Seq<EntryView> {
    seq![
        EntryView {
            obis_code: "1-0:1.7.0"@,
            metric_name: "p1_actual_power_delivered_watts"@,
            help_text: "Actual electricity power delivered (+P) in watts (1-0:1.7.0)"@,
            kind: MetricKind::GaugeInt,
            scale: 1000,
            label_values: Seq::empty(),
        },
        EntryView {
            obis_code: "1-0:2.7.0"@,
            metric_name: "p1_actual_power_received_watts"@,
            help_text: "Actual electricity power received (-P) in watts (1-0:2.7.0)"@,
            kind: MetricKind::GaugeInt,
            scale: 1000,
            label_values: Seq::empty(),
        },
        EntryView {
            obis_code: "1-0:1.8.1"@,
            metric_name: "p1_total_energy_delivered_watthours"@,
            help_text: "Total electricity energy delivered (+P), tariff 1, in Wh (1-0:1.8.1)"@,
            kind: MetricKind::CounterIntDelta,
            scale: 1000,
            label_values: seq!["1"@],
        },
        EntryView {
            obis_code: "1-0:1.8.2"@,
            metric_name: "p1_total_energy_delivered_watthours"@,
            help_text: "Total electricity energy delivered (+P), tariff 2, in Wh (1-0:1.8.2)"@,
            kind: MetricKind::CounterIntDelta,
            scale: 1000,
            label_values: seq!["2"@],
        },
        EntryView {
            obis_code: "1-0:2.8.1"@,
            metric_name: "p1_total_energy_received_watthours"@,
            help_text: "Total electricity energy received (-P), tariff 1, in Wh (1-0:2.8.1)"@,
            kind: MetricKind::CounterIntDelta,
            scale: 1000,
            label_values: seq!["1"@],
        },
        EntryView {
            obis_code: "1-0:2.8.2"@,
            metric_name: "p1_total_energy_received_watthours"@,
            help_text: "Total electricity energy received (-P), tariff 2, in Wh (1-0:2.8.2)"@,
            kind: MetricKind::CounterIntDelta,
            scale: 1000,
            label_values: seq!["2"@],
        },
        EntryView {
            obis_code: "0-1:24.2.3"@,
            metric_name: "p1_total_gas_delivered_m3"@,
            help_text: "Total gas delivered in m3 (0-1:24.2.3)"@,
            kind: MetricKind::CounterFloatDelta,
            scale: 1,
            label_values: Seq::empty(),
        },
    ]
}

/// The catalog that `catalog` returns is valid.
pub proof fn lemma_builtin_entries_valid()
    ensures
        catalog_valid(builtin_entries()),
{
    reveal_strlit("1-0:1.7.0");
    reveal_strlit("1-0:2.7.0");
    reveal_strlit("1-0:1.8.1");
    reveal_strlit("1-0:1.8.2");
    reveal_strlit("1-0:2.8.1");
    reveal_strlit("1-0:2.8.2");
    reveal_strlit("0-1:24.2.3");
    reveal_strlit("p1_actual_power_delivered_watts");
    reveal_strlit("p1_actual_power_received_watts");
    reveal_strlit("p1_total_energy_delivered_watthours");
    reveal_strlit("p1_total_energy_received_watthours");
    reveal_strlit("p1_total_gas_delivered_m3");
    let c = builtin_entries();
    assert(c.len() == 7);
    assert forall|i: int| 0 <= i < c.len() implies (#[trigger] entry_issue(c, i)) is None by {
        assert(is_metric_name(c[i].metric_name));
        assert(!kind_conflict(c, i)) by {
            assert forall|j: int| 0 <= j < i implies !(#[trigger] c[j].metric_name
                == c[i].metric_name && c[j].kind != c[i].kind) by {
                if c[j].kind != c[i].kind {
                    assert(c[j].metric_name.len() != c[i].metric_name.len());
                }
            }
        }
    }
}

/// The catalog of the meter's monitored readings: power in both directions
/// as gauges, energy in both directions and per tariff as integer counters,
/// gas as a fractional counter.
pub fn catalog() -> (r: Vec<CatalogEntry>)
    ensures
        entries_view(r@) == builtin_entries(),
        catalog_valid(entries_view(r@)),
{
    proof {
        lemma_builtin_entries_valid();
    }
    let mut c: Vec<CatalogEntry> = Vec::new();
    c.push(
        entry(
            "1-0:1.7.0",
            "p1_actual_power_delivered_watts",
            "Actual electricity power delivered (+P) in watts (1-0:1.7.0)",
            MetricKind::GaugeInt,
            1000,
            None,
        ),
    );
    c.push(
        entry(
            "1-0:2.7.0",
            "p1_actual_power_received_watts",
            "Actual electricity power received (-P) in watts (1-0:2.7.0)",
            MetricKind::GaugeInt,
            1000,
            None,
        ),
    );
    c.push(
        entry(
            "1-0:1.8.1",
            "p1_total_energy_delivered_watthours",
            "Total electricity energy delivered (+P), tariff 1, in Wh (1-0:1.8.1)",
            MetricKind::CounterIntDelta,
            1000,
            Some("1"),
        ),
    );
    c.push(
        entry(
            "1-0:1.8.2",
            "p1_total_energy_delivered_watthours",
            "Total electricity energy delivered (+P), tariff 2, in Wh (1-0:1.8.2)",
            MetricKind::CounterIntDelta,
            1000,
            Some("2"),
        ),
    );
    c.push(
        entry(
            "1-0:2.8.1",
            "p1_total_energy_received_watthours",
            "Total electricity energy received (-P), tariff 1, in Wh (1-0:2.8.1)",
            MetricKind::CounterIntDelta,
            1000,
            Some("1"),
        ),
    );
    c.push(
        entry(
            "1-0:2.8.2",
            "p1_total_energy_received_watthours",
            "Total electricity energy received (-P), tariff 2, in Wh (1-0:2.8.2)",
            MetricKind::CounterIntDelta,
            1000,
            Some("2"),
        ),
    );
    c.push(
        entry(
            "0-1:24.2.3",
            "p1_total_gas_delivered_m3",
            "Total gas delivered in m3 (0-1:24.2.3)",
            MetricKind::CounterFloatDelta,
            1,
            None,
        ),
    );
    assert(entries_view(c@) =~= builtin_entries());
    c
}

} // verus!
