//! The metric registry: one metric instance for each metric name of the
//! catalog, and for each catalog entry the instance that it feeds.
use crate::applier::{applied, last_entry_for, lookup, ApplyError};
use crate::catalog::{
    catalog_valid, check_catalog, entries_view, entry_issue, CatalogEntry, CatalogError,
    EntryView, MetricKind,
};
use crate::decimal::{is_decimal, scale_decimal, signed_saturating};
use crate::decoder::ParsedLine;
use crate::metrics::{
    add_to_total, family_label_names, family_name, family_totals, gauge_name, gauge_reading,
    new_family, new_gauge, no_children, read_gauge, read_total, register_family, register_gauge,
    set_gauge, IntCounterFamily, IntGaugeCell,
};
use crate::text::{to_chars, window_equals};
use vstd::prelude::*;

verus! {

/// A fractional counter is kept in millionths of the exported unit.
pub const FRACTION_UNITS: u64 = 1_000_000;

/// The one label dimension that integer counters are partitioned by.
pub const LABEL_DIMENSION: &'static str = "tariff";

/// One metric instance.
pub enum MetricCell {
    Gauge(IntGaugeCell),
    IntCounter(IntCounterFamily),
    /// The total, in units of `1 / FRACTION_UNITS`.
    FloatCounter(u64),
}

/// What a metric instance holds.
#[verifier::ext_equal]
pub enum CellState {
    Gauge(i64),
    /// The totals of the children, each under its slot.
    IntCounter(Map<u64, u64>),
    /// The total, in units of `1 / FRACTION_UNITS`.
    FloatCounter(u64),
}

/// How a metric instance is exported.
pub enum Export {
    /// By the metrics crate, under this metric name and with these label
    /// names.
    Metric { name: Seq<char>, label_names: Seq<Seq<char>> },
    /// Not by the metrics crate: the registry keeps the total itself, and
    /// hands it out by the metric name of the catalog.
    Own,
}

impl MetricCell {
    pub open spec fn state(self) -> CellState {
        match self {
            MetricCell::Gauge(g) => CellState::Gauge(gauge_reading(g)),
            MetricCell::IntCounter(f) => CellState::IntCounter(family_totals(f)),
            MetricCell::FloatCounter(total) => CellState::FloatCounter(total),
        }
    }

    pub open spec fn export(self) -> Export {
        match self {
            MetricCell::Gauge(g) => Export::Metric {
                name: gauge_name(g),
                label_names: Seq::empty(),
            },
            MetricCell::IntCounter(f) => Export::Metric {
                name: family_name(f),
                label_names: family_label_names(f),
            },
            MetricCell::FloatCounter(_) => Export::Own,
        }
    }
}

/// How the instance of a catalog entry is exported: a gauge under the
/// entry's metric name, an integer counter under that name and partitioned
/// by the one label dimension, a fractional counter by the registry itself.
pub open spec fn export_of(entry: EntryView) -> Export {
    match entry.kind {
        MetricKind::GaugeInt => Export::Metric {
            name: entry.metric_name,
            label_names: Seq::empty(),
        },
        MetricKind::CounterIntDelta => Export::Metric {
            name: entry.metric_name,
            label_names: seq![LABEL_DIMENSION@],
        },
        MetricKind::CounterFloatDelta => Export::Own,
    }
}

impl CellState {
    /// The kind of catalog entry that feeds such an instance.
    pub open spec fn kind(self) -> MetricKind {
        match self {
            CellState::Gauge(_) => MetricKind::GaugeInt,
            CellState::IntCounter(_) => MetricKind::CounterIntDelta,
            CellState::FloatCounter(_) => MetricKind::CounterFloatDelta,
        }
    }

    /// An instance that no reading has touched.
    pub open spec fn is_fresh(self) -> bool {
        match self {
            CellState::Gauge(v) => v == 0,
            CellState::IntCounter(totals) => totals == no_children(),
            CellState::FloatCounter(total) => total == 0,
        }
    }
}

pub open spec fn cell_states(cells: Seq<MetricCell>) -> Seq<CellState> {
    Seq::new(cells.len(), |k: int| cells[k].state())
}

pub open spec fn cell_exports(cells: Seq<MetricCell>) -> Seq<Export> {
    Seq::new(cells.len(), |k: int| cells[k].export())
}

/// The first `n` catalog entries are laid out over the instances: each feeds
/// an instance of its kind that is exported as the entry asks, and two feed
/// the same instance exactly when they export the same metric name.
pub open spec fn laid_out(
    catalog: Seq<EntryView>,
    cells: Seq<CellState>,
    exports: Seq<Export>,
    cell_of: Seq<usize>,
    n: int,
) -> bool {
    &&& cell_of.len() == n
    &&& n <= catalog.len()
    &&& exports.len() == cells.len()
    &&& forall|a: int|
        0 <= a < n ==> {
            &&& (#[trigger] cell_of[a]) < cells.len()
            &&& cells[cell_of[a] as int].kind() == catalog[a].kind
            &&& exports[cell_of[a] as int] == export_of(catalog[a])
        }
    &&& forall|a: int, b: int|
        #![trigger cell_of[a], cell_of[b]]
        0 <= a < n && 0 <= b < n ==> ((catalog[a].metric_name == catalog[b].metric_name) <==> (
        cell_of[a] == cell_of[b]))
}

/// A registry as plain values.
#[verifier::ext_equal]
pub struct RegistryView {
    pub catalog: Seq<EntryView>,
    /// What each metric instance holds.
    pub cells: Seq<CellState>,
    /// How each metric instance is exported.
    pub exports: Seq<Export>,
    /// For each catalog entry, the index of the instance that it feeds.
    pub cell_of: Seq<usize>,
}

/// Index of the first entry of `c` at or after `from` that exports the
/// metric `name`, or the length of `c`.
pub open spec fn first_named(c: Seq<EntryView>, name: Seq<char>, from: int) -> int
    decreases c.len() - from,
{
    if from >= c.len() {
        c.len() as int
    } else if c[from].metric_name == name {
        from
    } else {
        first_named(c, name, from + 1)
    }
}

impl RegistryView {
    /// What the instance of the metric `name` holds, if the catalog exports
    /// such a metric.
    pub open spec fn cell_named(self, name: Seq<char>) -> Option<CellState> {
        let i = first_named(self.catalog, name, 0);
        if i < self.catalog.len() {
            Some(self.cells[self.cell_of[i] as int])
        } else {
            None
        }
    }

    /// The value of the gauge `name`.
    pub open spec fn gauge(self, name: Seq<char>) -> Option<i64> {
        match self.cell_named(name) {
            Some(CellState::Gauge(value)) => Some(value),
            _ => None,
        }
    }

    /// The total of the fractional counter `name`, in units of
    /// `1 / FRACTION_UNITS`.
    pub open spec fn fraction(self, name: Seq<char>) -> Option<u64> {
        match self.cell_named(name) {
            Some(CellState::FloatCounter(total)) => Some(total),
            _ => None,
        }
    }

    pub open spec fn wf(self) -> bool {
        &&& catalog_valid(self.catalog)
        &&& laid_out(
            self.catalog,
            self.cells,
            self.exports,
            self.cell_of,
            self.catalog.len() as int,
        )
    }

    pub open spec fn is_fresh(self) -> bool {
        forall|k: int| 0 <= k < self.cells.len() ==> (#[trigger] self.cells[k]).is_fresh()
    }
}

/// Why a registry could not be built.
#[derive(Debug)]
pub enum RegistryError {
    /// The catalog is invalid.
    Catalog(CatalogError),
    /// The metric of this catalog entry was refused when it was made or
    /// registered for export.
    Rejected { entry: usize, cause: prometheus::Error },
}

/// The metric instances of a catalog. It owns them all; a reading changes
/// what an instance holds and nothing else.
pub struct Registry {
    catalog: Vec<CatalogEntry>,
    cells: Vec<MetricCell>,
    cell_of: Vec<usize>,
}

impl View for Registry {
    type V = RegistryView;

    closed spec fn view(&self) -> RegistryView {
        RegistryView {
            catalog: entries_view(self.catalog@),
            cells: cell_states(self.cells@),
            exports: cell_exports(self.cells@),
            cell_of: self.cell_of@,
        }
    }
}

/// Index of an entry before `i` that exports the metric name of entry `i`.
fn earlier_entry_of_name(catalog: &Vec<CatalogEntry>, i: usize) -> (r: Option<usize>)
    requires
        i < catalog.len(),
    ensures
        r matches Some(j) ==> j < i && catalog@[j as int]@.metric_name
            == catalog@[i as int]@.metric_name,
        r is None ==> forall|a: int|
            0 <= a < i ==> (#[trigger] catalog@[a])@.metric_name != catalog@[i as int]@.metric_name,
{
    let mut j: usize = 0;
    while j < i
        invariant
            0 <= j <= i < catalog.len(),
            forall|a: int|
                0 <= a < j ==> (#[trigger] catalog@[a])@.metric_name
                    != catalog@[i as int]@.metric_name,
        decreases i - j,
    {
        if catalog[j].metric_name == catalog[i].metric_name {
            return Some(j);
        }
        j = j + 1;
    }
    None
}

/// Makes the metric instance of a catalog entry and registers it for export.
fn make_cell(entry: &CatalogEntry) -> (r: Result<MetricCell, prometheus::Error>)
    ensures
        r matches Ok(cell) ==> {
            &&& cell.state().kind() == entry.kind
            &&& cell.state().is_fresh()
            &&& cell.export() == export_of(entry@)
        },
        entry.kind == MetricKind::CounterFloatDelta ==> r is Ok,
{
    match entry.kind {
        MetricKind::GaugeInt => {
            match new_gauge(entry.metric_name.as_str(), entry.help_text.as_str()) {
                Ok(gauge) => match register_gauge(&gauge) {
                    Ok(()) => Ok(MetricCell::Gauge(gauge)),
                    Err(cause) => Err(cause),
                },
                Err(cause) => Err(cause),
            }
        },
        MetricKind::CounterIntDelta => {
            let mut label_names: Vec<String> = Vec::new();
            label_names.push(LABEL_DIMENSION.to_owned());
            assert(crate::catalog::strings_view(label_names@) =~= seq![LABEL_DIMENSION@]);
            match new_family(entry.metric_name.as_str(), entry.help_text.as_str(), &label_names) {
                Ok(family) => match register_family(&family) {
                    Ok(()) => Ok(MetricCell::IntCounter(family)),
                    Err(cause) => Err(cause),
                },
                Err(cause) => Err(cause),
            }
        },
        MetricKind::CounterFloatDelta => Ok(MetricCell::FloatCounter(0)),
    }
}

/// Takes up what `make_cell` gave for catalog entry `entry`: a new instance
/// goes behind the others and the entry feeds it; a refusal is reported
/// with the entry, and nothing is taken up.
fn place_cell(
    cells: &mut Vec<MetricCell>,
    cell_of: &mut Vec<usize>,
    entry: usize,
    made: Result<MetricCell, prometheus::Error>,
) -> (r: Result<(), RegistryError>)
    ensures
        match made {
            Ok(cell) => {
                &&& r is Ok
                &&& final(cells)@ == old(cells)@.push(cell)
                &&& final(cell_of)@ == old(cell_of)@.push(old(cells).len())
            },
            Err(refusal) => {
                &&& r matches Err(RegistryError::Rejected { entry: at, cause })
                &&& at == entry
                &&& cause == refusal
                &&& final(cells)@ == old(cells)@
                &&& final(cell_of)@ == old(cell_of)@
            },
        },
{
    match made {
        Ok(cell) => {
            cell_of.push(cells.len());
            cells.push(cell);
            Ok(())
        },
        Err(cause) => Err(RegistryError::Rejected { entry, cause }),
    }
}

impl Registry {
    /// The registry's invariant: the catalog is valid and its entries are
    /// laid out over the instances.
    pub open spec fn wf(&self) -> bool {
        self@.wf()
    }

    /// Builds the registry of a catalog: one metric instance for each metric
    /// name, of the kind of the entries that export it, registered for
    /// export under the help text of the first of them.
    ///
    /// An invalid catalog is refused before any metric is made. For a valid
    /// one the metrics crate decides, at the first entry of each metric name,
    /// whether the instance can be made and registered; fractional counters
    /// are the registry's own and cannot be refused.
    pub fn build(catalog: Vec<CatalogEntry>) -> (r: Result<Registry, RegistryError>)
        ensures
            match r {
                Ok(registry) => {
                    &&& registry.wf()
                    &&& registry@.catalog == entries_view(catalog@)
                    &&& registry@.is_fresh()
                },
                Err(RegistryError::Catalog(e)) => {
                    &&& e.entry < catalog.len()
                    &&& entry_issue(entries_view(catalog@), e.entry as int) == Some(e.issue)
                    &&& forall|k: int|
                        0 <= k < e.entry ==> (#[trigger] entry_issue(
                            entries_view(catalog@),
                            k,
                        )) is None
                },
                Err(RegistryError::Rejected { entry, .. }) => {
                    &&& catalog_valid(entries_view(catalog@))
                    &&& entry < catalog.len()
                    &&& entries_view(catalog@)[entry as int].kind != MetricKind::CounterFloatDelta
                    &&& forall|a: int|
                        0 <= a < entry ==> (#[trigger] entries_view(catalog@)[a]).metric_name
                            != entries_view(catalog@)[entry as int].metric_name
                },
            },
            !catalog_valid(entries_view(catalog@)) ==> r matches Err(RegistryError::Catalog(_)),
            catalog_valid(entries_view(catalog@)) && (forall|k: int|
                0 <= k < catalog.len() ==> (#[trigger] entries_view(catalog@)[k]).kind
                    == MetricKind::CounterFloatDelta) ==> r is Ok,
    {
        match check_catalog(&catalog) {
            Err(e) => {
                return Err(RegistryError::Catalog(e));
            },
            Ok(()) => {},
        }
        let ghost c = entries_view(catalog@);
        let mut cells: Vec<MetricCell> = Vec::new();
        let mut cell_of: Vec<usize> = Vec::new();
        let mut i: usize = 0;
        while i < catalog.len()
            invariant
                0 <= i <= catalog.len(),
                c == entries_view(catalog@),
                catalog_valid(c),
                laid_out(c, cell_states(cells@), cell_exports(cells@), cell_of@, i as int),
                forall|k: int| 0 <= k < cells.len() ==> (#[trigger] cells@[k]).state().is_fresh(),
            decreases catalog.len() - i,
        {
            assert(c[i as int] == catalog@[i as int]@);
            assert(entry_issue(c, i as int) is None);
            match earlier_entry_of_name(&catalog, i) {
                Some(j) => {
                    assert(c[j as int] == catalog@[j as int]@);
                    let ghost before = cell_of@;
                    let cell: usize = cell_of[j];
                    cell_of.push(cell);
                    proof {
                        let states = cell_states(cells@);
                        let exports = cell_exports(cells@);
                        assert(before[j as int] == cell);
                        // no conflict of kinds: the earlier entry has this kind
                        assert(c[j as int].kind == c[i as int].kind);
                        assert forall|a: int, b: int|
                            #![trigger cell_of@[a], cell_of@[b]]
                            0 <= a < i + 1 && 0 <= b < i + 1 implies ((c[a].metric_name
                            == c[b].metric_name) <==> (cell_of@[a] == cell_of@[b])) by {
                            let a0: int = if a == i {
                                j as int
                            } else {
                                a
                            };
                            let b0: int = if b == i {
                                j as int
                            } else {
                                b
                            };
                            assert(cell_of@[a] == before[a0]);
                            assert(cell_of@[b] == before[b0]);
                            assert((c[a0].metric_name == c[b0].metric_name) <==> (before[a0]
                                == before[b0]));
                        }
                        assert forall|a: int| 0 <= a < i + 1 implies {
                            &&& (#[trigger] cell_of@[a]) < states.len()
                            &&& states[cell_of@[a] as int].kind() == c[a].kind
                            &&& exports[cell_of@[a] as int] == export_of(c[a])
                        } by {
                            if a < i {
                                assert(cell_of@[a] == before[a]);
                            } else {
                                assert(exports[before[j as int] as int] == export_of(c[j as int]));
                            }
                        }
                    }
                },
                None => {
                    let ghost before = cell_of@;
                    let ghost old_states = cell_states(cells@);
                    let ghost old_exports = cell_exports(cells@);
                    let ghost old_cells = cells@;
                    let made = make_cell(&catalog[i]);
                    match place_cell(&mut cells, &mut cell_of, i, made) {
                        Err(refused) => {
                            assert forall|a: int| 0 <= a < i implies (#[trigger] c[a]).metric_name
                                != c[i as int].metric_name by {
                                assert(catalog@[a]@ == c[a]);
                            }
                            return Err(refused);
                        },
                        Ok(()) => {
                            proof {
                                let cell = made->Ok_0;
                                let states = cell_states(cells@);
                                let exports = cell_exports(cells@);
                                assert(states =~= old_states.push(cell.state()));
                                assert(exports =~= old_exports.push(cell.export()));
                                assert forall|a: int, b: int|
                                    #![trigger cell_of@[a], cell_of@[b]]
                                    0 <= a < i + 1 && 0 <= b < i + 1 implies ((c[a].metric_name
                                    == c[b].metric_name) <==> (cell_of@[a] == cell_of@[b])) by {
                                    if a < i {
                                        assert(cell_of@[a] == before[a]);
                                        assert(before[a] < old_states.len());
                                        assert(catalog@[a]@ == c[a]);
                                    }
                                    if b < i {
                                        assert(cell_of@[b] == before[b]);
                                        assert(before[b] < old_states.len());
                                        assert(catalog@[b]@ == c[b]);
                                    }
                                    if a < i && b < i {
                                        assert((c[a].metric_name == c[b].metric_name) <==> (
                                        before[a] == before[b]));
                                    }
                                }
                                assert forall|a: int| 0 <= a < i + 1 implies {
                                    &&& (#[trigger] cell_of@[a]) < states.len()
                                    &&& states[cell_of@[a] as int].kind() == c[a].kind
                                    &&& exports[cell_of@[a] as int] == export_of(c[a])
                                } by {
                                    if a < i {
                                        assert(cell_of@[a] == before[a]);
                                        assert(before[a] < old_states.len());
                                        assert(old_exports[before[a] as int] == export_of(c[a]));
                                    }
                                }
                                assert forall|k: int| 0 <= k < cells.len() implies (
                                #[trigger] cells@[k]).state().is_fresh() by {
                                    if k < old_cells.len() {
                                        assert(cells@[k] == old_cells[k]);
                                    }
                                }
                            }
                        },
                    }
                },
            }
            i = i + 1;
        }
        let registry = Registry { catalog, cells, cell_of };
        proof {
            assert(registry@.is_fresh()) by {
                assert forall|k: int| 0 <= k < registry@.cells.len() implies (
                #[trigger] registry@.cells[k]).is_fresh() by {
                    assert(registry@.cells[k] == registry.cells@[k].state());
                }
            }
        }
        Ok(registry)
    }

    /// The catalog entry that handles an OBIS code, if the code is monitored.
    pub fn lookup(&self, obis_code: &str) -> (r: Option<usize>)
        ensures
            match r {
                Some(i) => lookup(self@.catalog, obis_code@) == Some(i as int) && i
                    < self@.catalog.len(),
                None => lookup(self@.catalog, obis_code@) is None,
            },
    {
        let ghost c = entries_view(self.catalog@);
        let chars = to_chars(obis_code);
        let n: usize = chars.len();
        assert(chars@.subrange(0, n as int) =~= obis_code@);
        let mut upto: usize = self.catalog.len();
        while upto > 0
            invariant
                0 <= upto <= self.catalog.len(),
                c == entries_view(self.catalog@),
                n == chars.len(),
                chars@.subrange(0, n as int) == obis_code@,
                last_entry_for(c, obis_code@, c.len() as int) == last_entry_for(
                    c,
                    obis_code@,
                    upto as int,
                ),
            decreases upto,
        {
            assert(c[upto - 1] == self.catalog@[upto - 1]@);
            if window_equals(&chars, 0, n, self.catalog[upto - 1].obis_code.as_str()) {
                return Some(upto - 1);
            }
            upto = upto - 1;
        }
        None
    }

    /// Applies a decoded reading.
    ///
    /// A code that is not monitored is passed over. A reading that is no
    /// decimal number is an error and changes nothing. Otherwise the instance
    /// of the code's entry is advanced: a gauge is set, a counter is raised
    /// by what the reading is above its total, if it is.
    pub fn apply(&mut self, parsed: &ParsedLine) -> (r: Result<(), ApplyError>)
        requires
            old(self).wf(),
        ensures
            final(self).wf(),
            r is Err <==> lookup(old(self)@.catalog, parsed.obis_code@) is Some && !is_decimal(
                parsed.raw_value@,
            ),
            r is Ok ==> final(self)@ == applied(
                old(self)@,
                parsed.obis_code@,
                parsed.raw_value@,
            ),
            r is Err ==> final(self)@ == old(self)@,
            r matches Err(e) ==> e == ApplyError::InvalidNumber,
    {
        let i: usize = match self.lookup(parsed.obis_code) {
            None => {
                return Ok(());
            },
            Some(i) => i,
        };
        let ghost v = self@;
        let ghost c = entries_view(self.catalog@);
        assert(c[i as int] == self.catalog@[i as int]@);
        let raw = to_chars(parsed.raw_value);
        let entry = &self.catalog[i];
        let multiplier: u64 = match entry.kind {
            MetricKind::CounterFloatDelta => entry.scale as u64 * FRACTION_UNITS,
            _ => entry.scale as u64,
        };
        let (negative, magnitude) = match scale_decimal(&raw, multiplier) {
            None => {
                return Err(ApplyError::InvalidNumber);
            },
            Some(scaled) => scaled,
        };
        let reading: u64 = if negative {
            0
        } else {
            magnitude
        };
        let cell: usize = self.cell_of[i];
        let ghost old_cells = self.cells@;
        proof {
            assert(v.cells[cell as int] == old_cells[cell as int].state());
            assert(entry_issue(c, i as int) is None);
            assert(v.cell_of[i as int] == cell);
            assert(v.cells[cell as int].kind() == c[i as int].kind);
            assert(v.exports[cell as int] == export_of(c[i as int]));
            assert(v.exports[cell as int] == old_cells[cell as int].export());
            assert(c[i as int].label_values.len() == entry.label_values.len());
        }
        match &mut self.cells[cell] {
            MetricCell::Gauge(gauge) => {
                set_gauge(gauge, signed_saturating(negative, magnitude));
            },
            MetricCell::IntCounter(family) => {
                let total: u64 = read_total(family, &entry.label_values);
                if reading > total {
                    add_to_total(family, &entry.label_values, (reading - total) as u64);
                }
            },
            MetricCell::FloatCounter(total) => {
                if reading > *total {
                    *total = reading;
                }
            },
        }
        proof {
            let after = applied(v, parsed.obis_code@, parsed.raw_value@);
            assert(self.cells@.len() == old_cells.len());
            assert forall|k: int| 0 <= k < self.cells@.len() && k != cell implies self.cells@[k]
                == old_cells[k] by {}
            assert(self.cells@[cell as int].state() =~= after.cells[cell as int]);
            assert(self.cells@[cell as int].export() == old_cells[cell as int].export());
            assert(self@.cells =~= after.cells);
            assert(self@.exports =~= after.exports);
            assert(self@ =~= after);
        }
        Ok(())
    }

    /// Index of the instance of the metric `name`.
    fn cell_index(&self, metric_name: &str) -> (r: Option<usize>)
        requires
            self.wf(),
        ensures
            match r {
                Some(k) => k < self.cells.len() && self@.cell_named(metric_name@) == Some(
                    self.cells@[k as int].state(),
                ),
                None => self@.cell_named(metric_name@) is None,
            },
    {
        let ghost c = entries_view(self.catalog@);
        let chars = to_chars(metric_name);
        let n: usize = chars.len();
        assert(chars@.subrange(0, n as int) =~= metric_name@);
        let mut i: usize = 0;
        while i < self.catalog.len()
            invariant
                0 <= i <= self.catalog.len(),
                self.wf(),
                c == entries_view(self.catalog@),
                n == chars.len(),
                chars@.subrange(0, n as int) == metric_name@,
                first_named(c, metric_name@, 0) == first_named(c, metric_name@, i as int),
            decreases self.catalog.len() - i,
        {
            assert(c[i as int] == self.catalog@[i as int]@);
            if window_equals(&chars, 0, n, self.catalog[i].metric_name.as_str()) {
                assert(self@.cell_of[i as int] < self@.cells.len());
                return Some(self.cell_of[i]);
            }
            i = i + 1;
        }
        None
    }

    /// The value of the gauge `metric_name`; `None` where the catalog exports
    /// no gauge of that name.
    pub fn gauge_value(&self, metric_name: &str) -> (r: Option<i64>)
        requires
            self.wf(),
        ensures
            r == self@.gauge(metric_name@),
    {
        match self.cell_index(metric_name) {
            Some(k) => match &self.cells[k] {
                MetricCell::Gauge(gauge) => Some(read_gauge(gauge)),
                _ => None,
            },
            None => None,
        }
    }

    /// The total of the fractional counter `metric_name`, in units of
    /// `1 / FRACTION_UNITS`; `None` where the catalog exports no fractional
    /// counter of that name.
    pub fn fraction_total(&self, metric_name: &str) -> (r: Option<u64>)
        requires
            self.wf(),
        ensures
            r == self@.fraction(metric_name@),
    {
        match self.cell_index(metric_name) {
            Some(k) => match &self.cells[k] {
                MetricCell::FloatCounter(total) => Some(*total),
                _ => None,
            },
            None => None,
        }
    }

    /// The catalog that the registry was built from.
    pub fn catalog(&self) -> (r: &Vec<CatalogEntry>)
        ensures
            entries_view(r@) == self@.catalog,
    {
        &self.catalog
    }
}

} // verus!
