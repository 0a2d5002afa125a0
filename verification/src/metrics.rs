//! The exported metric instances. They are kept by the `prometheus` crate;
//! everything in this file is believed of that crate, not proved.
//!
//! A metric instance of that crate is a shared handle whose value changes
//! behind `&self`. Here a handle is never cloned but for registration, which
//! only reads, and every change goes through `&mut`: so the value behind a
//! handle is a function of the handle, and changes only in these calls.
use crate::catalog::strings_view;
use vstd::prelude::*;

verus! {

/// A `prometheus::IntGauge`: one signed integer, last write wins. The
/// verifier cannot take the crate's generic metric types, so the handle is
/// held in a struct that it does not look into.
#[verifier::external_body]
pub struct IntGaugeCell {
    inner: prometheus::IntGauge,
}

/// A `prometheus::IntCounterVec`: unsigned integer counters of one metric
/// name, one child per list of label values. Held like the gauge.
#[verifier::external_body]
pub struct IntCounterFamily {
    inner: prometheus::IntCounterVec,
}

/// `prometheus::Error`: why the crate refused a metric. It is carried
/// through as it comes.
#[verifier::external_type_specification]
#[verifier::external_body]
pub struct ExMetricError(prometheus::Error);

/// The value that the gauge holds.
pub uninterp spec fn gauge_reading(g: IntGaugeCell) -> i64;

/// The metric name that the gauge was made with and is exported under.
pub uninterp spec fn gauge_name(g: IntGaugeCell) -> Seq<char>;

/// The children that the family holds, each under its slot, with its total.
pub uninterp spec fn family_totals(f: IntCounterFamily) -> Map<u64, u64>;

/// The metric name that the family was made with and is exported under.
pub uninterp spec fn family_name(f: IntCounterFamily) -> Seq<char>;

/// The label names that the family was made with, in order.
pub uninterp spec fn family_label_names(f: IntCounterFamily) -> Seq<Seq<char>>;

/// The slot under which a family keeps the child for a list of label
/// values: the crate's hash of the values' bytes.
pub uninterp spec fn label_slot(label_values: Seq<Seq<char>>) -> u64;

/// A family without children.
pub open spec fn no_children() -> Map<u64, u64> {
    Map::empty()
}

/// The total under a slot; zero where the family holds no child there.
pub open spec fn total_at(totals: Map<u64, u64>, slot: u64) -> u64 {
    if totals.dom().contains(slot) {
        totals[slot]
    } else {
        0
    }
}

/// `prometheus::IntGauge::new`. A new gauge holds zero and has the name it
/// was given. The crate refuses a name that is no metric identifier and an
/// empty help text.
#[verifier::external_body]
pub(crate) fn new_gauge(name: &str, help: &str) -> (r: Result<IntGaugeCell, prometheus::Error>)
    ensures
        r matches Ok(g) ==> gauge_reading(g) == 0,
        r matches Ok(g) ==> gauge_name(g) == name@,
{
    prometheus::IntGauge::new(name, help).map(|inner| IntGaugeCell { inner })
}

/// `prometheus::register`, for a gauge: hands a clone of the handle to the
/// crate's default registry, from which the gauge is exported. Whether that
/// succeeds depends on what the process has registered before.
#[verifier::external_body]
pub(crate) fn register_gauge(g: &IntGaugeCell) -> (r: Result<(), prometheus::Error>) {
    prometheus::register(Box::new(g.inner.clone()))
}

/// `prometheus::IntGauge::set`: the gauge holds the value afterwards, under
/// the name it has.
#[verifier::external_body]
pub(crate) fn set_gauge(g: &mut IntGaugeCell, value: i64)
    ensures
        gauge_reading(*final(g)) == value,
        gauge_name(*final(g)) == gauge_name(*old(g)),
{
    g.inner.set(value)
}

/// `prometheus::IntGauge::get`: the value that the gauge holds.
#[verifier::external_body]
pub(crate) fn read_gauge(g: &IntGaugeCell) -> (value: i64)
    ensures
        value == gauge_reading(*g),
{
    g.inner.get()
}

/// `prometheus::IntCounterVec::new`, on `prometheus::Opts::new`. A new family
/// holds no child and has the name and the label names it was given. The
/// crate refuses a name or a label name that is no identifier and an empty
/// help text.
#[verifier::external_body]
pub(crate) fn new_family(
    name: &str,
    help: &str,
    label_names: &Vec<String>,
) -> (r: Result<IntCounterFamily, prometheus::Error>)
    ensures
        r matches Ok(f) ==> family_totals(f) == no_children(),
        r matches Ok(f) ==> family_name(f) == name@,
        r matches Ok(f) ==> family_label_names(f) == strings_view(label_names@),
{
    let names: Vec<&str> = label_names.iter().map(|s| s.as_str()).collect();
    prometheus::IntCounterVec::new(prometheus::Opts::new(name, help), &names).map(
        |inner| IntCounterFamily { inner },
    )
}

/// `prometheus::register`, for a counter family. See `register_gauge`.
#[verifier::external_body]
pub(crate) fn register_family(f: &IntCounterFamily) -> (r: Result<(), prometheus::Error>) {
    prometheus::register(Box::new(f.inner.clone()))
}

/// `prometheus::IntCounterVec::with_label_values`, then
/// `prometheus::IntCounter::get`: the total of the child for these label
/// values. The first call makes the child, at zero, where the family has none
/// under that slot. It panics where the number of values is not the number of
/// the family's label names.
#[verifier::external_body]
pub(crate) fn read_total(f: &mut IntCounterFamily, label_values: &Vec<String>) -> (total: u64)
    requires
        label_values.len() == family_label_names(*old(f)).len(),
    ensures
        total == total_at(family_totals(*old(f)), label_slot(strings_view(label_values@))),
        family_totals(*final(f)) == family_totals(*old(f)).insert(
            label_slot(strings_view(label_values@)),
            total,
        ),
        family_name(*final(f)) == family_name(*old(f)),
        family_label_names(*final(f)) == family_label_names(*old(f)),
{
    let values: Vec<&str> = label_values.iter().map(|s| s.as_str()).collect();
    f.inner.with_label_values(&values).get()
}

/// `prometheus::IntCounterVec::with_label_values`, then
/// `prometheus::IntCounter::inc_by`: adds `delta` to the child for these
/// label values, made at zero where the family has none under that slot. The
/// first call panics where the number of values is not the number of the
/// family's label names; the second adds modulo 2^64, which `requires` keeps
/// out.
#[verifier::external_body]
pub(crate) fn add_to_total(f: &mut IntCounterFamily, label_values: &Vec<String>, delta: u64)
    requires
        label_values.len() == family_label_names(*old(f)).len(),
        total_at(family_totals(*old(f)), label_slot(strings_view(label_values@))) + delta
            <= u64::MAX,
    ensures
        family_totals(*final(f)) == family_totals(*old(f)).insert(
            label_slot(strings_view(label_values@)),
            (total_at(family_totals(*old(f)), label_slot(strings_view(label_values@)))
                + delta) as u64,
        ),
        family_name(*final(f)) == family_name(*old(f)),
        family_label_names(*final(f)) == family_label_names(*old(f)),
{
    let values: Vec<&str> = label_values.iter().map(|s| s.as_str()).collect();
    f.inner.with_label_values(&values).inc_by(delta)
}

} // verus!
