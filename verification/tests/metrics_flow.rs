use p1_exporter::{
    catalog, process_p1_line, ApplyError, CatalogEntry, MetricKind, ParsedLine, Registry,
    FRACTION_UNITS,
};
use prometheus::{gather, proto::MetricType};
use std::sync::{Mutex, MutexGuard, OnceLock};

static METERS: OnceLock<Mutex<Registry>> = OnceLock::new();

/// The registry of the built-in catalog, one for the process.
fn meters() -> MutexGuard<'static, Registry> {
    METERS
        .get_or_init(|| Mutex::new(Registry::build(catalog()).expect("built-in catalog")))
        .lock()
        .unwrap_or_else(|poisoned| poisoned.into_inner())
}

fn entry(obis: &str, name: &str, kind: MetricKind, scale: u32, labels: &[&str]) -> CatalogEntry {
    CatalogEntry {
        obis_code: obis.to_string(),
        metric_name: name.to_string(),
        help_text: "help".to_string(),
        kind,
        scale,
        label_values: labels.iter().map(|l| l.to_string()).collect(),
    }
}

fn get_int_gauge_value(metric_name: &str) -> Option<i64> {
    for mf in gather() {
        if mf.name() == metric_name && mf.get_field_type() == MetricType::GAUGE {
            for m in mf.get_metric() {
                return Some(m.gauge.value.unwrap_or(0.0) as i64);
            }
        }
    }
    None
}

fn get_int_counter_vec_value(metric_name: &str, label: (&str, &str)) -> Option<u64> {
    let (label_name, label_value) = label;
    for mf in gather() {
        if mf.name() == metric_name && mf.get_field_type() == MetricType::COUNTER {
            for m in mf.get_metric() {
                let mut ok = false;
                for l in m.get_label() {
                    if l.name.as_deref() == Some(label_name)
                        && l.value.as_deref() == Some(label_value)
                    {
                        ok = true;
                        break;
                    }
                }
                if ok {
                    return Some(m.counter.value.unwrap_or(0.0) as u64);
                }
            }
        }
    }
    None
}

fn gas_total(registry: &Registry) -> f64 {
    let units = registry.fraction_total("p1_total_gas_delivered_m3").expect("gas counter");
    units as f64 / FRACTION_UNITS as f64
}

#[test]
fn parses_current_power_consumed() {
    let mut registry = meters();
    // 1.230 kW -> 1230 W
    process_p1_line(&mut registry, "1-0:1.7.0(01.230*kW)").unwrap();

    let v = get_int_gauge_value("p1_actual_power_delivered_watts").expect("gauge not found");
    assert_eq!(v, 1230);
}

#[test]
fn parses_total_energy_consumed_tariff_1() {
    let mut registry = meters();
    let metric_name = "p1_total_energy_delivered_watthours";
    let before = get_int_counter_vec_value(metric_name, ("tariff", "1")).unwrap_or(0);

    // 006495.662 kWh -> 6_495_662 Wh
    process_p1_line(&mut registry, "1-0:1.8.1(006495.662*kWh)").unwrap();

    let after =
        get_int_counter_vec_value(metric_name, ("tariff", "1")).expect("counter not found");
    assert_eq!(after - before, 6_495_662);
}

#[test]
fn parses_gas_from_extended_line() {
    let mut registry = meters();
    let before = gas_total(&registry);

    process_p1_line(&mut registry, "0-1:24.2.3(260111190500W)(05890.569*m3)").unwrap();

    let after = gas_total(&registry);
    // from 0 to 5890.569
    assert!((after - before - 5890.569_f64).abs() < 0.0001);
}

#[test]
fn gas_total_is_kept_in_millionths() {
    let mut registry = Registry::build(vec![entry(
        "0-1:24.2.3",
        "flow_gas_exact",
        MetricKind::CounterFloatDelta,
        1,
        &[],
    )])
    .unwrap();
    assert_eq!(registry.fraction_total("flow_gas_exact"), Some(0));
    process_p1_line(&mut registry, "0-1:24.2.3(260111190500W)(05890.569*m3)").unwrap();
    assert_eq!(registry.fraction_total("flow_gas_exact"), Some(5_890_569_000));
    process_p1_line(&mut registry, "0-1:24.2.3(260111190500W)(05890.5690004*m3)").unwrap();
    assert_eq!(registry.fraction_total("flow_gas_exact"), Some(5_890_569_000));
    process_p1_line(&mut registry, "0-1:24.2.3(260111190500W)(05890.5690005*m3)").unwrap();
    assert_eq!(registry.fraction_total("flow_gas_exact"), Some(5_890_569_001));
    assert_eq!(registry.fraction_total("no_such_metric"), None);
    assert_eq!(registry.gauge_value("flow_gas_exact"), None);
}

#[test]
fn gauge_follows_the_last_reading() {
    let mut registry = Registry::build(vec![
        entry("1-0:1.7.0", "flow_gauge_last", MetricKind::GaugeInt, 1000, &[]),
        entry("1-0:2.7.0", "flow_gauge_other", MetricKind::GaugeInt, 1000, &[]),
    ])
    .unwrap();
    assert_eq!(registry.gauge_value("flow_gauge_last"), Some(0));
    process_p1_line(&mut registry, "1-0:1.7.0(01.230*kW)").unwrap();
    assert_eq!(registry.gauge_value("flow_gauge_last"), Some(1230));
    assert_eq!(get_int_gauge_value("flow_gauge_last"), Some(1230));
    process_p1_line(&mut registry, "1-0:1.7.0(00.4565*kW)").unwrap();
    assert_eq!(registry.gauge_value("flow_gauge_last"), Some(457));
    process_p1_line(&mut registry, "1-0:1.7.0(-00.0005*kW)").unwrap();
    assert_eq!(registry.gauge_value("flow_gauge_last"), Some(-1));
    assert_eq!(get_int_gauge_value("flow_gauge_last"), Some(-1));
    process_p1_line(&mut registry, "1-0:1.7.0(00.000*kW)").unwrap();
    assert_eq!(registry.gauge_value("flow_gauge_last"), Some(0));
    process_p1_line(&mut registry, "1-0:1.7.0(99999999999999999999)").unwrap();
    assert_eq!(registry.gauge_value("flow_gauge_last"), Some(i64::MAX));
    process_p1_line(&mut registry, "1-0:1.7.0(-99999999999999999999)").unwrap();
    assert_eq!(registry.gauge_value("flow_gauge_last"), Some(i64::MIN));
    // the other gauge was never touched
    assert_eq!(registry.gauge_value("flow_gauge_other"), Some(0));
    assert_eq!(registry.fraction_total("flow_gauge_last"), None);
}

#[test]
fn counter_follows_the_reading_upward_only() {
    let name = "flow_counter_upward";
    let mut registry = Registry::build(vec![
        entry("1-0:1.8.1", name, MetricKind::CounterIntDelta, 1000, &["1"]),
        entry("1-0:1.8.2", name, MetricKind::CounterIntDelta, 1000, &["2"]),
    ])
    .unwrap();
    assert_eq!(get_int_counter_vec_value(name, ("tariff", "1")), None);
    process_p1_line(&mut registry, "1-0:1.8.1(000100.000*kWh)").unwrap();
    assert_eq!(get_int_counter_vec_value(name, ("tariff", "1")), Some(100_000));
    assert_eq!(get_int_counter_vec_value(name, ("tariff", "2")), None);
    // the same reading again: nothing moves
    process_p1_line(&mut registry, "1-0:1.8.1(000100.000*kWh)").unwrap();
    assert_eq!(get_int_counter_vec_value(name, ("tariff", "1")), Some(100_000));
    // a lower reading: nothing moves
    process_p1_line(&mut registry, "1-0:1.8.1(000099.999*kWh)").unwrap();
    assert_eq!(get_int_counter_vec_value(name, ("tariff", "1")), Some(100_000));
    process_p1_line(&mut registry, "1-0:1.8.1(000000.000*kWh)").unwrap();
    assert_eq!(get_int_counter_vec_value(name, ("tariff", "1")), Some(100_000));
    // a higher reading: the counter is raised to it
    process_p1_line(&mut registry, "1-0:1.8.1(000100.0015*kWh)").unwrap();
    assert_eq!(get_int_counter_vec_value(name, ("tariff", "1")), Some(100_002));
    // the other tariff has a total of its own
    process_p1_line(&mut registry, "1-0:1.8.2(000000.007*kWh)").unwrap();
    assert_eq!(get_int_counter_vec_value(name, ("tariff", "2")), Some(7));
    assert_eq!(get_int_counter_vec_value(name, ("tariff", "1")), Some(100_002));
}

#[test]
fn fractional_counter_follows_the_reading_upward_only() {
    let name = "flow_fraction_upward";
    let mut registry =
        Registry::build(vec![entry("0-1:24.2.3", name, MetricKind::CounterFloatDelta, 2, &[])])
            .unwrap();
    process_p1_line(&mut registry, "0-1:24.2.3(t)(00001.5*m3)").unwrap();
    assert_eq!(registry.fraction_total(name), Some(3_000_000));
    process_p1_line(&mut registry, "0-1:24.2.3(t)(00001.5*m3)").unwrap();
    assert_eq!(registry.fraction_total(name), Some(3_000_000));
    process_p1_line(&mut registry, "0-1:24.2.3(t)(00001.499999*m3)").unwrap();
    assert_eq!(registry.fraction_total(name), Some(3_000_000));
    process_p1_line(&mut registry, "0-1:24.2.3(t)(-7*m3)").unwrap();
    assert_eq!(registry.fraction_total(name), Some(3_000_000));
    process_p1_line(&mut registry, "0-1:24.2.3(t)(00001.500001*m3)").unwrap();
    assert_eq!(registry.fraction_total(name), Some(3_000_002));
    process_p1_line(&mut registry, "0-1:24.2.3(t)(99999999999999999999*m3)").unwrap();
    assert_eq!(registry.fraction_total(name), Some(u64::MAX));
}

#[test]
fn lines_without_a_monitored_reading_change_nothing() {
    let mut registry = Registry::build(vec![
        entry("1-0:1.7.0", "flow_quiet_gauge", MetricKind::GaugeInt, 1000, &[]),
        entry("1-0:1.8.1", "flow_quiet_counter", MetricKind::CounterIntDelta, 1000, &["1"]),
        entry("0-1:24.2.3", "flow_quiet_gas", MetricKind::CounterFloatDelta, 1, &[]),
    ])
    .unwrap();
    process_p1_line(&mut registry, "1-0:1.7.0(00.042*kW)").unwrap();
    process_p1_line(&mut registry, "1-0:1.8.1(000001.000*kWh)").unwrap();
    process_p1_line(&mut registry, "0-1:24.2.3(t)(00002.000*m3)").unwrap();
    for line in [
        "!1234",
        "",
        "   ",
        "0-0:96.1.1(abcdef)",
        "0-0:96.1.1(123)",
        "/KMP5 KA6U001585575011",
        "1-0:1.7.0",
        "1-0:1.7.0(abc*kW)",
        "1-0:1.7.0(00.099*kW",
        "1-0:1.8.1(kWh)",
        "0-1:24.2.3(00009.000*m3)(x)",
        "\u{feff}1-0:1.7.0(00.099*kW)",
    ] {
        assert_eq!(process_p1_line(&mut registry, line), Ok(()), "{line}");
        assert_eq!(registry.gauge_value("flow_quiet_gauge"), Some(42), "{line}");
        assert_eq!(
            get_int_counter_vec_value("flow_quiet_counter", ("tariff", "1")),
            Some(1000),
            "{line}"
        );
        assert_eq!(registry.fraction_total("flow_quiet_gas"), Some(2_000_000), "{line}");
    }
}

#[test]
fn last_entry_of_a_code_takes_the_reading() {
    let mut registry = Registry::build(vec![
        entry("1-0:1.7.0", "flow_shadowed", MetricKind::GaugeInt, 1000, &[]),
        entry("1-0:1.7.0", "flow_shadowing", MetricKind::GaugeInt, 10, &[]),
    ])
    .unwrap();
    assert_eq!(registry.lookup("1-0:1.7.0"), Some(1));
    assert_eq!(registry.lookup("1-0:1.7.1"), None);
    process_p1_line(&mut registry, "1-0:1.7.0(01.230*kW)").unwrap();
    assert_eq!(registry.gauge_value("flow_shadowed"), Some(0));
    assert_eq!(registry.gauge_value("flow_shadowing"), Some(12));
}

#[test]
fn applier_passes_over_unknown_codes_and_reports_bad_numbers() {
    let mut registry =
        Registry::build(vec![entry("1-0:1.7.0", "flow_direct", MetricKind::GaugeInt, 1000, &[])])
            .unwrap();
    let unknown = ParsedLine { obis_code: "0-0:0.0.0", raw_value: "not a number" };
    assert_eq!(registry.apply(&unknown), Ok(()));
    let bad = ParsedLine { obis_code: "1-0:1.7.0", raw_value: "1e3" };
    assert_eq!(registry.apply(&bad), Err(ApplyError::InvalidNumber));
    assert_eq!(registry.gauge_value("flow_direct"), Some(0));
    let good = ParsedLine { obis_code: "1-0:1.7.0", raw_value: "+0.0015" };
    assert_eq!(registry.apply(&good), Ok(()));
    assert_eq!(registry.gauge_value("flow_direct"), Some(2));
    assert_eq!(registry.catalog().len(), 1);
}
