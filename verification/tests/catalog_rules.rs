use p1_exporter::{
    catalog, check_catalog, CatalogEntry, CatalogError, CatalogIssue, MetricKind, Registry,
    RegistryError,
};

fn entry(obis: &str, name: &str, kind: MetricKind, scale: u32, labels: &[&str]) -> CatalogEntry {
    CatalogEntry {
        obis_code: obis.to_string(),
        metric_name: name.to_string(),
        help_text: "help".to_string(),
        kind,
        scale,
        label_values: labels.iter().map(|l| l.to_string()).collect(),
    }
}

#[test]
fn builtin_catalog_lists_the_monitored_codes() {
    let entries = catalog();
    let codes: Vec<&str> = entries.iter().map(|e| e.obis_code.as_str()).collect();
    assert_eq!(
        codes,
        vec!["1-0:1.7.0", "1-0:2.7.0", "1-0:1.8.1", "1-0:1.8.2", "1-0:2.8.1", "1-0:2.8.2", "0-1:24.2.3"]
    );
    assert_eq!(entries[0].metric_name, "p1_actual_power_delivered_watts");
    assert_eq!(entries[0].kind, MetricKind::GaugeInt);
    assert_eq!(entries[0].scale, 1000);
    assert!(entries[0].label_values.is_empty());
    assert_eq!(entries[3].metric_name, "p1_total_energy_delivered_watthours");
    assert_eq!(entries[3].kind, MetricKind::CounterIntDelta);
    assert_eq!(entries[3].label_values, vec!["2".to_string()]);
    assert_eq!(entries[6].metric_name, "p1_total_gas_delivered_m3");
    assert_eq!(entries[6].kind, MetricKind::CounterFloatDelta);
    assert_eq!(entries[6].scale, 1);
    assert_eq!(entries[6].help_text, "Total gas delivered in m3 (0-1:24.2.3)");
}

#[test]
fn builtin_catalog_is_valid() {
    assert_eq!(check_catalog(&catalog()), Ok(()));
    assert_eq!(check_catalog(&Vec::new()), Ok(()));
}

#[test]
fn empty_obis_code_is_reported() {
    let entries = vec![
        entry("1", "a", MetricKind::GaugeInt, 1, &[]),
        entry("", "b", MetricKind::GaugeInt, 1, &[]),
    ];
    assert_eq!(
        check_catalog(&entries),
        Err(CatalogError { entry: 1, issue: CatalogIssue::EmptyObisCode })
    );
}

#[test]
fn invalid_metric_name_is_reported() {
    for name in ["", "1abc", "a-b", "a b", "é"] {
        let entries = vec![entry("1", name, MetricKind::GaugeInt, 1, &[])];
        assert_eq!(
            check_catalog(&entries),
            Err(CatalogError { entry: 0, issue: CatalogIssue::InvalidMetricName }),
            "{name}"
        );
    }
    for name in ["a", "_", ":", "a1", "A_b:c9"] {
        let entries = vec![entry("1", name, MetricKind::GaugeInt, 1, &[])];
        assert_eq!(check_catalog(&entries), Ok(()), "{name}");
    }
}

#[test]
fn zero_scale_is_reported() {
    let entries = vec![entry("1", "a", MetricKind::CounterFloatDelta, 0, &[])];
    assert_eq!(
        check_catalog(&entries),
        Err(CatalogError { entry: 0, issue: CatalogIssue::ZeroScale })
    );
}

#[test]
fn integer_counter_needs_one_label_value() {
    for labels in [&[][..], &["1", "2"][..]] {
        let entries = vec![entry("1", "a", MetricKind::CounterIntDelta, 1, labels)];
        assert_eq!(
            check_catalog(&entries),
            Err(CatalogError { entry: 0, issue: CatalogIssue::LabelCount })
        );
    }
    let entries = vec![entry("1", "a", MetricKind::CounterIntDelta, 1, &["1"])];
    assert_eq!(check_catalog(&entries), Ok(()));
}

#[test]
fn one_name_with_two_kinds_is_reported() {
    let entries = vec![
        entry("1", "a", MetricKind::GaugeInt, 1, &[]),
        entry("2", "b", MetricKind::GaugeInt, 1, &[]),
        entry("3", "a", MetricKind::CounterFloatDelta, 1, &[]),
    ];
    assert_eq!(
        check_catalog(&entries),
        Err(CatalogError { entry: 2, issue: CatalogIssue::KindConflict })
    );
}

#[test]
fn first_fault_is_reported_first() {
    let entries = vec![
        entry("1", "a", MetricKind::GaugeInt, 1, &[]),
        entry("", "1x", MetricKind::CounterIntDelta, 0, &[]),
        entry("", "b", MetricKind::GaugeInt, 1, &[]),
    ];
    assert_eq!(
        check_catalog(&entries),
        Err(CatalogError { entry: 1, issue: CatalogIssue::EmptyObisCode })
    );
    let entries = vec![entry("1", "1x", MetricKind::CounterIntDelta, 0, &[])];
    assert_eq!(
        check_catalog(&entries),
        Err(CatalogError { entry: 0, issue: CatalogIssue::InvalidMetricName })
    );
    let entries = vec![entry("1", "x", MetricKind::CounterIntDelta, 0, &[])];
    assert_eq!(
        check_catalog(&entries),
        Err(CatalogError { entry: 0, issue: CatalogIssue::ZeroScale })
    );
}

#[test]
fn invalid_catalog_builds_no_registry() {
    let entries = vec![
        entry("1", "rules_never_made", MetricKind::GaugeInt, 1, &[]),
        entry("2", "rules_never_made", MetricKind::CounterFloatDelta, 1, &[]),
    ];
    match Registry::build(entries) {
        Err(RegistryError::Catalog(e)) => {
            assert_eq!(e, CatalogError { entry: 1, issue: CatalogIssue::KindConflict })
        }
        _ => panic!("an invalid catalog must be refused"),
    }
    // nothing was registered on the way: the name is still free
    let entries = vec![entry("1", "rules_never_made", MetricKind::GaugeInt, 1, &[])];
    assert!(Registry::build(entries).is_ok());
}

#[test]
fn second_registration_of_a_name_is_rejected() {
    let make = || {
        vec![
            entry("1", "rules_fraction_first", MetricKind::CounterFloatDelta, 1, &[]),
            entry("2", "rules_registered_once", MetricKind::CounterIntDelta, 1, &["1"]),
        ]
    };
    assert!(Registry::build(make()).is_ok());
    match Registry::build(make()) {
        Err(RegistryError::Rejected { entry, .. }) => assert_eq!(entry, 1),
        _ => panic!("a name can be registered once"),
    }
}

#[test]
fn catalog_of_fractional_counters_always_builds() {
    let make = || vec![entry("1", "rules_only_fraction", MetricKind::CounterFloatDelta, 3, &[])];
    assert!(Registry::build(make()).is_ok());
    assert!(Registry::build(make()).is_ok());
    assert!(Registry::build(Vec::new()).is_ok());
}

#[test]
fn empty_help_text_is_rejected_by_the_metrics_crate() {
    let mut e = entry("1", "rules_no_help", MetricKind::GaugeInt, 1, &[]);
    e.help_text = String::new();
    match Registry::build(vec![e]) {
        Err(RegistryError::Rejected { entry, .. }) => assert_eq!(entry, 0),
        _ => panic!("an empty help text is refused"),
    }
}
