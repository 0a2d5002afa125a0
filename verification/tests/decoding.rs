use p1_exporter::decimal::{is_decimal_text, scale_decimal, signed_saturating};
use p1_exporter::{catalog, parse_p1_line, CatalogEntry, MetricKind};

fn decoded(line: &str) -> Option<(String, String)> {
    let entries = catalog();
    parse_p1_line(&entries, line).map(|p| (p.obis_code.to_string(), p.raw_value.to_string()))
}

fn pair(obis: &str, raw: &str) -> Option<(String, String)> {
    Some((obis.to_string(), raw.to_string()))
}

fn chars(text: &str) -> Vec<char> {
    text.chars().collect()
}

#[test]
fn simple_gauge_line_yields_code_and_number() {
    assert_eq!(decoded("1-0:1.7.0(01.230*kW)"), pair("1-0:1.7.0", "01.230"));
}

#[test]
fn counter_line_yields_numeric_prefix_of_first_group() {
    assert_eq!(decoded("1-0:1.8.1(006495.662*kWh)"), pair("1-0:1.8.1", "006495.662"));
    assert_eq!(decoded("1-0:1.8.1(006495.01000000W)"), pair("1-0:1.8.1", "006495.01000000"));
    assert_eq!(decoded("1-0:1.8.2(000123.5)(999*kWh)"), pair("1-0:1.8.2", "000123.5"));
}

#[test]
fn compound_line_yields_last_group_for_gas() {
    assert_eq!(
        decoded("0-1:24.2.3(260111190500W)(05890.569*m3)"),
        pair("0-1:24.2.3", "05890.569")
    );
}

#[test]
fn surrounding_whitespace_is_trimmed() {
    assert_eq!(decoded("  \t1-0:1.7.0(01.230*kW)\r\n"), pair("1-0:1.7.0", "01.230"));
    assert_eq!(decoded("\u{a0}1-0:2.7.0(00.000*kW)\u{2003}"), pair("1-0:2.7.0", "00.000"));
    assert_eq!(decoded("1-0:1.7.0( 01.230 *kW)"), pair("1-0:1.7.0", "01.230"));
}

#[test]
fn value_without_unit_is_taken_whole() {
    assert_eq!(decoded("1-0:1.7.0(2)"), pair("1-0:1.7.0", "2"));
    assert_eq!(decoded("1-0:1.7.0(-0.5)"), pair("1-0:1.7.0", "-0.5"));
    assert_eq!(decoded("1-0:1.7.0(+.5*kW)"), pair("1-0:1.7.0", "+.5"));
    assert_eq!(decoded("1-0:1.7.0(5.*kW)"), pair("1-0:1.7.0", "5."));
}

#[test]
fn footer_and_empty_lines_decode_to_nothing() {
    assert_eq!(decoded("!1234"), None);
    assert_eq!(decoded("   !1234"), None);
    assert_eq!(decoded(""), None);
    assert_eq!(decoded("   \t \r\n"), None);
}

#[test]
fn unknown_code_decodes_to_nothing() {
    assert_eq!(decoded("0-0:96.1.1(abcdef)"), None);
    assert_eq!(decoded("0-0:96.1.1(123.4*kW)"), None);
    assert_eq!(decoded("1-0:1.7.0 (01.230*kW)"), None);
    assert_eq!(decoded("(01.230*kW)"), None);
}

#[test]
fn line_without_group_decodes_to_nothing() {
    assert_eq!(decoded("1-0:1.7.0"), None);
    assert_eq!(decoded("/KMP5 KA6U001585575011"), None);
    assert_eq!(decoded("1-0:1.7.0(01.230*kW"), None);
    assert_eq!(decoded("1-0:1.8.1(006495.662*kWh"), None);
    assert_eq!(decoded("1-0:1.7.0(01.230*kW)("), None);
}

#[test]
fn payload_that_is_no_number_decodes_to_nothing() {
    assert_eq!(decoded("1-0:1.7.0(abc*kW)"), None);
    assert_eq!(decoded("1-0:1.7.0()"), None);
    assert_eq!(decoded("1-0:1.7.0(*kW)"), None);
    assert_eq!(decoded("1-0:1.7.0(1.2.3*kW)"), None);
    assert_eq!(decoded("1-0:1.7.0(.)"), None);
    assert_eq!(decoded("1-0:1.7.0(-)"), None);
    assert_eq!(decoded("1-0:1.7.0(inf)"), None);
    assert_eq!(decoded("1-0:1.7.0(NaN)"), None);
    assert_eq!(decoded("1-0:1.7.0(01.230kW)"), None);
    assert_eq!(decoded("1-0:1.8.1(kWh)"), None);
    assert_eq!(decoded("1-0:1.8.1(*kWh)"), None);
    assert_eq!(decoded("1-0:1.8.1(1.2.3*kWh)"), None);
    assert_eq!(decoded("1-0:1.8.1(-5*kWh)"), None);
    assert_eq!(decoded("1-0:1.8.1( 5*kWh)"), None);
}

#[test]
fn first_entry_of_a_code_decides_the_group() {
    let entry = |kind: MetricKind, name: &str| CatalogEntry {
        obis_code: "9-9:9.9.9".to_string(),
        metric_name: name.to_string(),
        help_text: "help".to_string(),
        kind,
        scale: 1,
        label_values: if kind == MetricKind::CounterIntDelta {
            vec!["1".to_string()]
        } else {
            vec![]
        },
    };
    let counter_first =
        vec![entry(MetricKind::CounterIntDelta, "a"), entry(MetricKind::GaugeInt, "b")];
    let gauge_first =
        vec![entry(MetricKind::GaugeInt, "b"), entry(MetricKind::CounterIntDelta, "a")];
    let line = "9-9:9.9.9(11)(22)";
    assert_eq!(parse_p1_line(&counter_first, line).map(|p| p.raw_value.to_string()), Some("11".to_string()));
    assert_eq!(parse_p1_line(&gauge_first, line).map(|p| p.raw_value.to_string()), Some("22".to_string()));
    assert!(parse_p1_line(&Vec::new(), line).is_none());
}

#[test]
fn decimal_texts_are_recognised() {
    for good in ["0", "007", "1.5", ".5", "5.", "+1", "-1", "-0.000", "123456789012345678901234567890"] {
        assert!(is_decimal_text(&chars(good)), "{good}");
    }
    for bad in ["", ".", "+", "-", "+-1", "1.2.3", "1e3", "inf", "nan", " 1", "1 ", "1,5", "0x10", "١"] {
        assert!(!is_decimal_text(&chars(bad)), "{bad}");
    }
}

#[test]
fn scaling_is_exact_and_rounds_half_away_from_zero() {
    assert_eq!(scale_decimal(&chars("01.230"), 1000), Some((false, 1230)));
    assert_eq!(scale_decimal(&chars("006495.662"), 1000), Some((false, 6_495_662)));
    assert_eq!(scale_decimal(&chars("05890.569"), 1_000_000), Some((false, 5_890_569_000)));
    assert_eq!(scale_decimal(&chars("0.0004"), 1000), Some((false, 0)));
    assert_eq!(scale_decimal(&chars("0.0005"), 1000), Some((false, 1)));
    assert_eq!(scale_decimal(&chars("1.2345"), 1000), Some((false, 1235)));
    assert_eq!(scale_decimal(&chars("1.23449999"), 1000), Some((false, 1234)));
    assert_eq!(scale_decimal(&chars("2.5"), 1), Some((false, 3)));
    assert_eq!(scale_decimal(&chars("-2.5"), 1), Some((true, 3)));
    assert_eq!(scale_decimal(&chars("0.4999999999999999999999999999"), 1), Some((false, 0)));
    assert_eq!(scale_decimal(&chars("0.5000000000000000000000000000"), 1), Some((false, 1)));
    assert_eq!(scale_decimal(&chars("7"), 3), Some((false, 21)));
    assert_eq!(scale_decimal(&chars("7.9"), 0), Some((false, 0)));
    assert_eq!(scale_decimal(&chars(".5"), 10), Some((false, 5)));
    assert_eq!(scale_decimal(&chars("5."), 10), Some((false, 50)));
    assert_eq!(scale_decimal(&chars("abc"), 10), None);
}

#[test]
fn scaling_saturates_at_the_largest_magnitude() {
    assert_eq!(scale_decimal(&chars("18446744073709551615"), 1), Some((false, u64::MAX)));
    assert_eq!(scale_decimal(&chars("18446744073709551614.4"), 1), Some((false, u64::MAX - 1)));
    assert_eq!(scale_decimal(&chars("18446744073709551614.5"), 1), Some((false, u64::MAX)));
    assert_eq!(scale_decimal(&chars("18446744073709551616"), 1), Some((false, u64::MAX)));
    assert_eq!(scale_decimal(&chars("99999999999999999999999999999999999999999"), 1000), Some((false, u64::MAX)));
    assert_eq!(scale_decimal(&chars("99999999999999999999999999999999999999999"), 0), Some((false, 0)));
    assert_eq!(scale_decimal(&chars("18446744073709551615"), u64::MAX), Some((false, u64::MAX)));
    assert_eq!(scale_decimal(&chars("4294967296"), 4294967296), Some((false, u64::MAX)));
    assert_eq!(scale_decimal(&chars("4294967295"), 4294967297), Some((false, u64::MAX)));
    assert_eq!(scale_decimal(&chars("4294967295"), 4294967296), Some((false, 18446744069414584320)));
}

#[test]
fn gauge_values_saturate_at_both_ends() {
    assert_eq!(signed_saturating(false, 0), 0);
    assert_eq!(signed_saturating(true, 0), 0);
    assert_eq!(signed_saturating(false, 1230), 1230);
    assert_eq!(signed_saturating(true, 1230), -1230);
    assert_eq!(signed_saturating(false, i64::MAX as u64), i64::MAX);
    assert_eq!(signed_saturating(false, i64::MAX as u64 + 1), i64::MAX);
    assert_eq!(signed_saturating(true, i64::MAX as u64), -i64::MAX);
    assert_eq!(signed_saturating(true, i64::MAX as u64 + 1), i64::MIN);
    assert_eq!(signed_saturating(true, u64::MAX), i64::MIN);
}
