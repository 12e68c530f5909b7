use cargo2junit::duration::ns_from_decimal_str;
use cargo2junit::event::seconds_text_ns;
use cargo2junit::parser::parse;
use cargo2junit::report::Outcome;

fn case_duration(input: &str) -> i64 {
    let lines: Vec<String> = input.lines().map(|l| l.to_string()).collect();
    let report = parse(&lines, "cargo test", 0, 65536).expect("Could not parse test input");
    match &report.suites[0].cases[0].outcome {
        Outcome::Passed { duration_ns } => *duration_ns,
        _ => panic!("expected a passed case"),
    }
}

#[test]
fn seconds_string_to_nanoseconds() {
    let input = [
        "{\"type\":\"suite\",\"event\":\"started\",\"test_count\":1}",
        "{\"type\":\"test\",\"event\":\"started\",\"name\":\"t\"}",
        "{\"type\":\"test\",\"event\":\"ok\",\"name\":\"t\",\"exec_time\":\"0.0721s\"}",
        "{\"type\":\"suite\",\"event\":\"ok\",\"passed\":1,\"failed\":0}",
    ].join("\n");
    assert_eq!(case_duration(&input), 72_100_000);
}

#[test]
fn milliseconds_number_to_nanoseconds() {
    let input = [
        "{\"type\":\"suite\",\"event\":\"started\",\"test_count\":1}",
        "{\"type\":\"test\",\"event\":\"started\",\"name\":\"t\"}",
        "{\"type\":\"test\",\"event\":\"ok\",\"name\":\"t\",\"duration\":72.1}",
        "{\"type\":\"suite\",\"event\":\"ok\",\"passed\":1,\"failed\":0}",
    ].join("\n");
    assert_eq!(case_duration(&input), 72_100_000);
}

#[test]
fn absent_timing_fields_give_zero() {
    let input = [
        "{\"type\":\"suite\",\"event\":\"started\",\"test_count\":1}",
        "{\"type\":\"test\",\"event\":\"started\",\"name\":\"t\"}",
        "{\"type\":\"test\",\"event\":\"ok\",\"name\":\"t\"}",
        "{\"type\":\"suite\",\"event\":\"ok\",\"passed\":1,\"failed\":0}",
    ].join("\n");
    assert_eq!(case_duration(&input), 0);
}

#[test]
fn seconds_take_precedence_over_milliseconds() {
    let input = [
        "{\"type\":\"suite\",\"event\":\"started\",\"test_count\":1}",
        "{\"type\":\"test\",\"event\":\"started\",\"name\":\"t\"}",
        "{\"type\":\"test\",\"event\":\"ok\",\"name\":\"t\",\"duration\":5,\"exec_time\":\"2s\"}",
        "{\"type\":\"suite\",\"event\":\"ok\",\"passed\":1,\"failed\":0}",
    ].join("\n");
    assert_eq!(case_duration(&input), 2_000_000_000);
}

#[test]
fn numeric_exec_time_is_seconds() {
    let input = [
        "{\"type\":\"suite\",\"event\":\"started\",\"test_count\":1}",
        "{\"type\":\"test\",\"event\":\"started\",\"name\":\"t\"}",
        "{\"type\":\"test\",\"event\":\"ok\",\"name\":\"t\",\"exec_time\":0.072}",
        "{\"type\":\"suite\",\"event\":\"ok\",\"passed\":1,\"failed\":0}",
    ].join("\n");
    assert_eq!(case_duration(&input), 72_000_000);
}

#[test]
fn integer_milliseconds() {
    let input = [
        "{\"type\":\"suite\",\"event\":\"started\",\"test_count\":1}",
        "{\"type\":\"test\",\"event\":\"started\",\"name\":\"t\"}",
        "{\"type\":\"test\",\"event\":\"ok\",\"name\":\"t\",\"duration\":72}",
        "{\"type\":\"suite\",\"event\":\"ok\",\"passed\":1,\"failed\":0}",
    ].join("\n");
    assert_eq!(case_duration(&input), 72_000_000);
}

#[test]
fn decimal_text_seconds_scale() {
    assert_eq!(ns_from_decimal_str("0.0721", 9), Some(72_100_000));
    assert_eq!(ns_from_decimal_str("2", 9), Some(2_000_000_000));
    assert_eq!(ns_from_decimal_str("0", 9), Some(0));
    assert_eq!(ns_from_decimal_str(".5", 9), Some(500_000_000));
    assert_eq!(ns_from_decimal_str("5.", 9), Some(5_000_000_000));
}

#[test]
fn decimal_text_milliseconds_scale() {
    assert_eq!(ns_from_decimal_str("72.1", 6), Some(72_100_000));
    assert_eq!(ns_from_decimal_str("0.0001", 6), Some(100));
    // Truncation toward zero, not rounding.
    assert_eq!(ns_from_decimal_str("0.0000009", 6), Some(0));
    assert_eq!(ns_from_decimal_str("-0.0000009", 6), Some(0));
}

#[test]
fn decimal_text_signs() {
    assert_eq!(ns_from_decimal_str("-1.5", 9), Some(-1_500_000_000));
    assert_eq!(ns_from_decimal_str("+1.5", 9), Some(1_500_000_000));
}

#[test]
fn decimal_text_exponents() {
    assert_eq!(ns_from_decimal_str("1e3", 6), Some(1_000_000_000));
    assert_eq!(ns_from_decimal_str("7.21e-2", 9), Some(72_100_000));
    assert_eq!(ns_from_decimal_str("1E2", 6), Some(100_000_000));
}

#[test]
fn decimal_text_saturates() {
    assert_eq!(ns_from_decimal_str("1e40", 9), Some(i64::MAX));
    assert_eq!(ns_from_decimal_str("-1e40", 9), Some(i64::MIN));
    assert_eq!(ns_from_decimal_str("99999999999999999999", 9), Some(i64::MAX));
    assert_eq!(ns_from_decimal_str("1e-40", 9), Some(0));
}

#[test]
fn decimal_text_rejects_garbage() {
    assert_eq!(ns_from_decimal_str("", 9), None);
    assert_eq!(ns_from_decimal_str("abc", 9), None);
    assert_eq!(ns_from_decimal_str("1.2.3", 9), None);
    assert_eq!(ns_from_decimal_str(".", 9), None);
    assert_eq!(ns_from_decimal_str("1e", 9), None);
    assert_eq!(ns_from_decimal_str("--1", 9), None);
    assert_eq!(ns_from_decimal_str("1 ", 9), None);
}

#[test]
fn seconds_text_requires_suffix() {
    assert_eq!(seconds_text_ns("0.0721s"), Some(72_100_000));
    assert_eq!(seconds_text_ns("0.0721"), None);
    assert_eq!(seconds_text_ns("s"), None);
    assert_eq!(seconds_text_ns(""), None);
}

#[test]
fn malformed_seconds_string_is_a_decode_error() {
    let input = [
        "{\"type\":\"suite\",\"event\":\"started\",\"test_count\":1}",
        "{\"type\":\"test\",\"event\":\"started\",\"name\":\"t\"}",
        "{\"type\":\"test\",\"event\":\"ok\",\"name\":\"t\",\"exec_time\":\"fast\"}",
    ].join("\n");
    let lines: Vec<String> = input.lines().map(|l| l.to_string()).collect();
    assert!(parse(&lines, "cargo test", 0, 65536).is_err());
}
