use cargo2junit::event::Event;
use cargo2junit::parser::Parser;
use cargo2junit::report::ParseError;

#[test]
fn lines_can_be_fed_one_at_a_time() {
    let mut p = Parser::new("cargo test", 42, 65536);
    p.feed_line("{\"type\":\"suite\",\"event\":\"started\",\"test_count\":1}").unwrap();
    p.feed_line("{\"type\":\"test\",\"event\":\"started\",\"name\":\"t\"}").unwrap();
    p.feed_line("{\"type\":\"test\",\"event\":\"ok\",\"name\":\"t\"}").unwrap();
    p.feed_line("{\"type\":\"suite\",\"event\":\"ok\",\"passed\":1,\"failed\":0}").unwrap();
    let report = p.into_report();
    assert_eq!(report.suites.len(), 1);
    assert_eq!(report.suites[0].timestamp, 42);
    assert_eq!(report.suites[0].cases[0].name, "t");
}

#[test]
fn empty_stream_gives_empty_report() {
    let p = Parser::new("cargo test", 0, 65536);
    let report = p.into_report();
    assert_eq!(report.suites.len(), 0);
    let report = cargo2junit::parser::parse(&Vec::new(), "cargo test", 0, 65536)
        .expect("Could not parse test input");
    assert_eq!(report.suites.len(), 0);
}

#[test]
fn open_suite_is_dropped_at_stream_end() {
    let mut p = Parser::new("cargo test", 0, 65536);
    p.feed_line("{\"type\":\"suite\",\"event\":\"started\",\"test_count\":1}").unwrap();
    let report = p.into_report();
    assert_eq!(report.suites.len(), 0);
}

#[test]
fn suite_start_with_tests_in_flight_is_rejected() {
    // This state is not reachable from a fresh parser, where tests in flight
    // imply an open suite; the transition still rejects it.
    let mut p = Parser {
        prefix: "cargo test".to_string(),
        timestamp: 0,
        max_output: 65536,
        suites: Vec::new(),
        open_suite: None,
        in_flight: vec!["t".to_string()],
    };
    let r = p.feed_event(&Event::SuiteStarted);
    assert!(matches!(r, Err(ParseError::SuiteStartedWithTestsInFlight)));
}

#[test]
fn timeout_outside_suite_is_rejected() {
    let mut p = Parser::new("cargo test", 0, 65536);
    let r = p.feed_line("{\"type\":\"test\",\"event\":\"timeout\",\"name\":\"t\"}");
    assert!(matches!(r, Err(ParseError::TestOutsideSuite)));
}

#[test]
fn error_descriptions_name_the_test() {
    let mut p = Parser::new("cargo test", 0, 65536);
    p.feed_line("{\"type\":\"suite\",\"event\":\"started\",\"test_count\":1}").unwrap();
    let err = p.feed_line("{\"type\":\"test\",\"event\":\"ok\",\"name\":\"ghost\"}").unwrap_err();
    assert_eq!(err.describe(), "test resolved but never started: ghost");
}
