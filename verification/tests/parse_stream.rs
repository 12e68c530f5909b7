use cargo2junit::parser::parse;
use cargo2junit::report::Outcome;
use cargo2junit::report::ParseError;
use cargo2junit::report::Report;

fn parse_str(input: &str, max_out_len: usize) -> Result<Report, ParseError> {
    let lines: Vec<String> = input.lines().map(|l| l.to_string()).collect();
    parse(&lines, "cargo test", 0, max_out_len)
}

#[test]
fn error_on_garbage() {
    assert!(parse_str("{garbage}", 65536).is_err());
}

#[test]
fn single_passing_test() {
    let input = [
        "{\"type\":\"suite\",\"event\":\"started\",\"test_count\":1}",
        "{\"type\":\"test\",\"event\":\"started\",\"name\":\"t\"}",
        "{\"type\":\"test\",\"event\":\"ok\",\"name\":\"t\"}",
        "{\"type\":\"suite\",\"event\":\"ok\",\"passed\":1,\"failed\":0}",
    ].join("\n");
    let report = parse_str(&input, 65536).expect("Could not parse test input");
    assert_eq!(report.suites.len(), 1);
    let suite = &report.suites[0];
    assert_eq!(suite.name, "cargo test #0");
    assert_eq!(suite.timestamp, 0);
    assert_eq!(suite.cases.len(), 1);
    let case = &suite.cases[0];
    assert_eq!(case.name, "t");
    assert_eq!(case.classname, "");
    match &case.outcome {
        Outcome::Passed { duration_ns } => assert_eq!(*duration_ns, 0),
        _ => panic!("expected a passed case"),
    }
}

#[test]
fn failing_test_merges_stdout_and_stderr() {
    let input = [
        "{\"type\":\"suite\",\"event\":\"started\",\"test_count\":1}",
        "{\"type\":\"test\",\"event\":\"started\",\"name\":\"mod_a::t\"}",
        "{\"type\":\"test\",\"event\":\"failed\",\"name\":\"mod_a::t\",\"stdout\":\"out text\",\"stderr\":\"err text\"}",
        "{\"type\":\"suite\",\"event\":\"failed\",\"passed\":0,\"failed\":1}",
    ].join("\n");
    let report = parse_str(&input, 65536).expect("Could not parse test input");
    let case = &report.suites[0].cases[0];
    assert_eq!(case.name, "t");
    assert_eq!(case.classname, "mod_a");
    match &case.outcome {
        Outcome::Failed { duration_ns, message, output } => {
            assert_eq!(*duration_ns, 0);
            assert_eq!(message, "failed mod_a::t");
            assert_eq!(output, "out text\nerr text");
        },
        _ => panic!("expected a failed case"),
    }
}

#[test]
fn failure_message_with_empty_group() {
    let input = [
        "{\"type\":\"suite\",\"event\":\"started\",\"test_count\":1}",
        "{\"type\":\"test\",\"event\":\"started\",\"name\":\"t\"}",
        "{\"type\":\"test\",\"event\":\"failed\",\"name\":\"t\",\"stderr\":\"boom\"}",
        "{\"type\":\"suite\",\"event\":\"failed\",\"passed\":0,\"failed\":1}",
    ].join("\n");
    let report = parse_str(&input, 65536).expect("Could not parse test input");
    match &report.suites[0].cases[0].outcome {
        Outcome::Failed { message, output, .. } => {
            assert_eq!(message, "failed ::t");
            assert_eq!(output, "boom");
        },
        _ => panic!("expected a failed case"),
    }
}

#[test]
fn unescaped_backslash_retried() {
    // The stdout field holds `\a`, an escape JSON does not know: strict
    // decoding fails, and the backslash-doubling retry must recover the
    // original single-backslash text.
    let input = [
        "{\"type\":\"suite\",\"event\":\"started\",\"test_count\":1}",
        "{\"type\":\"test\",\"event\":\"started\",\"name\":\"t\"}",
        "{\"type\":\"test\",\"event\":\"failed\",\"name\":\"t\",\"stdout\":\"before\\after\"}",
        "{\"type\":\"suite\",\"event\":\"failed\",\"passed\":0,\"failed\":1}",
    ].join("\n");
    let report = parse_str(&input, 65536).expect("Could not parse test input");
    match &report.suites[0].cases[0].outcome {
        Outcome::Failed { output, .. } => assert_eq!(output, "before\\after"),
        _ => panic!("expected a failed case"),
    }
}

#[test]
fn noise_lines_are_ignored() {
    let input = [
        "running 1 test",
        "{\"type\":\"suite\",\"event\":\"started\",\"test_count\":1}",
        "test t ... ok",
        "{\"type\":\"test\",\"event\":\"started\",\"name\":\"t\"}",
        "{\"type\":\"test\",\"event\":\"ok\",\"name\":\"t\"}",
        "{\"type\":\"suite\",\"event\":\"ok\",\"passed\":1,\"failed\":0}",
        "",
    ].join("\n");
    let report = parse_str(&input, 65536).expect("Could not parse test input");
    assert_eq!(report.suites.len(), 1);
    assert_eq!(report.suites[0].cases.len(), 1);
}

#[test]
fn timeout_event_is_informational() {
    let input = [
        "{\"type\":\"suite\",\"event\":\"started\",\"test_count\":1}",
        "{\"type\":\"test\",\"event\":\"started\",\"name\":\"long_execution_time\"}",
        "{\"type\":\"test\",\"event\":\"timeout\",\"name\":\"long_execution_time\"}",
        "{\"type\":\"test\",\"event\":\"ok\",\"name\":\"long_execution_time\"}",
        "{\"type\":\"suite\",\"event\":\"ok\",\"passed\":1,\"failed\":0}",
    ].join("\n");
    let report = parse_str(&input, 65536).expect("Could not parse test input");
    assert_eq!(report.suites[0].cases.len(), 1);
    let case = &report.suites[0].cases[0];
    assert_eq!(case.name, "long_execution_time");
    assert!(matches!(case.outcome, Outcome::Passed { .. }));
}

#[test]
fn ignored_test_recorded_as_skipped() {
    let input = [
        "{\"type\":\"suite\",\"event\":\"started\",\"test_count\":1}",
        "{\"type\":\"test\",\"event\":\"started\",\"name\":\"mod_a::t\"}",
        "{\"type\":\"test\",\"event\":\"ignored\",\"name\":\"mod_a::t\"}",
        "{\"type\":\"suite\",\"event\":\"ok\",\"passed\":0,\"failed\":0}",
    ].join("\n");
    let report = parse_str(&input, 65536).expect("Could not parse test input");
    let case = &report.suites[0].cases[0];
    // A skipped case keeps the full identifier and no grouping path.
    assert_eq!(case.name, "mod_a::t");
    assert_eq!(case.classname, "");
    assert!(matches!(case.outcome, Outcome::Skipped));
}

#[test]
fn multiple_suites_numbered_in_order() {
    let input = [
        "{\"type\":\"suite\",\"event\":\"started\",\"test_count\":1}",
        "{\"type\":\"test\",\"event\":\"started\",\"name\":\"a\"}",
        "{\"type\":\"test\",\"event\":\"ok\",\"name\":\"a\"}",
        "{\"type\":\"suite\",\"event\":\"ok\",\"passed\":1,\"failed\":0}",
        "{\"type\":\"suite\",\"event\":\"started\",\"test_count\":1}",
        "{\"type\":\"test\",\"event\":\"started\",\"name\":\"b\"}",
        "{\"type\":\"test\",\"event\":\"failed\",\"name\":\"b\"}",
        "{\"type\":\"suite\",\"event\":\"failed\",\"passed\":0,\"failed\":1}",
    ].join("\n");
    let report = parse_str(&input, 65536).expect("Could not parse test input");
    assert_eq!(report.suites.len(), 2);
    assert_eq!(report.suites[0].name, "cargo test #0");
    assert_eq!(report.suites[1].name, "cargo test #1");
    assert_eq!(report.suites[0].cases[0].name, "a");
    assert_eq!(report.suites[1].cases[0].name, "b");
}

#[test]
fn unresolved_test_fails_parse() {
    let input = [
        "{\"type\":\"suite\",\"event\":\"started\",\"test_count\":1}",
        "{\"type\":\"test\",\"event\":\"started\",\"name\":\"t\"}",
        "{\"type\":\"suite\",\"event\":\"ok\",\"passed\":1,\"failed\":0}",
    ].join("\n");
    let err = parse_str(&input, 65536).unwrap_err();
    assert!(matches!(err, ParseError::SuiteFinishedWithTestsInFlight));
}

#[test]
fn duplicate_start_fails_parse() {
    let input = [
        "{\"type\":\"suite\",\"event\":\"started\",\"test_count\":2}",
        "{\"type\":\"test\",\"event\":\"started\",\"name\":\"t\"}",
        "{\"type\":\"test\",\"event\":\"started\",\"name\":\"t\"}",
    ].join("\n");
    let err = parse_str(&input, 65536).unwrap_err();
    assert!(matches!(err, ParseError::DuplicateTestStart { .. }));
}

#[test]
fn resolving_unknown_test_fails_parse() {
    let input = [
        "{\"type\":\"suite\",\"event\":\"started\",\"test_count\":1}",
        "{\"type\":\"test\",\"event\":\"ok\",\"name\":\"t\"}",
    ].join("\n");
    let err = parse_str(&input, 65536).unwrap_err();
    assert!(matches!(err, ParseError::ResolvedUnknownTest { .. }));
}

#[test]
fn test_event_outside_suite_fails_parse() {
    let err = parse_str("{\"type\":\"test\",\"event\":\"started\",\"name\":\"t\"}", 65536)
        .unwrap_err();
    assert!(matches!(err, ParseError::TestOutsideSuite));
}

#[test]
fn suite_completion_without_open_fails_parse() {
    let err = parse_str("{\"type\":\"suite\",\"event\":\"ok\",\"passed\":0,\"failed\":0}", 65536)
        .unwrap_err();
    assert!(matches!(err, ParseError::SuiteFinishedWithoutOpen));
}

#[test]
fn nested_suite_start_fails_parse() {
    let input = [
        "{\"type\":\"suite\",\"event\":\"started\",\"test_count\":0}",
        "{\"type\":\"suite\",\"event\":\"started\",\"test_count\":0}",
    ].join("\n");
    let err = parse_str(&input, 65536).unwrap_err();
    assert!(matches!(err, ParseError::SuiteStartedWhileOpen));
}

fn outcome_text(outcome: &Outcome) -> String {
    match outcome {
        Outcome::Passed { duration_ns } => format!("passed {}", duration_ns),
        Outcome::Failed { duration_ns, message, output } => {
            format!("failed {} {} {}", duration_ns, message, output)
        },
        Outcome::Skipped => "skipped".to_string(),
    }
}

fn report_text(report: &Report) -> String {
    let mut out = String::new();
    for suite in &report.suites {
        out.push_str(&format!("suite {} at {}\n", suite.name, suite.timestamp));
        for case in &suite.cases {
            out.push_str(&format!(
                "  case {} [{}] {}\n",
                case.name,
                case.classname,
                outcome_text(&case.outcome)
            ));
        }
    }
    out
}

#[test]
fn reparsing_identical_input_gives_identical_report() {
    let input = [
        "{\"type\":\"suite\",\"event\":\"started\",\"test_count\":2}",
        "{\"type\":\"test\",\"event\":\"started\",\"name\":\"a::x\"}",
        "{\"type\":\"test\",\"event\":\"started\",\"name\":\"a::y\"}",
        "{\"type\":\"test\",\"event\":\"ok\",\"name\":\"a::y\",\"exec_time\":\"0.5s\"}",
        "{\"type\":\"test\",\"event\":\"failed\",\"name\":\"a::x\",\"stdout\":\"oops\"}",
        "{\"type\":\"suite\",\"event\":\"failed\",\"passed\":1,\"failed\":1}",
    ].join("\n");
    let first = parse_str(&input, 65536).expect("Could not parse test input");
    let second = parse_str(&input, 65536).expect("Could not parse test input");
    assert_eq!(report_text(&first), report_text(&second));
}

#[test]
fn case_count_matches_resolving_events() {
    let input = [
        "{\"type\":\"suite\",\"event\":\"started\",\"test_count\":3}",
        "{\"type\":\"test\",\"event\":\"started\",\"name\":\"a\"}",
        "{\"type\":\"test\",\"event\":\"started\",\"name\":\"b\"}",
        "{\"type\":\"test\",\"event\":\"started\",\"name\":\"c\"}",
        "{\"type\":\"test\",\"event\":\"ok\",\"name\":\"a\"}",
        "{\"type\":\"test\",\"event\":\"failed\",\"name\":\"b\"}",
        "{\"type\":\"test\",\"event\":\"ignored\",\"name\":\"c\"}",
        "{\"type\":\"suite\",\"event\":\"failed\",\"passed\":1,\"failed\":1}",
    ].join("\n");
    let report = parse_str(&input, 65536).expect("Could not parse test input");
    let total: usize = report.suites.iter().map(|s| s.cases.len()).sum();
    assert_eq!(total, 3);
}

#[test]
fn decode_error_carries_line_and_cause() {
    let err = parse_str("{broken", 65536).unwrap_err();
    match &err {
        ParseError::Decode { line, cause } => {
            assert_eq!(line, "{broken");
            assert!(!cause.is_empty());
        },
        _ => panic!("expected a decode error"),
    }
    let text = err.describe();
    assert!(text.starts_with("Error parsing '{broken': "));
}
