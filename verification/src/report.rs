//! The in-memory report model that the parse accumulates, and the errors that
//! abort a parse.
//!
//! A report is an ordered sequence of suites; each suite owns an ordered
//! sequence of cases.  The model holds plain values only and is handed to a
//! serializer as-is; nothing here depends on an output format.

use vstd::prelude::*;
use vstd::string::StringExecFns;

verus! {

/// The reported outcome of one test.
#[derive(Debug)]
pub enum Outcome {
    /// The test passed, with its elapsed time in nanoseconds.
    Passed { duration_ns: i64 },
    /// The test failed: elapsed time, a short message naming the test, and
    /// the sanitized, bounded diagnostic text captured from it.
    Failed { duration_ns: i64, message: String, output: String },
    /// The test was skipped; no duration and no diagnostic text are recorded.
    Skipped,
}

/// The reported outcome of one test, as values.
#[verifier::ext_equal]
pub enum OutcomeV {
    Passed { duration_ns: i64 },
    Failed { duration_ns: i64, message: Seq<char>, output: Seq<char> },
    Skipped,
}

impl View for Outcome {
    type V = OutcomeV;

    open spec fn view(&self) -> OutcomeV {
        match self {
            Outcome::Passed { duration_ns } => OutcomeV::Passed { duration_ns: *duration_ns },
            Outcome::Failed { duration_ns, message, output } => OutcomeV::Failed {
                duration_ns: *duration_ns,
                message: message@,
                output: output@,
            },
            Outcome::Skipped => OutcomeV::Skipped,
        }
    }
}

/// One reported test: its short name, its grouping path (empty when it has
/// none), and its outcome.
#[derive(Debug)]
pub struct Case {
    pub name: String,
    pub classname: String,
    pub outcome: Outcome,
}

/// One reported test, as values.
#[verifier::ext_equal]
pub struct CaseV {
    pub name: Seq<char>,
    pub classname: Seq<char>,
    pub outcome: OutcomeV,
}

impl View for Case {
    type V = CaseV;

    open spec fn view(&self) -> CaseV {
        CaseV { name: self.name@, classname: self.classname@, outcome: self.outcome@ }
    }
}

/// One sealed batch of tests: its name, the caller-supplied timestamp stored
/// verbatim, and its cases in the order their resolving events arrived.
#[derive(Debug)]
pub struct Suite {
    pub name: String,
    pub timestamp: i64,
    pub cases: Vec<Case>,
}

/// One sealed batch of tests, as values.
#[verifier::ext_equal]
pub struct SuiteV {
    pub name: Seq<char>,
    pub timestamp: i64,
    pub cases: Seq<CaseV>,
}

impl View for Suite {
    type V = SuiteV;

    open spec fn view(&self) -> SuiteV {
        SuiteV {
            name: self.name@,
            timestamp: self.timestamp,
            cases: Seq::new(self.cases@.len(), |i: int| self.cases@[i]@),
        }
    }
}

/// The whole report: the sealed suites in the order they completed.
#[derive(Debug)]
pub struct Report {
    pub suites: Vec<Suite>,
}

/// The whole report, as values.
#[verifier::ext_equal]
pub struct ReportV {
    pub suites: Seq<SuiteV>,
}

impl View for Report {
    type V = ReportV;

    open spec fn view(&self) -> ReportV {
        ReportV { suites: Seq::new(self.suites@.len(), |i: int| self.suites@[i]@) }
    }
}

/// What aborted a parse.  Any of these is fatal: no report is produced and
/// everything accumulated is discarded.
#[derive(Debug)]
pub enum ParseError {
    /// A candidate line could not be decoded as an event, even after the
    /// backslash-doubling retry.  Carries the offending line and the
    /// underlying cause.
    Decode { line: String, cause: String },
    /// A suite-started event arrived while a suite was already open.
    SuiteStartedWhileOpen,
    /// A suite-started event arrived while tests were still in flight.
    SuiteStartedWithTestsInFlight,
    /// A suite-completion event arrived while tests were still in flight.
    SuiteFinishedWithTestsInFlight,
    /// A suite-completion event arrived with no suite open.
    SuiteFinishedWithoutOpen,
    /// A test event arrived with no suite open.
    TestOutsideSuite,
    /// A test-started event named a test already in flight.
    DuplicateTestStart { name: String },
    /// A resolving event named a test that was never started.
    ResolvedUnknownTest { name: String },
}

/// What aborted a parse, as values.
#[verifier::ext_equal]
pub enum ParseErrorV {
    Decode { line: Seq<char>, cause: Seq<char> },
    SuiteStartedWhileOpen,
    SuiteStartedWithTestsInFlight,
    SuiteFinishedWithTestsInFlight,
    SuiteFinishedWithoutOpen,
    TestOutsideSuite,
    DuplicateTestStart { name: Seq<char> },
    ResolvedUnknownTest { name: Seq<char> },
}

impl View for ParseError {
    type V = ParseErrorV;

    open spec fn view(&self) -> ParseErrorV {
        match self {
            ParseError::Decode { line, cause } => ParseErrorV::Decode {
                line: line@,
                cause: cause@,
            },
            ParseError::SuiteStartedWhileOpen => ParseErrorV::SuiteStartedWhileOpen,
            ParseError::SuiteStartedWithTestsInFlight => ParseErrorV::SuiteStartedWithTestsInFlight,
            ParseError::SuiteFinishedWithTestsInFlight => ParseErrorV::SuiteFinishedWithTestsInFlight,
            ParseError::SuiteFinishedWithoutOpen => ParseErrorV::SuiteFinishedWithoutOpen,
            ParseError::TestOutsideSuite => ParseErrorV::TestOutsideSuite,
            ParseError::DuplicateTestStart { name } => ParseErrorV::DuplicateTestStart {
                name: name@,
            },
            ParseError::ResolvedUnknownTest { name } => ParseErrorV::ResolvedUnknownTest {
                name: name@,
            },
        }
    }
}

/// The description of a parse error, one line of text.
pub open spec fn error_text(e: ParseErrorV) -> Seq<char> {
    match e {
        ParseErrorV::Decode { line, cause } => "Error parsing '"@ + line + "': "@ + cause,
        ParseErrorV::SuiteStartedWhileOpen => "suite started while another suite is open"@,
        ParseErrorV::SuiteStartedWithTestsInFlight => "suite started while tests are in flight"@,
        ParseErrorV::SuiteFinishedWithTestsInFlight => "suite completed while tests are in flight"@,
        ParseErrorV::SuiteFinishedWithoutOpen => "suite completion event found outside of a suite"@,
        ParseErrorV::TestOutsideSuite => "test event found outside of a suite"@,
        ParseErrorV::DuplicateTestStart { name } => "test started twice: "@ + name,
        ParseErrorV::ResolvedUnknownTest { name } => "test resolved but never started: "@ + name,
    }
}

/// The fixed category label recorded on every failure.
pub fn failure_category() -> (r: String)
    ensures
        r@ == "cargo test"@,
{
    "cargo test".to_owned()
}

impl ParseError {
    /// The description of the error, for surfacing it verbatim to the user.
    pub fn describe(&self) -> (r: String)
        ensures
            r@ == error_text(self@),
    {
        match self {
            ParseError::Decode { line, cause } => {
                let mut m = "Error parsing '".to_owned();
                m.append(line.as_str());
                m.append("': ");
                m.append(cause.as_str());
                proof {
                    assert(m@ =~= error_text(self@));
                }
                m
            },
            ParseError::SuiteStartedWhileOpen => "suite started while another suite is open".to_owned(),
            ParseError::SuiteStartedWithTestsInFlight => "suite started while tests are in flight".to_owned(),
            ParseError::SuiteFinishedWithTestsInFlight => "suite completed while tests are in flight".to_owned(),
            ParseError::SuiteFinishedWithoutOpen => "suite completion event found outside of a suite".to_owned(),
            ParseError::TestOutsideSuite => "test event found outside of a suite".to_owned(),
            ParseError::DuplicateTestStart { name } => {
                let mut m = "test started twice: ".to_owned();
                m.append(name.as_str());
                m
            },
            ParseError::ResolvedUnknownTest { name } => {
                let mut m = "test resolved but never started: ".to_owned();
                m.append(name.as_str());
                m
            },
        }
    }
}

} // verus!
