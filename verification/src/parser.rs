//! The lifecycle state machine and the parse itself.
//!
//! The parse reduces the stream line by line.  At most one suite is open at a
//! time; the tests declared started but not yet resolved within it form the
//! in-flight set.  Every transition that the lifecycle protocol does not
//! permit is a fatal error: the parse stops and no report is produced.
//!
//! Ignored tests are recorded as skipped cases — the one deliberately fixed
//! policy where historical behavior varied.  A suite still open when the
//! stream ends is dropped; only sealed suites reach the report.

use vstd::prelude::*;
use crate::event;
use crate::event::Event;
use crate::event::EventV;
use crate::names;
use crate::report::Case;
use crate::report::CaseV;
use crate::report::Outcome;
use crate::report::OutcomeV;
use crate::report::ParseError;
use crate::report::ParseErrorV;
use crate::report::Report;
use crate::report::ReportV;
use crate::report::Suite;
use crate::report::SuiteV;
use crate::sanitize;
use crate::text;

verus! {

/// The default maximum diagnostic-text length, for callers that do not
/// override it.
pub const DEFAULT_MAX_OUTPUT: usize = 65536;

/// The parse state between lines: the sealed suites, the open suite if any,
/// and the identifiers of the tests in flight, in order of their start.
#[verifier::ext_equal]
pub struct StateV {
    pub suites: Seq<SuiteV>,
    pub open: Option<SuiteV>,
    pub in_flight: Seq<Seq<char>>,
}

/// The state a parse begins in: nothing sealed, nothing open, nothing in
/// flight.
pub open spec fn init_state() -> StateV {
    StateV { suites: Seq::empty(), open: None, in_flight: Seq::empty() }
}

/// Whether an identifier is in the in-flight set.
pub open spec fn in_flight_has(fl: Seq<Seq<char>>, x: Seq<char>) -> bool {
    exists|i: int| 0 <= i < fl.len() && fl[i] == x
}

/// The first position of an identifier in the in-flight set.
pub open spec fn first_index_of(fl: Seq<Seq<char>>, x: Seq<char>) -> int
    decreases fl.len(),
{
    if fl.len() == 0 {
        0
    } else if fl[0] == x {
        0
    } else {
        1 + first_index_of(fl.drop_first(), x)
    }
}

/// The case recorded for a passed test: the identifier is decomposed into a
/// short name and a grouping path.
pub open spec fn passed_case(name: Seq<char>, d: i64) -> CaseV {
    CaseV {
        name: names::short_name(name),
        classname: names::group_path(name),
        outcome: OutcomeV::Passed { duration_ns: d },
    }
}

/// The message recorded for a failed test.
pub open spec fn failure_message(name: Seq<char>) -> Seq<char> {
    "failed "@ + names::group_path(name) + "::"@ + names::short_name(name)
}

/// The case recorded for a failed test: decomposed name, a message naming the
/// test, and the sanitized, bounded diagnostic text.
pub open spec fn failed_case(
    name: Seq<char>,
    d: i64,
    stdout: Option<Seq<char>>,
    stderr: Option<Seq<char>>,
    max: nat,
) -> CaseV {
    CaseV {
        name: names::short_name(name),
        classname: names::group_path(name),
        outcome: OutcomeV::Failed {
            duration_ns: d,
            message: failure_message(name),
            output: sanitize::diagnostic(stdout, stderr, max),
        },
    }
}

/// The case recorded for an ignored test: the full identifier, undivided, no
/// grouping path, no duration and no text.
pub open spec fn skipped_case(name: Seq<char>) -> CaseV {
    CaseV { name: name, classname: Seq::empty(), outcome: OutcomeV::Skipped }
}

/// A suite with one more case.
pub open spec fn with_case(su: SuiteV, c: CaseV) -> SuiteV {
    SuiteV { name: su.name, timestamp: su.timestamp, cases: su.cases.push(c) }
}

/// The resolution of a test in flight: the identifier must be in the set and
/// leaves it; the case, when one is recorded, goes to the open suite.
pub open spec fn resolve_test(st: StateV, name: Seq<char>, c: CaseV) -> Result<
    StateV,
    ParseErrorV,
> {
    match st.open {
        None => Err(ParseErrorV::TestOutsideSuite),
        Some(su) => {
            if !in_flight_has(st.in_flight, name) {
                Err(ParseErrorV::ResolvedUnknownTest { name })
            } else {
                Ok(
                    StateV {
                        suites: st.suites,
                        open: Some(with_case(su, c)),
                        in_flight: st.in_flight.remove(first_index_of(st.in_flight, name)),
                    },
                )
            }
        },
    }
}

/// One transition of the lifecycle state machine.
pub open spec fn step_event(
    st: StateV,
    ev: EventV,
    prefix: Seq<char>,
    ts: i64,
    max: nat,
) -> Result<StateV, ParseErrorV> {
    match ev {
        EventV::SuiteStarted => {
            if st.open is Some {
                Err(ParseErrorV::SuiteStartedWhileOpen)
            } else if st.in_flight.len() > 0 {
                Err(ParseErrorV::SuiteStartedWithTestsInFlight)
            } else {
                Ok(
                    StateV {
                        suites: st.suites,
                        open: Some(
                            SuiteV {
                                name: names::suite_name(prefix, st.suites.len()),
                                timestamp: ts,
                                cases: Seq::empty(),
                            },
                        ),
                        in_flight: st.in_flight,
                    },
                )
            }
        },
        EventV::SuiteFinished => {
            if st.in_flight.len() > 0 {
                Err(ParseErrorV::SuiteFinishedWithTestsInFlight)
            } else {
                match st.open {
                    None => Err(ParseErrorV::SuiteFinishedWithoutOpen),
                    Some(su) => Ok(
                        StateV { suites: st.suites.push(su), open: None, in_flight: st.in_flight },
                    ),
                }
            }
        },
        EventV::TestStarted { name } => {
            match st.open {
                None => Err(ParseErrorV::TestOutsideSuite),
                Some(_) => {
                    if in_flight_has(st.in_flight, name) {
                        Err(ParseErrorV::DuplicateTestStart { name })
                    } else {
                        Ok(
                            StateV {
                                suites: st.suites,
                                open: st.open,
                                in_flight: st.in_flight.push(name),
                            },
                        )
                    }
                },
            }
        },
        EventV::TestPassed { name, duration_ns } => resolve_test(
            st,
            name,
            passed_case(name, duration_ns),
        ),
        EventV::TestFailed { name, duration_ns, stdout, stderr } => resolve_test(
            st,
            name,
            failed_case(name, duration_ns, stdout, stderr, max),
        ),
        EventV::TestIgnored { name } => resolve_test(st, name, skipped_case(name)),
        EventV::TestTimeout { name: _ } => {
            if st.open is None {
                Err(ParseErrorV::TestOutsideSuite)
            } else {
                Ok(st)
            }
        },
    }
}

/// What one line does to the state: nothing when it is not a candidate, a
/// transition when it decodes, a fatal decode error otherwise.
pub open spec fn line_step(
    st: StateV,
    line: Seq<char>,
    prefix: Seq<char>,
    ts: i64,
    max: nat,
) -> Result<StateV, ParseErrorV> {
    match event::line_decode(line) {
        Ok(None) => Ok(st),
        Ok(Some(ev)) => step_event(st, ev, prefix, ts, max),
        Err(e) => Err(e),
    }
}

/// The state after consuming a sequence of lines, or the first error.
pub open spec fn run_lines(
    st: StateV,
    lines: Seq<Seq<char>>,
    prefix: Seq<char>,
    ts: i64,
    max: nat,
) -> Result<StateV, ParseErrorV>
    decreases lines.len(),
{
    if lines.len() == 0 {
        Ok(st)
    } else {
        match line_step(st, lines[0], prefix, ts, max) {
            Ok(st2) => run_lines(st2, lines.drop_first(), prefix, ts, max),
            Err(e) => Err(e),
        }
    }
}

/// The whole parse: the report of the sealed suites, or the first error.  A
/// suite still open at the end of the stream is dropped.
pub open spec fn parse_spec(
    lines: Seq<Seq<char>>,
    prefix: Seq<char>,
    ts: i64,
    max: nat,
) -> Result<ReportV, ParseErrorV> {
    match run_lines(init_state(), lines, prefix, ts, max) {
        Ok(st) => Ok(ReportV { suites: st.suites }),
        Err(e) => Err(e),
    }
}

/// The parse result, as values.
pub open spec fn parse_result_view(r: Result<Report, ParseError>) -> Result<
    ReportV,
    ParseErrorV,
> {
    match r {
        Ok(rep) => Ok(rep@),
        Err(e) => Err(e@),
    }
}

/// The parser: the configuration fixed for one invocation, and the state the
/// stream is reduced into.
pub struct Parser {
    /// The suite-name prefix.
    pub prefix: String,
    /// The caller-supplied timestamp stamped on every suite, stored verbatim.
    pub timestamp: i64,
    /// The maximum diagnostic-text length.
    pub max_output: usize,
    /// The sealed suites.
    pub suites: Vec<Suite>,
    /// The suite being filled, if one is open.
    pub open_suite: Option<Suite>,
    /// The identifiers of the tests in flight.
    pub in_flight: Vec<String>,
}

impl View for Parser {
    type V = StateV;

    open spec fn view(&self) -> StateV {
        StateV {
            suites: Seq::new(self.suites@.len(), |i: int| self.suites@[i]@),
            open: match self.open_suite {
                Some(su) => Some(su@),
                None => None,
            },
            in_flight: self.in_flight.deep_view(),
        }
    }
}

impl Parser {
    /// A fresh parser with the given configuration and nothing consumed.
    pub fn new(prefix: &str, timestamp: i64, max_output: usize) -> (p: Parser)
        ensures
            p@ == init_state(),
            p.prefix@ == prefix@,
            p.timestamp == timestamp,
            p.max_output == max_output,
    {
        let p = Parser {
            prefix: prefix.to_owned(),
            timestamp,
            max_output,
            suites: Vec::new(),
            open_suite: None,
            in_flight: Vec::new(),
        };
        proof {
            assert(p@ =~~= init_state());
        }
        p
    }

    /// The position of an identifier in the in-flight set, if it is there.
    fn find_in_flight(&self, name: &String) -> (r: Option<usize>)
        ensures
            r is Some <==> in_flight_has(self@.in_flight, name@),
            r is Some ==> r->0 < self.in_flight@.len() && r->0 as int == first_index_of(
                self@.in_flight,
                name@,
            ),
    {
        let n = self.in_flight.len();
        let mut i: usize = 0;
        proof {
            assert(self@.in_flight.skip(0) =~= self@.in_flight);
        }
        while i < n
            invariant
                n == self.in_flight@.len(),
                i <= n,
                self@.in_flight.len() == n,
                forall|j: int| 0 <= j < i ==> self@.in_flight[j] != name@,
                first_index_of(self@.in_flight, name@) == i + first_index_of(
                    self@.in_flight.skip(i as int),
                    name@,
                ),
            decreases n - i,
        {
            proof {
                assert(self@.in_flight.skip(i as int)[0] == self@.in_flight[i as int]);
                assert(self@.in_flight[i as int] == self.in_flight@[i as int]@);
            }
            if text::string_is(&self.in_flight[i], name.as_str()) {
                proof {
                    assert(self@.in_flight[i as int] == name@);
                }
                return Some(i);
            }
            proof {
                assert(self@.in_flight.skip(i as int).drop_first() =~= self@.in_flight.skip(
                    i as int + 1,
                ));
            }
            i += 1;
        }
        proof {
            assert(self@.in_flight.skip(n as int).len() == 0);
            if in_flight_has(self@.in_flight, name@) {
                let j = choose|j: int|
                    0 <= j < self@.in_flight.len() && self@.in_flight[j] == name@;
                assert(self@.in_flight[j] != name@);
            }
        }
        None
    }

    /// Feeds one decoded event to the state machine.
    pub fn feed_event(&mut self, ev: &Event) -> (r: Result<(), ParseError>)
        ensures
            final(self).prefix == old(self).prefix,
            final(self).timestamp == old(self).timestamp,
            final(self).max_output == old(self).max_output,
            (match r {
                Ok(_) => step_event(
                    old(self)@,
                    ev@,
                    old(self).prefix@,
                    old(self).timestamp,
                    old(self).max_output as nat,
                ) == Ok::<StateV, ParseErrorV>(final(self)@),
                Err(e) => step_event(
                    old(self)@,
                    ev@,
                    old(self).prefix@,
                    old(self).timestamp,
                    old(self).max_output as nat,
                ) == Err::<StateV, ParseErrorV>(e@),
            }),
    {
        match ev {
            Event::SuiteStarted => {
                if self.open_suite.is_some() {
                    return Err(ParseError::SuiteStartedWhileOpen);
                }
                if self.in_flight.len() > 0 {
                    return Err(ParseError::SuiteStartedWithTestsInFlight);
                }
                let name = names::format_suite_name(self.prefix.as_str(), self.suites.len() as u64);
                let su = Suite { name, timestamp: self.timestamp, cases: Vec::new() };
                proof {
                    assert(su@.cases =~= Seq::<CaseV>::empty());
                }
                self.open_suite = Some(su);
                proof {
                    assert(step_event(
                        old(self)@,
                        ev@,
                        old(self).prefix@,
                        old(self).timestamp,
                        old(self).max_output as nat,
                    ) matches Ok(st) && st =~~= self@);
                }
                Ok(())
            },
            Event::SuiteFinished => {
                if self.in_flight.len() > 0 {
                    return Err(ParseError::SuiteFinishedWithTestsInFlight);
                }
                let su = match self.open_suite.take() {
                    Some(su) => su,
                    None => {
                        return Err(ParseError::SuiteFinishedWithoutOpen);
                    },
                };
                self.suites.push(su);
                proof {
                    assert(self@.suites =~= old(self)@.suites.push(su@));
                    assert(step_event(
                        old(self)@,
                        ev@,
                        old(self).prefix@,
                        old(self).timestamp,
                        old(self).max_output as nat,
                    ) matches Ok(st) && st =~~= self@);
                }
                Ok(())
            },
            Event::TestStarted { name } => {
                if self.open_suite.is_none() {
                    return Err(ParseError::TestOutsideSuite);
                }
                if self.find_in_flight(name).is_some() {
                    return Err(ParseError::DuplicateTestStart { name: name.clone() });
                }
                self.in_flight.push(name.clone());
                proof {
                    assert(self@.in_flight =~= old(self)@.in_flight.push(name@));
                    assert(step_event(
                        old(self)@,
                        ev@,
                        old(self).prefix@,
                        old(self).timestamp,
                        old(self).max_output as nat,
                    ) matches Ok(st) && st =~~= self@);
                }
                Ok(())
            },
            Event::TestPassed { name, duration_ns } => {
                let (short, group) = names::split_name(name.as_str());
                let case = Case {
                    name: short,
                    classname: group,
                    outcome: Outcome::Passed { duration_ns: *duration_ns },
                };
                proof {
                    assert(case@ =~~= passed_case(name@, *duration_ns));
                }
                self.resolve(name, case)
            },
            Event::TestFailed { name, duration_ns, stdout, stderr } => {
                let (short, group) = names::split_name(name.as_str());
                let mut message = "failed ".to_owned();
                message.append(group.as_str());
                message.append("::");
                message.append(short.as_str());
                let output = sanitize::diagnostic_text(stdout, stderr, self.max_output);
                let case = Case {
                    name: short,
                    classname: group,
                    outcome: Outcome::Failed {
                        duration_ns: *duration_ns,
                        message,
                        output,
                    },
                };
                proof {
                    assert(case@.outcome->Failed_message =~= failure_message(name@));
                    assert(case@ =~~= failed_case(
                        name@,
                        *duration_ns,
                        stdout.deep_view(),
                        stderr.deep_view(),
                        old(self).max_output as nat,
                    ));
                }
                self.resolve(name, case)
            },
            Event::TestIgnored { name } => {
                let case = Case {
                    name: name.clone(),
                    classname: String::new(),
                    outcome: Outcome::Skipped,
                };
                proof {
                    assert(case@ =~~= skipped_case(name@));
                }
                self.resolve(name, case)
            },
            Event::TestTimeout { name: _ } => {
                if self.open_suite.is_none() {
                    return Err(ParseError::TestOutsideSuite);
                }
                Ok(())
            },
        }
    }

    /// Removes a test from the in-flight set and records its case, or fails
    /// when it was never started or no suite is open.
    fn resolve(&mut self, name: &String, case: Case) -> (r: Result<(), ParseError>)
        ensures
            final(self).prefix == old(self).prefix,
            final(self).timestamp == old(self).timestamp,
            final(self).max_output == old(self).max_output,
            (match r {
                Ok(_) => resolve_test(old(self)@, name@, case@) == Ok::<StateV, ParseErrorV>(
                    final(self)@,
                ),
                Err(e) => resolve_test(old(self)@, name@, case@) == Err::<StateV, ParseErrorV>(e@),
            }),
    {
        if self.open_suite.is_none() {
            return Err(ParseError::TestOutsideSuite);
        }
        let idx = match self.find_in_flight(name) {
            Some(i) => i,
            None => {
                return Err(ParseError::ResolvedUnknownTest { name: name.clone() });
            },
        };
        self.in_flight.remove(idx);
        proof {
            assert(self@.in_flight =~= old(self)@.in_flight.remove(idx as int));
        }
        match &mut self.open_suite {
            Some(su) => {
                su.cases.push(case);
            },
            None => {
                proof {
                    assert(false);
                }
            },
        }
        proof {
            let su0 = old(self)@.open->0;
            assert(self@.open->0.cases =~= su0.cases.push(case@));
            assert(resolve_test(old(self)@, name@, case@) matches Ok(st) && st =~~= self@);
        }
        Ok(())
    }

    /// Feeds one line of the stream.
    pub fn feed_line(&mut self, line: &str) -> (r: Result<(), ParseError>)
        ensures
            final(self).prefix == old(self).prefix,
            final(self).timestamp == old(self).timestamp,
            final(self).max_output == old(self).max_output,
            (match r {
                Ok(_) => line_step(
                    old(self)@,
                    line@,
                    old(self).prefix@,
                    old(self).timestamp,
                    old(self).max_output as nat,
                ) == Ok::<StateV, ParseErrorV>(final(self)@),
                Err(e) => line_step(
                    old(self)@,
                    line@,
                    old(self).prefix@,
                    old(self).timestamp,
                    old(self).max_output as nat,
                ) == Err::<StateV, ParseErrorV>(e@),
            }),
    {
        match event::decode_line(line) {
            Ok(None) => Ok(()),
            Ok(Some(ev)) => self.feed_event(&ev),
            Err(e) => Err(e),
        }
    }

    /// The report of the suites sealed so far; a suite still open is dropped.
    pub fn into_report(self) -> (r: Report)
        ensures
            r@ == (ReportV { suites: self@.suites }),
    {
        let r = Report { suites: self.suites };
        proof {
            assert(r@ =~~= (ReportV { suites: self@.suites }));
        }
        r
    }
}

/// Parses a whole stream, one line per element: the report of the sealed
/// suites, or the first fatal error.  The result is a function of the lines
/// and the configuration alone.
pub fn parse(lines: &Vec<String>, prefix: &str, timestamp: i64, max_output: usize) -> (r: Result<
    Report,
    ParseError,
>)
    ensures
        parse_result_view(r) == parse_spec(
            lines.deep_view(),
            prefix@,
            timestamp,
            max_output as nat,
        ),
{
    let mut p = Parser::new(prefix, timestamp, max_output);
    let n = lines.len();
    let mut i: usize = 0;
    proof {
        assert(lines.deep_view().skip(0) =~= lines.deep_view());
    }
    while i < n
        invariant
            n == lines@.len(),
            i <= n,
            lines.deep_view().len() == n,
            p.prefix@ == prefix@,
            p.timestamp == timestamp,
            p.max_output == max_output,
            run_lines(
                init_state(),
                lines.deep_view(),
                prefix@,
                timestamp,
                max_output as nat,
            ) == run_lines(
                p@,
                lines.deep_view().skip(i as int),
                prefix@,
                timestamp,
                max_output as nat,
            ),
        decreases n - i,
    {
        proof {
            assert(lines.deep_view().skip(i as int)[0] == lines.deep_view()[i as int]);
            assert(lines.deep_view()[i as int] == lines@[i as int]@);
            assert(lines.deep_view().skip(i as int).drop_first() =~= lines.deep_view().skip(
                i as int + 1,
            ));
        }
        match p.feed_line(lines[i].as_str()) {
            Ok(_) => {},
            Err(e) => {
                return Err(e);
            },
        }
        i += 1;
    }
    proof {
        assert(lines.deep_view().skip(n as int).len() == 0);
    }
    Ok(p.into_report())
}

} // verus!
