//! Properties of the parse as a whole, stated and proved over the
//! specification functions that the executable contracts are written in.

use vstd::prelude::*;
use crate::event::EventV;
use crate::event::line_decode;
use crate::parser::StateV;
use crate::parser::init_state;
use crate::parser::in_flight_has;
use crate::parser::first_index_of;
use crate::parser::step_event;
use crate::parser::line_step;
use crate::parser::run_lines;
use crate::parser::parse_spec;
use crate::report::ParseErrorV;
use crate::report::ReportV;
use crate::report::SuiteV;

verus! {

/// Whether an event resolves a test: a pass, a failure or a skip.
pub open spec fn is_resolving(ev: EventV) -> bool {
    match ev {
        EventV::TestPassed { .. } => true,
        EventV::TestFailed { .. } => true,
        EventV::TestIgnored { .. } => true,
        _ => false,
    }
}

/// Whether an event resolves the test with the given identifier.
pub open spec fn resolves(ev: EventV, n: Seq<char>) -> bool {
    match ev {
        EventV::TestPassed { name, .. } => name == n,
        EventV::TestFailed { name, .. } => name == n,
        EventV::TestIgnored { name } => name == n,
        _ => false,
    }
}

/// The number of cases across a sequence of suites.
pub open spec fn cases_in_suites(ss: Seq<SuiteV>) -> nat
    decreases ss.len(),
{
    if ss.len() == 0 {
        0
    } else {
        ss[0].cases.len() + cases_in_suites(ss.drop_first())
    }
}

/// The number of cases across all suites of a report.
pub open spec fn report_cases(r: ReportV) -> nat {
    cases_in_suites(r.suites)
}

/// The number of cases held anywhere in a parse state, the open suite
/// included.
pub open spec fn state_cases(st: StateV) -> nat {
    cases_in_suites(st.suites) + (match st.open {
        Some(su) => su.cases.len(),
        None => 0nat,
    })
}

/// How many resolving events one line contributes: one or none.
pub open spec fn line_resolving(line: Seq<char>) -> nat {
    match line_decode(line) {
        Ok(Some(e)) => if is_resolving(e) {
            1nat
        } else {
            0nat
        },
        _ => 0nat,
    }
}

/// The number of resolving test events across the lines of a stream.
pub open spec fn resolving_count(lines: Seq<Seq<char>>) -> nat
    decreases lines.len(),
{
    if lines.len() == 0 {
        0
    } else {
        line_resolving(lines[0]) + resolving_count(lines.drop_first())
    }
}

proof fn lemma_cases_in_suites_push(ss: Seq<SuiteV>, su: SuiteV)
    ensures
        cases_in_suites(ss.push(su)) == cases_in_suites(ss) + su.cases.len(),
    decreases ss.len(),
{
    if ss.len() == 0 {
        assert(ss.push(su).drop_first() =~= Seq::<SuiteV>::empty());
        assert(ss.push(su)[0] == su);
        assert(cases_in_suites(ss.push(su)) == su.cases.len() + cases_in_suites(
            ss.push(su).drop_first(),
        ));
        assert(cases_in_suites(Seq::<SuiteV>::empty()) == 0);
    } else {
        assert(ss.push(su).drop_first() =~= ss.drop_first().push(su));
        lemma_cases_in_suites_push(ss.drop_first(), su);
        assert(ss.push(su)[0] == ss[0]);
        assert(cases_in_suites(ss.push(su)) == ss[0].cases.len() + cases_in_suites(
            ss.drop_first().push(su),
        ));
    }
}

/// An accepted transition changes the number of held cases by one for a
/// resolving event and not at all otherwise.
proof fn lemma_step_cases(st: StateV, ev: EventV, prefix: Seq<char>, ts: i64, max: nat)
    requires
        step_event(st, ev, prefix, ts, max) is Ok,
    ensures
        state_cases(step_event(st, ev, prefix, ts, max)->Ok_0) == state_cases(st) + (if is_resolving(
            ev,
        ) {
            1nat
        } else {
            0nat
        }),
{
    match ev {
        EventV::SuiteFinished => {
            let su = st.open->0;
            lemma_cases_in_suites_push(st.suites, su);
        },
        _ => {},
    }
}

/// Consuming lines adds exactly the resolving events among them to the case
/// count.
proof fn lemma_run_cases(st: StateV, lines: Seq<Seq<char>>, prefix: Seq<char>, ts: i64, max: nat)
    requires
        run_lines(st, lines, prefix, ts, max) is Ok,
    ensures
        state_cases(run_lines(st, lines, prefix, ts, max)->Ok_0) == state_cases(st)
            + resolving_count(lines),
    decreases lines.len(),
{
    if lines.len() == 0 {
    } else {
        match line_step(st, lines[0], prefix, ts, max) {
            Ok(st2) => {
                match line_decode(lines[0]) {
                    Ok(Some(e)) => {
                        lemma_step_cases(st, e, prefix, ts, max);
                    },
                    _ => {},
                }
                lemma_run_cases(st2, lines.drop_first(), prefix, ts, max);
            },
            Err(_) => {},
        }
    }
}

/// For every stream the parse accepts with all suites sealed, the number of
/// cases across all suites of the report equals the number of resolving test
/// events — passed, failed or ignored — in the stream.
pub proof fn lemma_case_count(lines: Seq<Seq<char>>, prefix: Seq<char>, ts: i64, max: nat)
    requires
        run_lines(init_state(), lines, prefix, ts, max) matches Ok(st) && st.open is None,
    ensures
        parse_spec(lines, prefix, ts, max) matches Ok(r) && report_cases(r) == resolving_count(
            lines,
        ),
{
    lemma_run_cases(init_state(), lines, prefix, ts, max);
}

/// Running the parse twice on the same lines with the same configuration
/// gives the same result: the parse consults nothing but its inputs.
pub proof fn lemma_parse_deterministic(
    r1: Result<ReportV, ParseErrorV>,
    r2: Result<ReportV, ParseErrorV>,
    lines: Seq<Seq<char>>,
    prefix: Seq<char>,
    ts: i64,
    max: nat,
)
    requires
        r1 == parse_spec(lines, prefix, ts, max),
        r2 == parse_spec(lines, prefix, ts, max),
    ensures
        r1 == r2,
{
}

proof fn lemma_first_index_props(fl: Seq<Seq<char>>, x: Seq<char>)
    requires
        in_flight_has(fl, x),
    ensures
        0 <= first_index_of(fl, x) < fl.len(),
        fl[first_index_of(fl, x)] == x,
    decreases fl.len(),
{
    if fl.len() > 0 && fl[0] != x {
        assert forall|i: int| 0 <= i < fl.drop_first().len() implies fl.drop_first()[i] == fl[i + 1]
            by {}
        let j = choose|j: int| 0 <= j < fl.len() && fl[j] == x;
        assert(fl.drop_first()[j - 1] == x);
        lemma_first_index_props(fl.drop_first(), x);
    }
}

/// Removing one occurrence of another identifier keeps `n` in the set.
proof fn lemma_remove_keeps(fl: Seq<Seq<char>>, m: Seq<char>, n: Seq<char>)
    requires
        in_flight_has(fl, n),
        in_flight_has(fl, m),
        m != n,
    ensures
        in_flight_has(fl.remove(first_index_of(fl, m)), n),
{
    lemma_first_index_props(fl, m);
    let i = first_index_of(fl, m);
    let j = choose|j: int| 0 <= j < fl.len() && fl[j] == n;
    assert(j != i);
    let r = fl.remove(i);
    assert(r =~= fl.subrange(0, i) + fl.subrange(i + 1, fl.len() as int));
    if j < i {
        assert(r[j] == fl[j]);
    } else {
        assert(r[j - 1] == fl[j]);
    }
}

/// While a started test stays unresolved, consuming lines either fails or
/// keeps the suite open with the test in flight; a suite-completion among
/// them therefore fails.
proof fn lemma_unresolved_run(
    st: StateV,
    lines: Seq<Seq<char>>,
    n: Seq<char>,
    prefix: Seq<char>,
    ts: i64,
    max: nat,
)
    requires
        st.open is Some,
        in_flight_has(st.in_flight, n),
        forall|i: int|
            0 <= i < lines.len() ==> !(#[trigger] line_decode(lines[i]) matches Ok(Some(e))
                && resolves(e, n)),
        exists|i: int|
            0 <= i < lines.len() && #[trigger] line_decode(lines[i]) == Ok::<
                Option<EventV>,
                ParseErrorV,
            >(Some(EventV::SuiteFinished)),
    ensures
        run_lines(st, lines, prefix, ts, max) is Err,
    decreases lines.len(), 1int,
{
    let w = choose|i: int|
        0 <= i < lines.len() && #[trigger] line_decode(lines[i]) == Ok::<
            Option<EventV>,
            ParseErrorV,
        >(Some(EventV::SuiteFinished));
    assert(lines.len() > 0);
    let l0 = lines[0];
    let tail = lines.drop_first();
    assert(forall|i: int| 0 <= i < tail.len() ==> tail[i] == lines[i + 1]);
    match line_decode(l0) {
        Ok(None) => {
            assert(w >= 1);
            assert(line_decode(tail[w - 1]) == Ok::<Option<EventV>, ParseErrorV>(
                Some(EventV::SuiteFinished),
            ));
            lemma_unresolved_run(st, tail, n, prefix, ts, max);
        },
        Err(_) => {},
        Ok(Some(e)) => {
            assert(!resolves(e, n));
            match e {
                EventV::SuiteStarted => {
                    assert(step_event(st, e, prefix, ts, max) is Err);
                },
                EventV::SuiteFinished => {
                    assert(st.in_flight.len() > 0);
                    assert(step_event(st, e, prefix, ts, max) is Err);
                },
                EventV::TestStarted { name } => {
                    if name == n {
                        assert(step_event(st, e, prefix, ts, max) is Err);
                    } else {
                        let st2 = step_event(st, e, prefix, ts, max);
                        if st2 is Ok {
                            let j = choose|j: int|
                                0 <= j < st.in_flight.len() && st.in_flight[j] == n;
                            assert(st2->Ok_0.in_flight[j] == n);
                            assert(w >= 1);
                            assert(line_decode(tail[w - 1]) == Ok::<Option<EventV>, ParseErrorV>(
                                Some(EventV::SuiteFinished),
                            ));
                            lemma_unresolved_run(st2->Ok_0, tail, n, prefix, ts, max);
                        }
                    }
                },
                EventV::TestPassed { name, .. } => {
                    lemma_unresolved_resolve_step(st, e, name, n, lines, tail, w, prefix, ts, max);
                },
                EventV::TestFailed { name, .. } => {
                    lemma_unresolved_resolve_step(st, e, name, n, lines, tail, w, prefix, ts, max);
                },
                EventV::TestIgnored { name } => {
                    lemma_unresolved_resolve_step(st, e, name, n, lines, tail, w, prefix, ts, max);
                },
                EventV::TestTimeout { .. } => {
                    assert(w >= 1);
                    assert(line_decode(tail[w - 1]) == Ok::<Option<EventV>, ParseErrorV>(
                        Some(EventV::SuiteFinished),
                    ));
                    lemma_unresolved_run(st, tail, n, prefix, ts, max);
                },
            }
        },
    }
}

/// The shared argument for the three resolving event kinds inside
/// `lemma_unresolved_run`.
proof fn lemma_unresolved_resolve_step(
    st: StateV,
    e: EventV,
    name: Seq<char>,
    n: Seq<char>,
    lines: Seq<Seq<char>>,
    tail: Seq<Seq<char>>,
    w: int,
    prefix: Seq<char>,
    ts: i64,
    max: nat,
)
    requires
        st.open is Some,
        in_flight_has(st.in_flight, n),
        resolves(e, name),
        !resolves(e, n),
        e matches EventV::TestPassed { .. } || e matches EventV::TestFailed { .. } || e matches EventV::TestIgnored {
            ..
        },
        (match e {
            EventV::TestPassed { name: m, .. } => m == name,
            EventV::TestFailed { name: m, .. } => m == name,
            EventV::TestIgnored { name: m } => m == name,
            _ => false,
        }),
        tail == lines.drop_first(),
        lines.len() > 0,
        0 <= w < lines.len(),
        line_decode(lines[w]) == Ok::<Option<EventV>, ParseErrorV>(Some(EventV::SuiteFinished)),
        line_decode(lines[0]) == Ok::<Option<EventV>, ParseErrorV>(Some(e)),
        forall|i: int|
            0 <= i < lines.len() ==> !(#[trigger] line_decode(lines[i]) matches Ok(Some(ev2))
                && resolves(ev2, n)),
    ensures
        run_lines(st, lines, prefix, ts, max) is Err,
    decreases lines.len(), 0int,
{
    assert(name != n);
    let st2 = step_event(st, e, prefix, ts, max);
    if st2 is Ok {
        assert(in_flight_has(st.in_flight, name));
        lemma_remove_keeps(st.in_flight, name, n);
        assert(in_flight_has(st2->Ok_0.in_flight, n));
        assert(st2->Ok_0.open is Some);
        assert(forall|i: int| 0 <= i < tail.len() ==> tail[i] == lines[i + 1]);
        assert(w >= 1);
        assert(line_decode(tail[w - 1]) == Ok::<Option<EventV>, ParseErrorV>(
            Some(EventV::SuiteFinished),
        ));
        lemma_unresolved_run(st2->Ok_0, tail, n, prefix, ts, max);
    }
}

/// Consuming concatenated line sequences is consuming one then the other.
proof fn lemma_run_split(
    st: StateV,
    a: Seq<Seq<char>>,
    b: Seq<Seq<char>>,
    prefix: Seq<char>,
    ts: i64,
    max: nat,
)
    ensures
        run_lines(st, a + b, prefix, ts, max) == (match run_lines(st, a, prefix, ts, max) {
            Ok(st2) => run_lines(st2, b, prefix, ts, max),
            Err(e) => Err(e),
        }),
    decreases a.len(),
{
    if a.len() == 0 {
        assert(a + b =~= b);
    } else {
        assert((a + b)[0] == a[0]);
        match line_step(st, a[0], prefix, ts, max) {
            Ok(st2) => {
                assert((a + b).drop_first() =~= a.drop_first() + b);
                lemma_run_split(st2, a.drop_first(), b, prefix, ts, max);
            },
            Err(_) => {},
        }
    }
}

/// A test-started event whose test is never resolved before a suite
/// completion that follows it makes the parse fail: a suite cannot be sealed
/// while one of its tests is still in flight.
pub proof fn lemma_unresolved_test_fails(
    lines: Seq<Seq<char>>,
    k: int,
    n: Seq<char>,
    prefix: Seq<char>,
    ts: i64,
    max: nat,
)
    requires
        0 <= k < lines.len(),
        line_decode(lines[k]) == Ok::<Option<EventV>, ParseErrorV>(
            Some(EventV::TestStarted { name: n }),
        ),
        forall|i: int|
            k < i < lines.len() ==> !(#[trigger] line_decode(lines[i]) matches Ok(Some(e))
                && resolves(e, n)),
        exists|i: int|
            k < i < lines.len() && #[trigger] line_decode(lines[i]) == Ok::<
                Option<EventV>,
                ParseErrorV,
            >(Some(EventV::SuiteFinished)),
    ensures
        parse_spec(lines, prefix, ts, max) is Err,
{
    let a = lines.take(k);
    let rest = lines.skip(k);
    assert(lines =~= a + rest);
    lemma_run_split(init_state(), a, rest, prefix, ts, max);
    match run_lines(init_state(), a, prefix, ts, max) {
        Err(_) => {},
        Ok(st0) => {
            assert(rest[0] == lines[k]);
            let e = EventV::TestStarted { name: n };
            let st1 = step_event(st0, e, prefix, ts, max);
            if st1 is Ok {
                assert(st0.open is Some);
                assert(st1->Ok_0.open is Some);
                assert(st1->Ok_0.in_flight == st0.in_flight.push(n));
                assert(st1->Ok_0.in_flight[st0.in_flight.len() as int] == n);
                let tail = rest.drop_first();
                assert(forall|i: int| 0 <= i < tail.len() ==> tail[i] == lines[i + k + 1]);
                let w = choose|i: int|
                    k < i < lines.len() && #[trigger] line_decode(lines[i]) == Ok::<
                        Option<EventV>,
                        ParseErrorV,
                    >(Some(EventV::SuiteFinished));
                assert(line_decode(tail[w - k - 1]) == Ok::<Option<EventV>, ParseErrorV>(
                    Some(EventV::SuiteFinished),
                ));
                assert forall|i: int|
                    0 <= i < tail.len() implies !(#[trigger] line_decode(tail[i]) matches Ok(
                    Some(e2),
                ) && resolves(e2, n)) by {
                    assert(tail[i] == lines[i + k + 1]);
                }
                lemma_unresolved_run(st1->Ok_0, tail, n, prefix, ts, max);
            }
        },
    }
}

} // verus!
