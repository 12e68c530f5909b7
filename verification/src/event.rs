//! The wire-level events of the stream, and the decoder that reads one event
//! from one line.
//!
//! A line is a candidate when its first non-whitespace character is `{`; all
//! other lines are interleaved log noise and are ignored.  A candidate line
//! must hold one JSON object in one of the known event shapes.  Suite shapes
//! are tried before test shapes, mirroring the order the historical wire
//! formats are distinguished in.  A candidate that fails to decode is retried
//! once with every backslash doubled — the upstream producer is known to emit
//! unescaped backslashes inside JSON strings — and only then is the failure
//! fatal.

use vstd::prelude::*;
use vstd::string::StrSliceExecFns;
use crate::duration;
use crate::duration::float_text_ns;
use crate::json;
use crate::report::ParseError;
use crate::report::ParseErrorV;
use crate::text;

verus! {

/// One decoded event.  Suite completion carries nothing: the pass and fail
/// counts on the wire are checked for presence but not otherwise consulted,
/// and success and failure completions are handled identically.
#[derive(Debug)]
pub enum Event {
    SuiteStarted,
    SuiteFinished,
    TestStarted { name: String },
    TestPassed { name: String, duration_ns: i64 },
    TestFailed { name: String, duration_ns: i64, stdout: Option<String>, stderr: Option<String> },
    TestIgnored { name: String },
    TestTimeout { name: String },
}

/// One decoded event, as values.
#[verifier::ext_equal]
pub enum EventV {
    SuiteStarted,
    SuiteFinished,
    TestStarted { name: Seq<char> },
    TestPassed { name: Seq<char>, duration_ns: i64 },
    TestFailed {
        name: Seq<char>,
        duration_ns: i64,
        stdout: Option<Seq<char>>,
        stderr: Option<Seq<char>>,
    },
    TestIgnored { name: Seq<char> },
    TestTimeout { name: Seq<char> },
}

impl View for Event {
    type V = EventV;

    open spec fn view(&self) -> EventV {
        match self {
            Event::SuiteStarted => EventV::SuiteStarted,
            Event::SuiteFinished => EventV::SuiteFinished,
            Event::TestStarted { name } => EventV::TestStarted { name: name@ },
            Event::TestPassed { name, duration_ns } => EventV::TestPassed {
                name: name@,
                duration_ns: *duration_ns,
            },
            Event::TestFailed { name, duration_ns, stdout, stderr } => EventV::TestFailed {
                name: name@,
                duration_ns: *duration_ns,
                stdout: stdout.deep_view(),
                stderr: stderr.deep_view(),
            },
            Event::TestIgnored { name } => EventV::TestIgnored { name: name@ },
            Event::TestTimeout { name } => EventV::TestTimeout { name: name@ },
        }
    }
}

/// Nanoseconds from a seconds string: the text must end in the suffix `s`,
/// and what precedes the suffix must be a decimal number.
pub open spec fn secs_str_ns(t: Seq<char>) -> Option<i64> {
    if t.len() >= 1 && t.last() == 's' {
        float_text_ns(t.drop_last(), 9)
    } else {
        None
    }
}

/// The suite interpretation of a line: an `event` tag of `started` needs a
/// `test_count` count; `ok` and `failed` need `passed` and `failed` counts.
pub open spec fn suite_shape(line: Seq<char>) -> Option<EventV> {
    let ev = json::json_str_field(line, "event"@);
    if ev == Some("started"@) {
        if json::json_uint_field(line, "test_count"@) is Some {
            Some(EventV::SuiteStarted)
        } else {
            None
        }
    } else if ev == Some("ok"@) || ev == Some("failed"@) {
        if json::json_uint_field(line, "passed"@) is Some && json::json_uint_field(
            line,
            "failed"@,
        ) is Some {
            Some(EventV::SuiteFinished)
        } else {
            None
        }
    } else {
        None
    }
}

/// Whether the timing fields of a test line have acceptable types: `duration`
/// must be a number or absent, `exec_time` a string, a number, or absent.
pub open spec fn test_fields_ok(line: Seq<char>) -> bool {
    &&& (json::json_num_field(line, "duration"@) is Some || json::json_field_absent(
        line,
        "duration"@,
    ))
    &&& (json::json_str_field(line, "exec_time"@) is Some || json::json_num_field(
        line,
        "exec_time"@,
    ) is Some || json::json_field_absent(line, "exec_time"@))
}

/// The elapsed time of a test line, in nanoseconds.  A seconds value — the
/// `exec_time` field, as a suffixed string or a number — takes precedence
/// over a milliseconds `duration` value; with neither the duration is zero.
/// `None` when the present field does not parse.
pub open spec fn test_duration_ns(line: Seq<char>) -> Option<i64> {
    let et_str = json::json_str_field(line, "exec_time"@);
    let et_num = json::json_num_field(line, "exec_time"@);
    let dur_num = json::json_num_field(line, "duration"@);
    if et_str is Some {
        secs_str_ns(et_str->0)
    } else if et_num is Some {
        float_text_ns(et_num->0, 9)
    } else if dur_num is Some {
        float_text_ns(dur_num->0, 6)
    } else {
        Some(0)
    }
}

/// The test interpretation of a line: an `event` tag of `started`, `ok`,
/// `failed`, `ignored` or `timeout`, a `name` string, acceptable timing
/// fields, and, for a failure, `stdout` and `stderr` each a string or absent.
pub open spec fn test_shape(line: Seq<char>) -> Option<EventV> {
    let name = json::json_str_field(line, "name"@);
    let ev = json::json_str_field(line, "event"@);
    if name is None || !test_fields_ok(line) {
        None
    } else {
        match test_duration_ns(line) {
            None => None,
            Some(d) => {
                let nm = name->0;
                if ev == Some("started"@) {
                    Some(EventV::TestStarted { name: nm })
                } else if ev == Some("ok"@) {
                    Some(EventV::TestPassed { name: nm, duration_ns: d })
                } else if ev == Some("failed"@) {
                    let so = json::json_str_field(line, "stdout"@);
                    let se = json::json_str_field(line, "stderr"@);
                    if (so is Some || json::json_field_absent(line, "stdout"@)) && (se is Some
                        || json::json_field_absent(line, "stderr"@)) {
                        Some(
                            EventV::TestFailed {
                                name: nm,
                                duration_ns: d,
                                stdout: so,
                                stderr: se,
                            },
                        )
                    } else {
                        None
                    }
                } else if ev == Some("ignored"@) {
                    Some(EventV::TestIgnored { name: nm })
                } else if ev == Some("timeout"@) {
                    Some(EventV::TestTimeout { name: nm })
                } else {
                    None
                }
            },
        }
    }
}

/// The event a candidate line decodes to: the suite interpretation when it
/// fits, else the test interpretation, else nothing.
pub open spec fn decode_event(line: Seq<char>) -> Option<EventV> {
    match suite_shape(line) {
        Some(e) => Some(e),
        None => test_shape(line),
    }
}

/// The line with every backslash doubled.
pub open spec fn double_backslashes(s: Seq<char>) -> Seq<char>
    decreases s.len(),
{
    if s.len() == 0 {
        Seq::empty()
    } else {
        (if s[0] == '\\' {
            seq!['\\', '\\']
        } else {
            seq![s[0]]
        }) + double_backslashes(s.drop_first())
    }
}

/// Whether the first non-whitespace character at or after `i` is `{`.
pub open spec fn candidate_from(line: Seq<char>, i: nat) -> bool
    decreases line.len() - i,
    when i <= line.len()
{
    if i >= line.len() {
        false
    } else if text::char_whitespace(line[i as int]) {
        candidate_from(line, i + 1)
    } else {
        line[i as int] == '{'
    }
}

/// Whether a line is a candidate event line: its first non-whitespace
/// character is `{`.  All other lines are ignored as log noise.
pub open spec fn is_candidate(line: Seq<char>) -> bool {
    candidate_from(line, 0)
}

/// The event a candidate line decodes to after the backslash-doubling retry.
pub open spec fn decode_with_retry(line: Seq<char>) -> Option<EventV> {
    match decode_event(line) {
        Some(e) => Some(e),
        None => decode_event(double_backslashes(line)),
    }
}

/// The cause recorded for a line that failed to decode: the JSON parse error
/// when the line is not JSON, else a note that no event shape fit.
pub open spec fn decode_cause(line: Seq<char>) -> Seq<char> {
    match json::json_error_text(line) {
        Some(c) => c,
        None => "the line matches no known event shape"@,
    }
}

/// What one line of the stream contributes: nothing for an ignored line, an
/// event for a decodable candidate, and a fatal decode error otherwise.
pub open spec fn line_decode(line: Seq<char>) -> Result<Option<EventV>, ParseErrorV> {
    if !is_candidate(line) {
        Ok(None)
    } else {
        match decode_with_retry(line) {
            Some(e) => Ok(Some(e)),
            None => Err(ParseErrorV::Decode { line, cause: decode_cause(line) }),
        }
    }
}

/// The decode result, as values.
pub open spec fn decode_result_view(r: Result<Option<Event>, ParseError>) -> Result<
    Option<EventV>,
    ParseErrorV,
> {
    match r {
        Ok(None) => Ok(None),
        Ok(Some(e)) => Ok(Some(e@)),
        Err(e) => Err(e@),
    }
}

/// Nanoseconds from a seconds string such as `0.0721s`.
pub fn seconds_text_ns(t: &str) -> (r: Option<i64>)
    ensures
        r == secs_str_ns(t@),
{
    let n = t.unicode_len();
    if n == 0 {
        return None;
    }
    let last = t.get_char(n - 1);
    if last != 's' {
        return None;
    }
    let prefix = t.substring_char(0, n - 1);
    proof {
        assert(prefix@ =~= t@.drop_last());
    }
    duration::ns_from_decimal_str(prefix, 9)
}

/// Decodes a candidate line into an event, or nothing when no shape fits.
pub fn decode_event_exec(line: &str) -> (r: Option<Event>)
    ensures
        r is Some <==> decode_event(line@) is Some,
        r is Some ==> r->0@ == decode_event(line@)->0,
{
    let ev = json::get_str_field(line, "event");
    if let Some(evs) = &ev {
        if text::string_is(evs, "started") {
            if json::get_uint_field(line, "test_count").is_some() {
                return Some(Event::SuiteStarted);
            }
        } else if text::string_is(evs, "ok") || text::string_is(evs, "failed") {
            if json::get_uint_field(line, "passed").is_some() && json::get_uint_field(
                line,
                "failed",
            ).is_some() {
                return Some(Event::SuiteFinished);
            }
        }
    }
    let name = match json::get_str_field(line, "name") {
        Some(n) => n,
        None => {
            return None;
        },
    };
    let dur_num = json::get_num_field(line, "duration");
    let et_str = json::get_str_field(line, "exec_time");
    let et_num = json::get_num_field(line, "exec_time");
    let dur_field_ok = dur_num.is_some() || json::field_absent(line, "duration");
    let et_field_ok = et_str.is_some() || et_num.is_some() || json::field_absent(line, "exec_time");
    if !(dur_field_ok && et_field_ok) {
        return None;
    }
    let d_opt: Option<i64> = if let Some(t) = &et_str {
        seconds_text_ns(t.as_str())
    } else if let Some(t) = &et_num {
        duration::ns_from_decimal_str(t.as_str(), 9)
    } else if let Some(t) = &dur_num {
        duration::ns_from_decimal_str(t.as_str(), 6)
    } else {
        Some(0)
    };
    let d = match d_opt {
        Some(d) => d,
        None => {
            return None;
        },
    };
    let evs = match ev {
        Some(e) => e,
        None => {
            return None;
        },
    };
    if text::string_is(&evs, "started") {
        Some(Event::TestStarted { name })
    } else if text::string_is(&evs, "ok") {
        Some(Event::TestPassed { name, duration_ns: d })
    } else if text::string_is(&evs, "failed") {
        let so = json::get_str_field(line, "stdout");
        let se = json::get_str_field(line, "stderr");
        let so_ok = so.is_some() || json::field_absent(line, "stdout");
        let se_ok = se.is_some() || json::field_absent(line, "stderr");
        if so_ok && se_ok {
            Some(Event::TestFailed { name, duration_ns: d, stdout: so, stderr: se })
        } else {
            None
        }
    } else if text::string_is(&evs, "ignored") {
        Some(Event::TestIgnored { name })
    } else if text::string_is(&evs, "timeout") {
        Some(Event::TestTimeout { name })
    } else {
        None
    }
}

/// The line with every backslash doubled.
pub fn double_backslashes_exec(s: &str) -> (r: String)
    ensures
        r@ == double_backslashes(s@),
{
    let v = text::str_chars(s);
    let n = v.len();
    let mut out: Vec<char> = Vec::new();
    let mut i: usize = 0;
    proof {
        assert(s@.skip(0) =~= s@);
    }
    while i < n
        invariant
            n == v@.len(),
            v@ == s@,
            i <= n,
            double_backslashes(s@) == out@ + double_backslashes(s@.skip(i as int)),
        decreases n - i,
    {
        let ghost suffix = s@.skip(i as int);
        proof {
            assert(suffix[0] == s@[i as int]);
            assert(suffix.drop_first() =~= s@.skip(i as int + 1));
        }
        if v[i] == '\\' {
            out.push('\\');
            out.push('\\');
        } else {
            out.push(v[i]);
        }
        proof {
            assert(out@ + double_backslashes(s@.skip(i as int + 1)) =~= double_backslashes(s@));
        }
        i += 1;
    }
    proof {
        assert(s@.skip(n as int) =~= Seq::<char>::empty());
        assert(out@ =~= double_backslashes(s@));
    }
    text::string_from_chars(&out)
}

/// Whether the first non-whitespace character of the line is `{`.
pub fn is_candidate_exec(line: &str) -> (r: bool)
    ensures
        r == is_candidate(line@),
{
    let v = text::str_chars(line);
    let n = v.len();
    let mut i: usize = 0;
    while i < n
        invariant
            n == v@.len(),
            v@ == line@,
            i <= n,
            is_candidate(line@) == candidate_from(line@, i as nat),
        decreases n - i,
    {
        if text::is_whitespace_char(v[i]) {
            i += 1;
        } else {
            return v[i] == '{';
        }
    }
    false
}

/// Decodes one line of the stream: nothing for an ignored line, an event for
/// a decodable candidate, and — after one retry with backslashes doubled — a
/// fatal decode error carrying the line and the underlying cause.
pub fn decode_line(line: &str) -> (r: Result<Option<Event>, ParseError>)
    ensures
        decode_result_view(r) == line_decode(line@),
{
    if !is_candidate_exec(line) {
        return Ok(None);
    }
    if let Some(e) = decode_event_exec(line) {
        return Ok(Some(e));
    }
    let doubled = double_backslashes_exec(line);
    if let Some(e) = decode_event_exec(doubled.as_str()) {
        return Ok(Some(e));
    }
    let cause = match json::parse_error_text(line) {
        Some(c) => c,
        None => "the line matches no known event shape".to_owned(),
    };
    Err(ParseError::Decode { line: line.to_owned(), cause })
}

} // verus!
