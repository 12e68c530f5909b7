//! Sanitization and bounding of captured test output.
//!
//! Captured stdout and stderr may contain terminal control sequences, which
//! are stripped.  When both streams are present they are joined with a single
//! newline, stdout first.  Text longer than the configured maximum is cut in
//! the middle and a marker is put in its place, keeping the head and the tail
//! of the original text.

use vstd::prelude::*;
use vstd::string::StrSliceExecFns;
use vstd::string::StringExecFns;
use crate::text;

verus! {

/// Whether a character closes a control sequence: the final bytes `@` to `~`.
pub open spec fn is_csi_final(c: char) -> bool {
    64 <= c as u32 <= 126
}

/// The position of the first sequence-closing character at or after `i`, or
/// the length when the sequence runs to the end unterminated.
pub open spec fn csi_end(s: Seq<char>, i: nat) -> nat
    decreases s.len() - i,
    when i <= s.len()
{
    if i < s.len() && !is_csi_final(s[i as int]) {
        csi_end(s, i + 1)
    } else {
        i
    }
}

proof fn lemma_csi_end_range(s: Seq<char>, i: nat)
    requires
        i <= s.len(),
    ensures
        i <= csi_end(s, i) <= s.len(),
        csi_end(s, i) < s.len() ==> is_csi_final(s[csi_end(s, i) as int]),
    decreases s.len() - i,
{
    if i < s.len() && !is_csi_final(s[i as int]) {
        lemma_csi_end_range(s, i + 1);
    }
}

/// The text with every control sequence removed.  A sequence starts with the
/// escape character followed by `[` and runs to its first closing character,
/// inclusive; one still open at the end of the text swallows the rest.  All
/// other characters pass through unchanged.
pub open spec fn strip_csi(s: Seq<char>) -> Seq<char>
    decreases s.len(),
    via strip_csi_decreases
{
    if s.len() == 0 {
        Seq::empty()
    } else if s[0] == '\u{1b}' && s.len() >= 2 && s[1] == '[' {
        let e = csi_end(s, 2);
        if e < s.len() {
            strip_csi(s.skip(e as int + 1))
        } else {
            Seq::empty()
        }
    } else {
        seq![s[0]] + strip_csi(s.drop_first())
    }
}

#[via_fn]
proof fn strip_csi_decreases(s: Seq<char>) {
    if s.len() >= 2 {
        lemma_csi_end_range(s, 2);
    }
}

/// Stdout and stderr joined into one diagnostic text: both present are joined
/// with a single newline, stdout first; one alone stands by itself; none give
/// the empty text.
pub open spec fn merged(o: Option<Seq<char>>, e: Option<Seq<char>>) -> Seq<char> {
    match (o, e) {
        (Some(a), Some(b)) => a + "\n"@ + b,
        (Some(a), None) => a,
        (None, Some(b)) => b,
        (None, None) => Seq::empty(),
    }
}

/// The marker that replaces the cut middle of an overlong text.
pub open spec fn trunc_marker() -> Seq<char> {
    "[...TRUNCATED...]"@
}

/// Text bounded to roughly `max` characters: short text is kept whole; longer
/// text keeps its head and tail, each half of what remains of the budget after
/// the marker and two joining newlines, with the marker in between.
pub open spec fn bounded(s: Seq<char>, max: nat) -> Seq<char> {
    if s.len() <= max {
        s
    } else {
        let half = if max >= trunc_marker().len() {
            ((max - trunc_marker().len()) / 2) as nat
        } else {
            0
        };
        s.take(half as int) + "\n"@ + trunc_marker() + "\n"@ + s.skip(s.len() - half as int)
    }
}

/// The diagnostic text of a failure: each captured stream stripped of control
/// sequences, the two merged, and the result bounded.
pub open spec fn diagnostic(o: Option<Seq<char>>, e: Option<Seq<char>>, max: nat) -> Seq<char> {
    bounded(
        merged(
            match o {
                Some(a) => Some(strip_csi(a)),
                None => None,
            },
            match e {
                Some(b) => Some(strip_csi(b)),
                None => None,
            },
        ),
        max,
    )
}

/// Removes terminal control sequences from captured output.
pub fn sanitize_text(s: &str) -> (r: String)
    ensures
        r@ == strip_csi(s@),
{
    let v = text::str_chars(s);
    let n = v.len();
    let mut out: Vec<char> = Vec::new();
    let mut i: usize = 0;
    proof {
        assert(s@.skip(0) =~= s@);
    }
    while i < n
        invariant
            n == v@.len(),
            v@ == s@,
            i <= n,
            strip_csi(s@) == out@ + strip_csi(s@.skip(i as int)),
        decreases n - i,
    {
        let ghost suffix = s@.skip(i as int);
        if v[i] == '\u{1b}' && i + 1 < n && v[i + 1] == '[' {
            proof {
                assert(suffix[0] == s@[i as int]);
                assert(suffix[1] == s@[i as int + 1]);
            }
            // Skip to the closing character of the sequence, inclusive.
            let mut j: usize = i + 2;
            while j < n && !(v[j] as u32 >= 64 && v[j] as u32 <= 126)
                invariant
                    n == v@.len(),
                    v@ == s@,
                    i + 2 <= j <= n,
                    suffix == s@.skip(i as int),
                    csi_end(suffix, 2) == csi_end(suffix, (j - i) as nat),
                decreases n - j,
            {
                proof {
                    assert(suffix[(j - i) as int] == s@[j as int]);
                    assert(csi_end(suffix, (j - i) as nat) == csi_end(suffix, (j - i + 1) as nat));
                }
                j += 1;
            }
            proof {
                let e = (j - i) as nat;
                if j < n {
                    assert(suffix[e as int] == s@[j as int]);
                    assert(csi_end(suffix, e) == e);
                    assert(suffix.skip(e as int + 1) =~= s@.skip(j as int + 1));
                } else {
                    assert(e == suffix.len());
                    assert(csi_end(suffix, e) == e);
                    assert(strip_csi(suffix) =~= Seq::<char>::empty());
                }
            }
            if j < n {
                i = j + 1;
            } else {
                i = n;
                proof {
                    assert(s@.skip(n as int) =~= Seq::<char>::empty());
                    assert(out@ + strip_csi(s@.skip(n as int)) =~= out@ + Seq::<char>::empty());
                    assert(strip_csi(s@) == out@ + strip_csi(s@.skip(i as int)));
                }
            }
        } else {
            proof {
                assert(suffix[0] == s@[i as int]);
                if suffix.len() >= 2 {
                    assert(suffix[1] == s@[i as int + 1]);
                }
                assert(strip_csi(suffix) == seq![suffix[0]] + strip_csi(suffix.drop_first()));
                assert(suffix.drop_first() =~= s@.skip(i as int + 1));
            }
            out.push(v[i]);
            proof {
                assert(out@ + strip_csi(s@.skip(i as int + 1)) =~= strip_csi(s@));
            }
            i += 1;
        }
    }
    proof {
        assert(s@.skip(n as int) =~= Seq::<char>::empty());
        assert(out@ =~= strip_csi(s@));
    }
    text::string_from_chars(&out)
}

/// Bounds text to roughly `max` characters, cutting the middle and putting the
/// marker in its place.
pub fn bound_text(s: &str, max: usize) -> (r: String)
    ensures
        r@ == bounded(s@, max as nat),
{
    let v = text::str_chars(s);
    let n = v.len();
    if n <= max {
        return s.to_owned();
    }
    proof {
        reveal_strlit("[...TRUNCATED...]");
    }
    let half: usize = if max >= 17 {
        (max - 17) / 2
    } else {
        0
    };
    let mut head: Vec<char> = Vec::new();
    text::push_range(&mut head, &v, 0, half);
    let mut r = text::string_from_chars(&head);
    r.append("\n");
    r.append("[...TRUNCATED...]");
    r.append("\n");
    let mut tail: Vec<char> = Vec::new();
    text::push_range(&mut tail, &v, n - half, n);
    let tail_s = text::string_from_chars(&tail);
    r.append(tail_s.as_str());
    proof {
        assert(v@.subrange(0, half as int) =~= s@.take(half as int));
        assert(v@.subrange(n - half as int, n as int) =~= s@.skip(s@.len() - half as int));
        assert(r@ =~= bounded(s@, max as nat));
    }
    r
}

/// The full diagnostic text for a failure: each captured stream sanitized,
/// the two merged with stdout first, and the result bounded.
pub fn diagnostic_text(o: &Option<String>, e: &Option<String>, max: usize) -> (r: String)
    ensures
        r@ == diagnostic(o.deep_view(), e.deep_view(), max as nat),
{
    let joined: String = match (o, e) {
        (Some(a), Some(b)) => {
            let mut m = sanitize_text(a.as_str());
            m.append("\n");
            let sb = sanitize_text(b.as_str());
            m.append(sb.as_str());
            m
        },
        (Some(a), None) => sanitize_text(a.as_str()),
        (None, Some(b)) => sanitize_text(b.as_str()),
        (None, None) => String::new(),
    };
    bound_text(joined.as_str(), max)
}

/// For text longer than a budget of at least nineteen characters, the bounded
/// text stays within two characters of the budget, keeps the first and last
/// characters of the original, and holds the marker between the kept head and
/// tail.
pub proof fn lemma_bounded_shape(s: Seq<char>, max: nat)
    requires
        s.len() > max,
        max >= 19,
    ensures
        max <= bounded(s, max).len() <= max + 2,
        bounded(s, max)[0] == s[0],
        bounded(s, max).last() == s.last(),
        forall|j: int|
            0 <= j < trunc_marker().len() ==> bounded(s, max)[(max - trunc_marker().len()) as int
                / 2 + 1 + j] == trunc_marker()[j],
{
    reveal_strlit("[...TRUNCATED...]");
    reveal_strlit("\n");
    let half = ((max - trunc_marker().len()) / 2) as nat;
    let b = bounded(s, max);
    assert(b == s.take(half as int) + "\n"@ + trunc_marker() + "\n"@ + s.skip(
        s.len() - half as int,
    ));
    assert(b.len() == half + 1 + trunc_marker().len() + 1 + half);
    assert(half >= 1);
    assert(b[0] == s.take(half as int)[0]);
    assert(b.last() == s.skip(s.len() - half as int).last());
    assert(s.skip(s.len() - half as int).last() == s.last());
    assert forall|j: int| 0 <= j < trunc_marker().len() implies b[half + 1 + j]
        == trunc_marker()[j] by {
        assert(b[half + 1 + j] == (s.take(half as int) + "\n"@ + trunc_marker())[half + 1 + j]);
    }
}

} // verus!
