//! Decomposition of full test identifiers and formatting of suite names.
//!
//! A full test identifier is a `::`-delimited path.  Its last segment is the
//! short name of the test; the remaining segments, joined by `::` again, form
//! the grouping path (the empty string when there are none).

use vstd::prelude::*;
use vstd::string::StringExecFns;
use crate::text;

verus! {

/// The first position at or after `i` where the separator `::` occurs.
pub open spec fn first_sep(s: Seq<char>, i: nat) -> Option<nat>
    decreases s.len() - i,
{
    if i + 2 > s.len() {
        None
    } else if s[i as int] == ':' && s[i as int + 1] == ':' {
        Some(i)
    } else {
        first_sep(s, i + 1)
    }
}

/// The segments of a `::`-delimited path, splitting greedily from the left.
pub open spec fn split_segments(s: Seq<char>) -> Seq<Seq<char>>
    decreases s.len(),
    via split_segments_decreases
{
    match first_sep(s, 0) {
        Option::None => seq![s],
        Option::Some(j) => seq![s.take(j as int)] + split_segments(s.skip(j as int + 2)),
    }
}

#[via_fn]
proof fn split_segments_decreases(s: Seq<char>) {
    match first_sep(s, 0) {
        Option::None => {},
        Option::Some(j) => {
            lemma_first_sep_in_range(s, 0, j);
        },
    }
}

/// Segments joined back together with the separator `::` between them.
pub open spec fn join_sep(parts: Seq<Seq<char>>) -> Seq<char>
    decreases parts.len(),
{
    if parts.len() == 0 {
        Seq::empty()
    } else if parts.len() == 1 {
        parts[0]
    } else {
        parts[0] + "::"@ + join_sep(parts.drop_first())
    }
}

/// The short name of a test: the last segment of its full identifier.
pub open spec fn short_name(s: Seq<char>) -> Seq<char> {
    split_segments(s).last()
}

/// The grouping path of a test: all segments but the last, joined by `::`
/// (empty when the identifier has a single segment).
pub open spec fn group_path(s: Seq<char>) -> Seq<char> {
    join_sep(split_segments(s).drop_last())
}

proof fn lemma_first_sep_in_range(s: Seq<char>, i: nat, j: nat)
    requires
        first_sep(s, i) == Some(j),
    ensures
        i <= j,
        j + 2 <= s.len(),
        s[j as int] == ':' && s[j as int + 1] == ':',
    decreases s.len() - i,
{
    if i + 2 > s.len() {
    } else if s[i as int] == ':' && s[i as int + 1] == ':' {
    } else {
        lemma_first_sep_in_range(s, i + 1, j);
    }
}

proof fn lemma_join_push(parts: Seq<Seq<char>>, x: Seq<char>)
    ensures
        parts.len() == 0 ==> join_sep(parts.push(x)) == x,
        parts.len() > 0 ==> join_sep(parts.push(x)) == join_sep(parts) + "::"@ + x,
    decreases parts.len(),
{
    if parts.len() == 0 {
        assert(join_sep(parts.push(x)) == parts.push(x)[0]);
        assert(parts.push(x)[0] == x);
    } else if parts.len() == 1 {
        let ps = parts.push(x);
        assert(ps.len() == 2);
        assert(ps[0] == parts[0]);
        assert(ps.drop_first() =~= seq![x]);
        assert(join_sep(ps.drop_first()) == x);
        assert(join_sep(parts) == parts[0]);
    } else {
        let ps = parts.push(x);
        assert(ps.drop_first() =~= parts.drop_first().push(x));
        lemma_join_push(parts.drop_first(), x);
        assert(join_sep(ps) == ps[0] + "::"@ + join_sep(ps.drop_first()));
        assert(ps[0] == parts[0]);
        assert(join_sep(parts.drop_first() + seq![x].take(0)) == join_sep(parts.drop_first()));
        assert(join_sep(ps.drop_first()) == join_sep(parts.drop_first()) + "::"@ + x);
        assert(parts[0] + "::"@ + (join_sep(parts.drop_first()) + "::"@ + x) =~= (parts[0] + "::"@
            + join_sep(parts.drop_first())) + "::"@ + x);
    }
}

/// The name given to a suite: the configured prefix, then ` #`, then the
/// zero-based index of the suite within the parse.
pub open spec fn suite_name(prefix: Seq<char>, idx: nat) -> Seq<char> {
    prefix + " #"@ + text::dec_digits(idx)
}

/// Formats a suite name from the configured prefix and the suite index.
pub fn format_suite_name(prefix: &str, idx: u64) -> (s: String)
    ensures
        s@ == suite_name(prefix@, idx as nat),
{
    let mut s = prefix.to_owned();
    s.append(" #");
    let digits = text::u64_to_string(idx);
    s.append(digits.as_str());
    proof {
        assert(s@ =~= suite_name(prefix@, idx as nat));
    }
    s
}

/// Splits a full test identifier into its short name and its grouping path.
pub fn split_name(full: &str) -> (r: (String, String))
    ensures
        r.0@ == short_name(full@),
        r.1@ == group_path(full@),
{
    let v = text::str_chars(full);
    let n = v.len();
    let mut group: Vec<char> = Vec::new();
    let mut rest: usize = 0;
    let mut first: bool = true;
    let ghost mut parts_done: Seq<Seq<char>> = Seq::empty();
    proof {
        assert(full@.skip(0) =~= full@);
        assert(parts_done + split_segments(full@) =~= split_segments(full@));
    }
    loop
        invariant
            n == v@.len(),
            v@ == full@,
            rest <= n,
            split_segments(full@) == parts_done + split_segments(full@.skip(rest as int)),
            group@ == join_sep(parts_done),
            first <==> parts_done.len() == 0,
        decreases n - rest,
    {
        // Find the first separator in the remaining suffix.
        let ghost suffix = full@.skip(rest as int);
        let mut i: usize = rest;
        let mut sep: Option<usize> = None;
        while i < n && i + 1 < n && sep.is_none()
            invariant
                n == v@.len(),
                v@ == full@,
                rest <= i <= n,
                rest <= n,
                suffix == full@.skip(rest as int),
                sep is None ==> first_sep(suffix, 0) == first_sep(suffix, (i - rest) as nat),
                sep is Some ==> {
                    &&& rest <= sep->0
                    &&& sep->0 + 2 <= n
                    &&& first_sep(suffix, 0) == Some((sep->0 - rest) as nat)
                },
            decreases n - i + (if sep is None { 1int } else { 0int }),
        {
            if v[i] == ':' && v[i + 1] == ':' {
                proof {
                    let k = (i - rest) as nat;
                    assert(suffix[k as int] == full@[i as int]);
                    assert(suffix[k as int + 1] == full@[i as int + 1]);
                    assert(first_sep(suffix, k) == Some(k));
                }
                sep = Some(i);
            } else {
                proof {
                    let k = (i - rest) as nat;
                    assert(suffix[k as int] == full@[i as int]);
                    assert(suffix[k as int + 1] == full@[i as int + 1]);
                    assert(first_sep(suffix, k) == first_sep(suffix, k + 1));
                }
                i += 1;
            }
        }
        match sep {
            None => {
                proof {
                    if i + 2 > n {
                        assert(((i - rest) as nat) + 2 > suffix.len());
                        assert(first_sep(suffix, (i - rest) as nat) is None);
                    }
                    assert(split_segments(suffix) == seq![suffix]);
                    assert(parts_done + seq![suffix] =~= parts_done.push(suffix));
                }
                // The remaining suffix is the short name.
                let mut short: Vec<char> = Vec::new();
                let mut k: usize = rest;
                while k < n
                    invariant
                        n == v@.len(),
                        v@ == full@,
                        rest <= k <= n,
                        short@ == full@.skip(rest as int).take((k - rest) as int),
                    decreases n - k,
                {
                    short.push(v[k]);
                    proof {
                        assert(full@.skip(rest as int).take((k + 1 - rest) as int) =~= full@.skip(
                            rest as int,
                        ).take((k - rest) as int).push(full@[k as int]));
                    }
                    k += 1;
                }
                proof {
                    assert(short@ =~= suffix);
                    let segs = split_segments(full@);
                    assert(segs == parts_done.push(suffix));
                    assert(segs.last() == suffix);
                    assert(segs.drop_last() =~= parts_done);
                }
                let short_s = text::string_from_chars(&short);
                let group_s = text::string_from_chars(&group);
                return (short_s, group_s);
            },
            Some(j) => {
                let ghost k = (j - rest) as nat;
                let ghost seg = suffix.take(k as int);
                proof {
                    lemma_first_sep_in_range(suffix, 0, k);
                    assert(split_segments(suffix) == seq![seg] + split_segments(suffix.skip(k as int + 2)));
                    assert(suffix.skip(k as int + 2) =~= full@.skip(j as int + 2));
                    lemma_join_push(parts_done, seg);
                }
                // Append this segment to the grouping path, preceded by a
                // separator unless it is the first one.
                if !first {
                    group.push(':');
                    group.push(':');
                    proof {
                        reveal_strlit("::");
                        assert(group@ =~= join_sep(parts_done) + "::"@);
                    }
                }
                let mut k2: usize = rest;
                while k2 < j
                    invariant
                        n == v@.len(),
                        v@ == full@,
                        rest <= k2 <= j <= n,
                        seg == full@.skip(rest as int).take((j - rest) as int),
                        group@ == (if parts_done.len() == 0 {
                            Seq::<char>::empty()
                        } else {
                            join_sep(parts_done) + "::"@
                        }) + full@.skip(rest as int).take((k2 - rest) as int),
                    decreases j - k2,
                {
                    group.push(v[k2]);
                    proof {
                        assert(full@.skip(rest as int).take((k2 + 1 - rest) as int) =~= full@.skip(
                            rest as int,
                        ).take((k2 - rest) as int).push(full@[k2 as int]));
                    }
                    k2 += 1;
                }
                proof {
                    reveal_strlit("::");
                    let tail_segs = split_segments(full@.skip(j as int + 2));
                    assert(parts_done + (seq![seg] + tail_segs) =~= parts_done.push(seg)
                        + tail_segs);
                    assert(seg =~= full@.skip(rest as int).take((j - rest) as int));
                    parts_done = parts_done.push(seg);
                    assert(group@ =~= join_sep(parts_done));
                }
                first = false;
                rest = j + 2;
            },
        }
    }
}

} // verus!
