//! Unification of the elapsed-time encodings found in the event stream.
//!
//! A duration may arrive as a decimal seconds value (a string field, or a
//! number) or as a decimal milliseconds value (a number).  Seconds are scaled
//! by ten to the ninth, milliseconds by ten to the sixth, and the scaled value
//! is truncated toward zero and saturated to the signed 64-bit range, giving
//! nanoseconds.  The decimal text is interpreted exactly; no binary floating
//! point is involved.

use vstd::prelude::*;
use crate::text;

verus! {

/// Whether a character is a decimal digit.
pub open spec fn is_digit(c: char) -> bool {
    48 <= c as u32 <= 57
}

/// The value of one decimal digit character.
pub open spec fn digit_val(c: char) -> nat {
    (c as u32 - 48) as nat
}

/// Whether every character of the sequence is a decimal digit.
pub open spec fn all_digits(ds: Seq<char>) -> bool {
    forall|i: int| 0 <= i < ds.len() ==> is_digit(#[trigger] ds[i])
}

/// Ten to the given power.
pub open spec fn pow10(n: nat) -> nat
    decreases n,
{
    if n == 0 {
        1
    } else {
        10 * pow10((n - 1) as nat)
    }
}

/// The value of a sequence of decimal digits, most significant first.
pub open spec fn digits_val(ds: Seq<char>) -> nat
    decreases ds.len(),
{
    if ds.len() == 0 {
        0
    } else {
        digits_val(ds.drop_last()) * 10 + digit_val(ds.last())
    }
}

/// The magnitude, in the target unit and truncated toward zero, of the decimal
/// fraction `0.ds` shifted left by `p` decimal places: the integer part of
/// `0.ds * 10^p`.
pub open spec fn ns_mag(ds: Seq<char>, p: int) -> nat
    decreases ds.len(),
{
    if p <= 0 || ds.len() == 0 {
        0
    } else {
        digit_val(ds[0]) * pow10((p - 1) as nat) + ns_mag(ds.drop_first(), p - 1)
    }
}

/// The digit of `ds` at position `k`, reading zero beyond the end.
pub open spec fn digit_at(ds: Seq<char>, k: int) -> nat {
    if 0 <= k < ds.len() {
        digit_val(ds[k])
    } else {
        0
    }
}

/// The magnitude of half the signed 64-bit range; used as the saturation
/// bound for both directions before the sign is applied.
pub const NS_SAT: u64 = 9223372036854775808;

/// Saturating conversion of a signed decimal magnitude to signed 64-bit
/// nanoseconds, truncating toward zero: the behavior of a float-to-integer
/// cast, made exact.
pub open spec fn apply_sign_sat(neg: bool, mag: nat) -> i64 {
    if neg {
        if mag >= NS_SAT {
            i64::MIN
        } else {
            (0 - mag as int) as i64
        }
    } else {
        if mag > i64::MAX {
            i64::MAX
        } else {
            mag as int as i64
        }
    }
}

proof fn lemma_pow10_mono(m: nat, n: nat)
    requires
        m <= n,
    ensures
        pow10(m) <= pow10(n),
        pow10(m) >= 1,
    decreases n,
{
    if n == 0 {
    } else if m == n {
        lemma_pow10_mono(0, (n - 1) as nat);
    } else {
        lemma_pow10_mono(m, (n - 1) as nat);
    }
}

/// Extending the shift by one multiplies the magnitude by ten and brings in
/// the next digit.
#[verifier::rlimit(50)]
proof fn lemma_ns_mag_step(ds: Seq<char>, k: nat)
    ensures
        ns_mag(ds, k as int + 1) == ns_mag(ds, k as int) * 10 + digit_at(ds, k as int),
    decreases k, ds.len(),
{
    if ds.len() == 0 {
        assert(ns_mag(ds, k as int + 1) == 0);
        assert(ns_mag(ds, k as int) == 0);
        assert(digit_at(ds, k as int) == 0);
    } else if k == 0 {
        assert(ns_mag(ds, 1) == digit_val(ds[0]) * pow10(0) + ns_mag(ds.drop_first(), 0));
        assert(pow10(0) == 1);
        assert(digit_val(ds[0]) * pow10(0) == digit_val(ds[0])) by (nonlinear_arith)
            requires
                pow10(0) == 1,
        ;
        assert(ns_mag(ds.drop_first(), 0) == 0);
        assert(ns_mag(ds, 0) == 0);
        assert(digit_at(ds, 0) == digit_val(ds[0]));
    } else {
        let d0 = digit_val(ds[0]);
        let t = ds.drop_first();
        lemma_ns_mag_step(t, (k - 1) as nat);
        assert(digit_at(t, k - 1) == digit_at(ds, k as int));
        assert(pow10(k) == 10 * pow10((k - 1) as nat));
        assert(ns_mag(ds, k as int + 1) == d0 * pow10(k) + ns_mag(t, k as int));
        assert(ns_mag(ds, k as int) == d0 * pow10((k - 1) as nat) + ns_mag(t, k - 1));
        assert(ns_mag(t, k as int) == ns_mag(t, k - 1) * 10 + digit_at(t, k - 1));
        assert(d0 * pow10(k) == d0 * pow10((k - 1) as nat) * 10) by (nonlinear_arith)
            requires
                pow10(k) == 10 * pow10((k - 1) as nat),
        ;
        assert((d0 * pow10((k - 1) as nat) + ns_mag(t, k - 1)) * 10 == d0 * pow10(
            (k - 1) as nat,
        ) * 10 + ns_mag(t, k - 1) * 10) by (nonlinear_arith);
        assert(ns_mag(ds, k as int + 1) == ns_mag(ds, k as int) * 10 + digit_at(ds, k as int));
    }
}

/// A leading zero digit only shortens the shift.
proof fn lemma_ns_mag_leading_zero(ds: Seq<char>, p: int)
    requires
        ds.len() > 0,
        digit_val(ds[0]) == 0,
    ensures
        ns_mag(ds, p) == ns_mag(ds.drop_first(), p - 1),
{
    if p <= 0 {
    }
}

/// With a nonzero leading digit and a shift of at least twenty places, the
/// magnitude reaches the saturation bound.
proof fn lemma_ns_mag_saturates(ds: Seq<char>, p: int)
    requires
        all_digits(ds),
        ds.len() > 0,
        digit_val(ds[0]) >= 1,
        p >= 20,
    ensures
        ns_mag(ds, p) >= NS_SAT,
{
    lemma_pow10_mono(19, (p - 1) as nat);
    assert(pow10(19) == 10000000000000000000) by {
        reveal_with_fuel(pow10, 20);
    }
    assert(digit_val(ds[0]) * pow10((p - 1) as nat) >= pow10((p - 1) as nat)) by (nonlinear_arith)
        requires
            digit_val(ds[0]) >= 1,
            pow10((p - 1) as nat) >= 0,
    ;
}

/// The number of consecutive decimal digits starting at position `i`.
pub open spec fn digit_run(s: Seq<char>, i: nat) -> nat
    decreases s.len() - i,
    when i <= s.len()
{
    if i < s.len() && is_digit(s[i as int]) {
        1 + digit_run(s, i + 1)
    } else {
        0
    }
}

/// The pieces of a decimal number written as text: an optional sign, integer
/// digits, fraction digits, and an optional signed exponent.
pub struct FloatParts {
    pub neg: bool,
    pub int_digits: Seq<char>,
    pub frac_digits: Seq<char>,
    pub exp_neg: bool,
    pub exp_digits: Seq<char>,
}

/// Parses the text of a decimal number: an optional `+` or `-`, digits with an
/// optional `.` and fraction, and an optional exponent part `e`/`E` with an
/// optional sign and at least one digit.  At least one digit must appear
/// before the exponent.  Anything else is rejected.
pub open spec fn parse_float_text(s: Seq<char>) -> Option<FloatParts> {
    let has_sign = s.len() > 0 && (s[0] == '-' || s[0] == '+');
    let neg = s.len() > 0 && s[0] == '-';
    let i1: nat = if has_sign {
        1
    } else {
        0
    };
    let ni = digit_run(s, i1);
    let int_digits = s.subrange(i1 as int, (i1 + ni) as int);
    let ai = i1 + ni;
    let has_dot = ai < s.len() && s[ai as int] == '.';
    let fi: nat = if has_dot {
        ai + 1
    } else {
        ai
    };
    let nf: nat = if has_dot {
        digit_run(s, ai + 1)
    } else {
        0
    };
    let frac_digits = s.subrange(fi as int, (fi + nf) as int);
    let af = fi + nf;
    if ni + nf == 0 {
        None
    } else if af == s.len() {
        Some(
            FloatParts {
                neg,
                int_digits,
                frac_digits,
                exp_neg: false,
                exp_digits: Seq::empty(),
            },
        )
    } else if s[af as int] == 'e' || s[af as int] == 'E' {
        let has_esign = af + 1 < s.len() && (s[af as int + 1] == '-' || s[af as int + 1] == '+');
        let exp_neg = af + 1 < s.len() && s[af as int + 1] == '-';
        let ei: nat = if has_esign {
            af + 2
        } else {
            af + 1
        };
        let ne = digit_run(s, ei);
        if ne > 0 && ei + ne == s.len() {
            Some(
                FloatParts {
                    neg,
                    int_digits,
                    frac_digits,
                    exp_neg,
                    exp_digits: s.subrange(ei as int, (ei + ne) as int),
                },
            )
        } else {
            None
        }
    } else {
        None
    }
}

/// The signed exponent of parsed number text.
pub open spec fn exp_of(fp: FloatParts) -> int {
    if fp.exp_neg {
        -(digits_val(fp.exp_digits) as int)
    } else {
        digits_val(fp.exp_digits) as int
    }
}

/// The nanoseconds encoded by decimal number text, with `scale` extra decimal
/// places applied (nine when the text is in seconds, six when it is in
/// milliseconds), truncated toward zero and saturated to the signed 64-bit
/// range; `None` when the text is not a decimal number.
pub open spec fn float_text_ns(s: Seq<char>, scale: nat) -> Option<i64> {
    match parse_float_text(s) {
        None => None,
        Some(fp) => Some(
            apply_sign_sat(
                fp.neg,
                ns_mag(
                    fp.int_digits + fp.frac_digits,
                    fp.int_digits.len() + exp_of(fp) + scale,
                ),
            ),
        ),
    }
}

/// A digit run stays within the sequence.
proof fn lemma_digit_run_len(s: Seq<char>, i: nat)
    requires
        i <= s.len(),
    ensures
        i + digit_run(s, i) <= s.len(),
    decreases s.len() - i,
{
    if i < s.len() && is_digit(s[i as int]) {
        lemma_digit_run_len(s, i + 1);
    }
}

/// Every character of a digit run is a digit.
proof fn lemma_digit_run_digits(s: Seq<char>, i: nat)
    requires
        i <= s.len(),
    ensures
        forall|j: int| i <= j < i + digit_run(s, i) ==> is_digit(#[trigger] s[j]),
    decreases s.len() - i,
{
    if i < s.len() && is_digit(s[i as int]) {
        lemma_digit_run_digits(s, i + 1);
    }
}

/// Without a positive shift there is no magnitude.
proof fn lemma_ns_mag_nonpos(ds: Seq<char>, p: int)
    requires
        p <= 0,
    ensures
        ns_mag(ds, p) == 0,
{
}

/// Leading zero digits shorten the shift without changing the magnitude.
proof fn lemma_ns_mag_strip(ds: Seq<char>, p: int, z: nat)
    requires
        z <= ds.len(),
        forall|j: int| 0 <= j < z ==> digit_val(#[trigger] ds[j]) == 0,
    ensures
        ns_mag(ds, p) == ns_mag(ds.skip(z as int), p - z),
    decreases z,
{
    if z > 0 {
        assert(digit_val(ds[0]) == 0);
        lemma_ns_mag_leading_zero(ds, p);
        assert(ds.drop_first() =~= ds.skip(1));
        assert forall|j: int| 0 <= j < z - 1 implies digit_val(#[trigger] ds.skip(1)[j]) == 0 by {
            assert(ds.skip(1)[j] == ds[j + 1]);
        }
        lemma_ns_mag_strip(ds.skip(1), p - 1, (z - 1) as nat);
        assert(ds.skip(1).skip(z as int - 1) =~= ds.skip(z as int));
    } else {
        assert(ds.skip(0) =~= ds);
    }
}

/// The position of the first nonzero digit, or the length when there is none.
proof fn find_nonzero(ds: Seq<char>) -> (z: nat)
    ensures
        z <= ds.len(),
        forall|j: int| 0 <= j < z ==> digit_val(#[trigger] ds[j]) == 0,
        z < ds.len() ==> digit_val(ds[z as int]) >= 1,
    decreases ds.len(),
{
    if ds.len() == 0 {
        0
    } else if digit_val(ds[0]) >= 1 {
        0
    } else {
        let z0 = find_nonzero(ds.drop_first());
        assert forall|j: int| 0 <= j < z0 + 1 implies digit_val(#[trigger] ds[j]) == 0 by {
            if j >= 1 {
                assert(ds[j] == ds.drop_first()[j - 1]);
            }
        }
        if z0 + 1 < ds.len() {
            assert(ds[z0 as int + 1] == ds.drop_first()[z0 as int]);
        }
        z0 + 1
    }
}

/// For two shifts both far beyond the digits, the magnitude saturates the same
/// way: it is zero when all digits are zero, and at least the saturation bound
/// otherwise.
proof fn lemma_ns_mag_far_shift(ds: Seq<char>, p1: int, p2: int)
    requires
        all_digits(ds),
        p1 >= ds.len() + 20,
        p2 >= ds.len() + 20,
    ensures
        ns_mag(ds, p1) == 0 <==> ns_mag(ds, p2) == 0,
        ns_mag(ds, p1) >= NS_SAT <==> ns_mag(ds, p2) >= NS_SAT,
        ns_mag(ds, p1) == 0 || ns_mag(ds, p1) >= NS_SAT,
{
    let z = find_nonzero(ds);
    lemma_ns_mag_strip(ds, p1, z);
    lemma_ns_mag_strip(ds, p2, z);
    if z == ds.len() {
        assert(ds.skip(z as int).len() == 0);
    } else {
        let t = ds.skip(z as int);
        assert(forall|j: int| 0 <= j < t.len() ==> t[j] == ds[j + z]);
        lemma_ns_mag_saturates(t, p1 - z);
        lemma_ns_mag_saturates(t, p2 - z);
    }
}

/// Whether a character is a decimal digit.
fn is_digit_exec(c: char) -> (b: bool)
    ensures
        b == is_digit(c),
{
    let u = c as u32;
    48 <= u && u <= 57
}

/// The length of the run of decimal digits starting at position `i`.
fn digit_run_exec(v: &Vec<char>, i: usize) -> (r: usize)
    requires
        i <= v@.len(),
    ensures
        r as nat == digit_run(v@, i as nat),
        i + r <= v@.len(),
{
    let n = v.len();
    let mut k: usize = 0;
    while i + k < n && v[i + k] as u32 >= 48 && v[i + k] as u32 <= 57
        invariant
            n == v@.len(),
            i + k <= n,
            digit_run(v@, i as nat) == k + digit_run(v@, (i + k) as nat),
        decreases n - i - k,
    {
        proof {
            assert(is_digit(v@[i + k]));
            assert(digit_run(v@, (i + k) as nat) == 1 + digit_run(v@, (i + k + 1) as nat));
        }
        k += 1;
    }
    proof {
        if i + k < n {
            assert(!is_digit(v@[i + k]));
        }
        assert(digit_run(v@, (i + k) as nat) == 0);
    }
    k
}

/// One decimal digit as its value.
fn digit_val_exec(c: char) -> (d: u64)
    requires
        is_digit(c),
    ensures
        d as nat == digit_val(c),
{
    (c as u32 - 48) as u64
}

/// The integer part of `0.ds * 10^p`, saturated to `NS_SAT`: the result `r`
/// equals the true magnitude when that is below `NS_SAT`, and `NS_SAT` itself
/// otherwise.
pub fn ns_mag_sat(ds: &Vec<char>, p: i128) -> (r: u64)
    requires
        all_digits(ds@),
        -100000000000000000000000000000000000i128 <= p
            <= 100000000000000000000000000000000000i128,
    ensures
        ns_mag(ds@, p as int) < NS_SAT ==> r as nat == ns_mag(ds@, p as int),
        ns_mag(ds@, p as int) >= NS_SAT ==> r == NS_SAT,
{
    let n = ds.len();
    // Strip leading zero digits, shortening the shift alongside.
    let mut idx: usize = 0;
    let mut q: i128 = p;
    proof {
        assert(ds@.skip(0) =~= ds@);
    }
    while idx < n && ds[idx] as u32 == 48
        invariant
            n == ds@.len(),
            all_digits(ds@),
            idx <= n,
            q == p - idx,
            -100000000000000000000000000000000000i128 <= p
                <= 100000000000000000000000000000000000i128,
            ns_mag(ds@.skip(idx as int), q as int) == ns_mag(ds@, p as int),
        decreases n - idx,
    {
        proof {
            let tail = ds@.skip(idx as int);
            assert(tail[0] == ds@[idx as int]);
            lemma_ns_mag_leading_zero(tail, q as int);
            assert(tail.drop_first() =~= ds@.skip(idx as int + 1));
        }
        idx += 1;
        q -= 1;
    }
    let ghost tail = ds@.skip(idx as int);
    if idx == n {
        proof {
            assert(tail.len() == 0);
            assert(ns_mag(tail, q as int) == 0);
        }
        return 0;
    }
    proof {
        assert(tail[0] == ds@[idx as int]);
        assert(is_digit(ds@[idx as int]));
        assert(digit_val(tail[0]) >= 1);
    }
    if q <= 0 {
        proof {
            assert(ns_mag(tail, q as int) == 0);
        }
        return 0;
    }
    if q > 19 {
        proof {
            assert(forall|i: int| 0 <= i < tail.len() ==> is_digit(#[trigger] tail[i]));
            lemma_ns_mag_saturates(tail, q as int);
        }
        return NS_SAT;
    }
    // Now 1 <= q <= 19: accumulate the first q digit positions.
    let t = q as usize;
    let mut acc: u64 = 0;
    let mut j: usize = 0;
    while j < t
        invariant
            n == ds@.len(),
            all_digits(ds@),
            idx < n,
            tail == ds@.skip(idx as int),
            1 <= t <= 19,
            j <= t,
            acc as nat == ns_mag(tail, j as int),
            acc < pow10(j as nat),
        decreases t - j,
    {
        let d: u64 = if j < n - idx {
            proof {
                assert(tail[j as int] == ds@[idx + j]);
            }
            digit_val_exec(ds[idx + j])
        } else {
            0
        };
        proof {
            lemma_ns_mag_step(tail, j as nat);
            assert(d as nat == digit_at(tail, j as int));
            lemma_pow10_mono(j as nat, 18);
            assert(pow10(18) == 1000000000000000000) by {
                reveal_with_fuel(pow10, 19);
            }
            assert((acc as nat) * 10 + (d as nat) < pow10((j + 1) as nat)) by (nonlinear_arith)
                requires
                    (acc as nat) < pow10(j as nat),
                    d as nat <= 9,
                    pow10((j + 1) as nat) == 10 * pow10(j as nat),
            ;
        }
        acc = acc * 10 + d;
        j += 1;
    }
    proof {
        assert(ns_mag(tail, t as int) == ns_mag(tail, q as int));
        lemma_pow10_mono(t as nat, 19);
        assert(pow10(19) == 10000000000000000000) by {
            reveal_with_fuel(pow10, 20);
        }
    }
    if acc >= NS_SAT {
        NS_SAT
    } else {
        acc
    }
}

/// The saturation cap for a parsed exponent: far beyond any decimal place a
/// digit sequence held in memory can reach.
pub const EXP_CAP: u128 = 1000000000000000000000000000000;

/// Nanoseconds from decimal number text, with `scale` extra decimal places
/// applied: exactly `float_text_ns` of the text.
#[verifier::rlimit(100)]
pub fn ns_from_decimal_str(s: &str, scale: u64) -> (r: Option<i64>)
    requires
        scale <= 9,
    ensures
        r == float_text_ns(s@, scale as nat),
{
    let v = text::str_chars(s);
    let n = v.len();
    let has_sign = n > 0 && (v[0] == '-' || v[0] == '+');
    let neg = n > 0 && v[0] == '-';
    let i1: usize = if has_sign {
        1
    } else {
        0
    };
    let ni = digit_run_exec(&v, i1);
    let ai = i1 + ni;
    let has_dot = ai < n && v[ai] == '.';
    let fi: usize = if has_dot {
        ai + 1
    } else {
        ai
    };
    let nf: usize = if has_dot {
        digit_run_exec(&v, ai + 1)
    } else {
        0
    };
    let af = fi + nf;
    if ni + nf == 0 {
        return None;
    }
    // The exponent, saturated at a cap no digit position can reach.
    let mut exp_neg: bool = false;
    let mut acc: u128 = 0;
    let ghost mut eds: Seq<char> = Seq::empty();
    if af < n {
        if !(v[af] == 'e' || v[af] == 'E') {
            return None;
        }
        let has_esign = af + 1 < n && (v[af + 1] == '-' || v[af + 1] == '+');
        exp_neg = af + 1 < n && v[af + 1] == '-';
        let ei: usize = if has_esign {
            af + 2
        } else {
            af + 1
        };
        let ne = digit_run_exec(&v, ei);
        if !(ne > 0 && ei + ne == n) {
            return None;
        }
        proof {
            eds = s@.subrange(ei as int, (ei + ne) as int);
            lemma_digit_run_digits(s@, ei as nat);
        }
        let mut j: usize = 0;
        while j < ne
            invariant
                n == v@.len(),
                v@ == s@,
                ei + ne <= n,
                ne as nat == digit_run(s@, ei as nat),
                eds == s@.subrange(ei as int, (ei + ne) as int),
                j <= ne,
                forall|x: int| ei <= x < ei + digit_run(s@, ei as nat) ==> is_digit(#[trigger] s@[x]),
                acc <= EXP_CAP,
                (acc as nat == digits_val(eds.take(j as int)) && acc < EXP_CAP) || (acc == EXP_CAP
                    && digits_val(eds.take(j as int)) >= EXP_CAP),
            decreases ne - j,
        {
            proof {
                assert(eds[j as int] == s@[ei + j]);
                assert(is_digit(s@[ei + j]));
                assert(eds.take(j as int + 1).drop_last() =~= eds.take(j as int));
                assert(eds.take(j as int + 1).last() == eds[j as int]);
            }
            let d = digit_val_exec(v[ei + j]);
            acc = acc * 10 + d as u128;
            if acc > EXP_CAP {
                acc = EXP_CAP;
            }
            j += 1;
        }
        proof {
            assert(eds.take(ne as int) =~= eds);
        }
    }
    let ghost fp = parse_float_text(s@).unwrap();
    proof {
        lemma_digit_run_digits(s@, i1 as nat);
        if has_dot {
            lemma_digit_run_digits(s@, (ai + 1) as nat);
        }
        assert(fp.neg == neg);
        assert(fp.int_digits == s@.subrange(i1 as int, ai as int));
        assert(fp.frac_digits == s@.subrange(fi as int, af as int));
        assert(fp.exp_neg == exp_neg);
        assert(fp.exp_digits == eds);
    }
    // The digits of the number, integer part then fraction.
    let mut ds: Vec<char> = Vec::new();
    text::push_range(&mut ds, &v, i1, ai);
    text::push_range(&mut ds, &v, fi, af);
    proof {
        assert(ds@ =~= fp.int_digits + fp.frac_digits);
        assert forall|x: int| 0 <= x < ds@.len() implies is_digit(#[trigger] ds@[x]) by {
            if x < fp.int_digits.len() {
                assert(ds@[x] == s@[i1 + x]);
            } else {
                assert(ds@[x] == s@[fi + (x - fp.int_digits.len())]);
            }
        }
    }
    let p: i128 = ni as i128 + scale as i128 + (if exp_neg {
        -(acc as i128)
    } else {
        acc as i128
    });
    let ghost p_true: int = fp.int_digits.len() + exp_of(fp) + scale as nat;
    let ghost mag_true: nat = ns_mag(ds@, p_true);
    let r0 = ns_mag_sat(&ds, p);
    proof {
        if acc as nat == digits_val(eds) {
            assert(p as int == p_true);
        } else {
            assert(acc == EXP_CAP && digits_val(eds) >= EXP_CAP);
            if exp_neg {
                assert(p < 0);
                assert(p_true < 0);
                lemma_ns_mag_nonpos(ds@, p as int);
                lemma_ns_mag_nonpos(ds@, p_true);
            } else {
                assert(p >= ds@.len() + 20);
                assert(p_true >= ds@.len() + 20);
                lemma_ns_mag_far_shift(ds@, p as int, p_true);
            }
        }
        assert(r0 < NS_SAT ==> r0 as nat == mag_true);
        assert(r0 == NS_SAT ==> mag_true >= NS_SAT);
        assert(r0 <= NS_SAT);
    }
    let val: i64 = if neg {
        if r0 >= NS_SAT {
            i64::MIN
        } else {
            0i64 - (r0 as i64)
        }
    } else {
        if r0 >= NS_SAT {
            i64::MAX
        } else {
            r0 as i64
        }
    };
    proof {
        assert(val == apply_sign_sat(fp.neg, mag_true));
    }
    Some(val)
}

} // verus!
