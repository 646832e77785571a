//! Numbers in the source text: decimal `i64` literals, read here, and
//! floating-point literals, read by `nom`.
use vstd::prelude::*;
use crate::text::{chars_of, string_of, is_digit, digit_end, digits_value, digits_run_end, lemma_digit_end_bounds,
    lemma_digits_nonneg, lemma_digits_grow};

verus! {

/// Whether `t` starts with the three letters `lo`, each in either case.
pub open spec fn starts_ci(t: Seq<char>, lo: Seq<char>, up: Seq<char>) -> bool {
    t.len() >= 3 && forall|k: int| 0 <= k < 3 ==> (t[k] == lo[k] || t[k] == up[k])
}

/// The length of the floating-point literal at the start of `t`, as
/// `nom`'s `double` recognizes it: an optional sign; digits, optionally
/// followed by `.` and optional digits, or `.` and digits; then, optionally,
/// `e` or `E`, an optional sign and digits. Where no such literal starts
/// `t`, `nan` or `inf` in any case. `Err(true)` where an exponent marker
/// has no digits after it (`nom` gives up there), `Err(false)` where no
/// literal starts `t`.
pub open spec fn float_len(t: Seq<char>) -> Result<int, bool> {
    let a: int = if 0 < t.len() && (t[0] == '+' || t[0] == '-') { 1 } else { 0 };
    let d = digit_end(t, a);
    let m: int = if d > a {
        if d < t.len() && t[d] == '.' { digit_end(t, d + 1) } else { d }
    } else if a < t.len() && t[a] == '.' && digit_end(t, a + 1) > a + 1 {
        digit_end(t, a + 1)
    } else {
        -1
    };
    if m < 0 {
        if starts_ci(t, "nan"@, "NAN"@) || starts_ci(t, "inf"@, "INF"@) { Ok(3) } else { Err(false) }
    } else if m < t.len() && (t[m] == 'e' || t[m] == 'E') {
        let b: int = if m + 1 < t.len() && (t[m + 1] == '+' || t[m + 1] == '-') { m + 2 } else { m + 1 };
        if digit_end(t, b) > b { Ok(digit_end(t, b)) } else { Err(true) }
    } else {
        Ok(m)
    }
}

/// A literal that `float_len` finds is not empty and lies within `t`.
pub proof fn lemma_float_len_bounds(t: Seq<char>)
    ensures
        float_len(t) matches Ok(n) ==> 0 < n <= t.len(),
{
    let a: int = if 0 < t.len() && (t[0] == '+' || t[0] == '-') { 1 } else { 0 };
    lemma_digit_end_bounds(t, a);
    let d = digit_end(t, a);
    if d < t.len() {
        lemma_digit_end_bounds(t, d + 1);
    }
    if a < t.len() {
        lemma_digit_end_bounds(t, a + 1);
    }
    let m: int = if d > a {
        if d < t.len() && t[d] == '.' { digit_end(t, d + 1) } else { d }
    } else if a < t.len() && t[a] == '.' && digit_end(t, a + 1) > a + 1 {
        digit_end(t, a + 1)
    } else {
        -1
    };
    if 0 <= m < t.len() {
        if m + 1 <= t.len() {
            lemma_digit_end_bounds(t, m + 1);
        }
        if m + 2 <= t.len() {
            lemma_digit_end_bounds(t, m + 2);
        }
    }
}

/// The IEEE-754 bits of the value of the floating-point literal that
/// `nom::number::complete::double` reads at the start of `input`.
pub uninterp spec fn nom_double_bits(input: Seq<char>) -> u64;

/// Calls `nom::number::complete::double` (nom 7.1.3) on `input`. Claimed,
/// as the source shows: it reads the literal whose length `float_len`
/// gives, and fails as `float_len` says (with `nom::Err::Failure` for
/// `Err(true)`); the text read always parses as an `f64` (std documents
/// that grammar), whose bits are `nom_double_bits(input@)`.
#[verifier::external_body]
fn scan_double(input: &str) -> (r: Result<(String, u64), bool>)
    ensures
        match float_len(input@) {
            Ok(n) => r matches Ok((t, b)) && t@ == input@.skip(n) && b == nom_double_bits(input@),
            Err(f) => r == Err::<(String, u64), bool>(f),
        },
{
    match nom::number::complete::double::<&str, nom::error::Error<&str>>(input) {
        Ok((rest, value)) => Ok((rest.to_string(), value.to_bits())),
        Err(nom::Err::Failure(_)) => Err(true),
        Err(_) => Err(false),
    }
}

/// Reads a floating-point literal at `p`: `Ok((bits, q))` with `q` after
/// the literal, or what `float_len` reports.
pub fn double_at(s: &Vec<char>, p: usize) -> (r: Result<(u64, usize), bool>)
    requires
        p <= s.len(),
    ensures
        match float_len(s@.skip(p as int)) {
            Ok(n) => r matches Ok((b, q)) && b == nom_double_bits(s@.skip(p as int)) && q == p + n,
            Err(f) => r == Err::<(u64, usize), bool>(f),
        },
        r matches Ok((_, q)) ==> p < q <= s.len(),
{
    let tail = string_of(s, p, s.len());
    assert(tail@ =~= s@.skip(p as int));
    proof { lemma_float_len_bounds(tail@); }
    match scan_double(tail.as_str()) {
        Ok((rest, bits)) => {
            let rc = chars_of(rest.as_str());
            Ok((bits, s.len() - rc.len()))
        },
        Err(f) => Err(f),
    }
}

/// A decimal `i64` with an optional `-` or `+` at `p`, as `nom`'s `i64`
/// reads it: the value and the position after the digits; `None` where no
/// digit follows the sign or the value does not fit in an `i64`.
pub open spec fn i64_literal(s: Seq<char>, p: int) -> Option<(i64, int)> {
    if p < 0 || p > s.len() {
        None
    } else {
        let neg = p < s.len() && s[p] == '-';
        let signed = neg || (p < s.len() && s[p] == '+');
        let q = if signed { p + 1 } else { p };
        let e = digit_end(s, q);
        if q >= s.len() || e == q {
            None
        } else {
            let v = digits_value(s.subrange(q, e));
            let val = if neg { -v } else { v };
            if i64::MIN <= val <= i64::MAX {
                Some((val as i64, e))
            } else {
                None
            }
        }
    }
}

/// Reads a decimal `i64` with an optional sign at `p`.
pub fn i64_at(s: &Vec<char>, p: usize) -> (r: Option<(i64, usize)>)
    requires
        p <= s.len(),
    ensures
        match i64_literal(s@, p as int) {
            Some((v, q)) => r matches Some((v2, q2)) && v2 == v && q2 == q,
            None => r is None,
        },
        r matches Some((_, q)) ==> p < q <= s.len(),
{
    let neg = p < s.len() && s[p] == '-';
    let signed = neg || (p < s.len() && s[p] == '+');
    let q = if signed { p + 1 } else { p };
    if q >= s.len() {
        return None;
    }
    let e = digits_run_end(s, q);
    proof { lemma_digit_end_bounds(s@, q as int); }
    if e == q {
        return None;
    }
    let mut v: i64 = 0;
    let mut i = q;
    while i < e
        invariant
            q <= i <= e <= s.len(),
            p <= s.len(),
            q < s.len(),
            e == digit_end(s@, q as int),
            q != e,
            neg == (p < s.len() && s@[p as int] == '-'),
            signed == (neg || (p < s.len() && s@[p as int] == '+')),
            q == if signed { p + 1 } else { p as int },
            forall|m: int| q <= m < e ==> is_digit(#[trigger] s@[m]),
            neg ==> v == -digits_value(s@.subrange(q as int, i as int)),
            !neg ==> v == digits_value(s@.subrange(q as int, i as int)),
        decreases e - i,
    {
        assert(is_digit(s@[i as int]));
        let d: i64 = (s[i] as u32 - '0' as u32) as i64;
        let ghost w = s@.subrange(q as int, e as int);
        let ghost pre = s@.subrange(q as int, i + 1);
        assert(pre.drop_last() =~= s@.subrange(q as int, i as int));
        assert(pre =~= w.subrange(0, pre.len() as int));
        proof { lemma_digits_nonneg(s@.subrange(q as int, i as int)); }
        if neg {
            if v < (i64::MIN + d) / 10 {
                proof {
                    assert(10 * v - d < i64::MIN);
                    assert(digits_value(pre) == 10 * digits_value(s@.subrange(q as int, i as int)) + d);
                    lemma_digits_grow(pre, w);
                    assert(-digits_value(w) < i64::MIN);
                }
                return None;
            }
            v = v * 10 - d;
        } else {
            if v > (i64::MAX - d) / 10 {
                proof {
                    assert(10 * v + d > i64::MAX);
                    assert(digits_value(pre) == 10 * digits_value(s@.subrange(q as int, i as int)) + d);
                    lemma_digits_grow(pre, w);
                    assert(digits_value(w) > i64::MAX);
                }
                return None;
            }
            v = v * 10 + d;
        }
        i = i + 1;
    }
    Some((v, e))
}

} // verus!
