//! Integer division as machine integers do it: rounded toward zero.
use vstd::prelude::*;
use vstd::arithmetic::div_mod::{lemma_fundamental_div_mod, lemma_mod_pos_bound};
use vstd::arithmetic::mul::{lemma_mul_is_commutative, lemma_mul_unary_negation};

verus! {

/// The quotient of `a` by `b`, rounded toward zero (what `/` gives on machine
/// integers).
pub open spec fn trunc_div(a: int, b: int) -> int {
    if b > 0 {
        if a >= 0 { a / b } else { -((-a) / b) }
    } else {
        -(if a >= 0 { a / (-b) } else { -((-a) / (-b)) })
    }
}

proof fn lemma_div_le(x: int, d: int)
    requires
        0 <= x,
        1 <= d,
    ensures
        0 <= x / d <= x,
        d >= 2 ==> x / d < x || x == 0,
{
    assert(0 <= x / d <= x) by (nonlinear_arith)
        requires
            0 <= x,
            1 <= d,
    ;
    assert(d >= 2 ==> x / d < x || x == 0) by (nonlinear_arith)
        requires
            0 <= x,
            1 <= d,
    ;
}

/// What is left of `x` after taking out `x / d` times `d`: the remainder,
/// from 0 up to `d`.
proof fn lemma_div_parts(x: int, d: int)
    requires
        0 <= x,
        0 < d,
    ensures
        0 <= x - (x / d) * d < d,
{
    lemma_fundamental_div_mod(x, d);
    lemma_mod_pos_bound(x, d);
    lemma_mul_is_commutative(d, x / d);
}

/// Division rounded toward zero leaves a remainder `a - trunc_div(a, b) * b`
/// that has the sign of the dividend `a` and is smaller in size than the
/// divisor `b`: this decides the quotient, which is thus the one that
/// machine integers give.
pub proof fn lemma_trunc_div_remainder(a: int, b: int)
    requires
        b != 0,
    ensures
        a >= 0 ==> 0 <= a - trunc_div(a, b) * b < (if b > 0 { b } else { -b }),
        a < 0 ==> -(if b > 0 { b } else { -b }) < a - trunc_div(a, b) * b <= 0,
{
    let q = trunc_div(a, b);
    if b > 0 {
        if a >= 0 {
            lemma_div_parts(a, b);
        } else {
            lemma_div_parts(-a, b);
            lemma_mul_unary_negation((-a) / b, b);
        }
    } else {
        if a >= 0 {
            lemma_div_parts(a, -b);
            lemma_mul_unary_negation(a / (-b), b);
            lemma_mul_unary_negation(a / (-b), -b);
        } else {
            lemma_div_parts(-a, -b);
            lemma_mul_unary_negation((-a) / (-b), b);
        }
    }
}

/// `a / b` on `i32`, rounded toward zero.
pub fn quotient_i32(a: i32, b: i32) -> (q: i32)
    requires
        b != 0,
        !(a == i32::MIN && b == -1),
    ensures
        q == trunc_div(a as int, b as int),
{
    if b > 0 {
        a / b
    } else if b == i32::MIN {
        if a == i32::MIN { 1 } else { 0 }
    } else {
        let nb: i32 = -b;
        let q = a / nb;
        proof {
            if a >= 0 {
                lemma_div_le(a as int, nb as int);
            } else {
                lemma_div_le(-(a as int), nb as int);
            }
        }
        -q
    }
}

/// `a / b` on `i64`, rounded toward zero.
pub fn quotient_i64(a: i64, b: i64) -> (q: i64)
    requires
        b != 0,
        !(a == i64::MIN && b == -1),
    ensures
        q == trunc_div(a as int, b as int),
{
    if b > 0 {
        a / b
    } else if b == i64::MIN {
        if a == i64::MIN { 1 } else { 0 }
    } else {
        let nb: i64 = -b;
        let q = a / nb;
        proof {
            if a >= 0 {
                lemma_div_le(a as int, nb as int);
            } else {
                lemma_div_le(-(a as int), nb as int);
            }
        }
        -q
    }
}

} // verus!
