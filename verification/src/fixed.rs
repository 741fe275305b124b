//! Fixed-point arithmetic helpers: clamping and truncating division.
//!
//! The simulation stores all physical quantities as scaled `i64` values and
//! divides them by positive divisors (a neighbor count, a damping divisor, a
//! resolution constant). Division rounds toward zero, the way hardware signed
//! division does; the spec-level `/` on `int` is Euclidean, so the truncating
//! form is defined here once and used by every contract.

use vstd::arithmetic::div_mod::{
    lemma_div_is_ordered, lemma_div_multiples_vanish, lemma_div_pos_is_pos,
};
use vstd::prelude::*;

verus! {

/// Truncating integer division (rounds toward zero) for a positive divisor.
pub open spec fn trunc_div(a: int, b: int) -> int
    recommends
        b > 0,
{
    if a >= 0 {
        a / b
    } else {
        -((-a) / b)
    }
}

/// The value `v` clamped into the interval `[lo, hi]`.
pub open spec fn clamped(v: int, lo: int, hi: int) -> int
    recommends
        lo <= hi,
{
    if v < lo {
        lo
    } else if v > hi {
        hi
    } else {
        v
    }
}

/// A quotient with positive divisor is no larger in magnitude than any `m`
/// with `|a| <= b * m`.
pub proof fn lemma_trunc_div_bound(a: int, b: int, m: int)
    requires
        b > 0,
        m >= 0,
        -(b * m) <= a <= b * m,
    ensures
        -m <= trunc_div(a, b) <= m,
{
    if a >= 0 {
        lemma_div_pos_is_pos(a, b);
        lemma_div_is_ordered(a, b * m, b);
        lemma_div_multiples_vanish(m, b);
    } else {
        lemma_div_pos_is_pos(-a, b);
        lemma_div_is_ordered(-a, b * m, b);
        lemma_div_multiples_vanish(m, b);
    }
}

/// Clamp a machine integer into `[lo, hi]`.
pub fn clamp_i64(v: i64, lo: i64, hi: i64) -> (r: i64)
    requires
        lo <= hi,
    ensures
        r == clamped(v as int, lo as int, hi as int),
{
    if v < lo {
        lo
    } else if v > hi {
        hi
    } else {
        v
    }
}

/// Truncating division on machine integers; the divisor must be positive.
pub fn trunc_div_i64(a: i64, b: i64) -> (r: i64)
    requires
        b > 0,
        a > i64::MIN,
    ensures
        r == trunc_div(a as int, b as int),
{
    if a >= 0 {
        let q = (a as u64) / (b as u64);
        proof {
            lemma_div_pos_is_pos(a as int, b as int);
            lemma_div_nonincreasing_nonneg(a as int, b as int);
        }
        q as i64
    } else {
        let m = -a;
        let q = (m as u64) / (b as u64);
        proof {
            lemma_div_pos_is_pos(m as int, b as int);
            lemma_div_nonincreasing_nonneg(m as int, b as int);
        }
        -(q as i64)
    }
}

/// For `x >= 0` and `d >= 1`, the quotient `x / d` is at most `x`.
proof fn lemma_div_nonincreasing_nonneg(x: int, d: int)
    requires
        x >= 0,
        d >= 1,
    ensures
        x / d <= x,
{
    lemma_div_pos_is_pos(x, d);
    assert(x <= x * d) by (nonlinear_arith)
        requires
            x >= 0,
            d >= 1,
    ;
    lemma_div_is_ordered(x, x * d, d);
    lemma_div_multiples_vanish(x, d);
}

} // verus!
