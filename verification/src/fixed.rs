//! Decimal fixed-point arithmetic: amplitudes, times and coefficients are
//! `i64` values counting millionths of a unit.

use vstd::prelude::*;

verus! {

/// The fixed-point unit: `FX_ONE` millionths stand for `1.0`.
pub const FX_ONE: i64 = 1_000_000;

/// Magnitude (absolute value) of a mathematical integer.
pub open spec fn mag(a: int) -> int {
    if a >= 0 {
        a
    } else {
        -a
    }
}

/// Truncating (round-toward-zero) integer division, the rounding used for
/// every fixed-point division in this crate.
pub open spec fn div_tz(a: int, b: int) -> int {
    if a >= 0 {
        a / b
    } else {
        -((-a) / b)
    }
}

/// The magnitude of a truncating quotient is exactly the magnitude of the
/// dividend, divided (flooring) by the divisor.
pub proof fn lemma_div_tz_mag(a: int, b: int)
    requires
        b > 0,
    ensures
        mag(div_tz(a, b)) == mag(a) / b,
        a >= 0 ==> div_tz(a, b) >= 0,
        a < 0 ==> div_tz(a, b) <= 0,
{
    if a >= 0 {
        vstd::arithmetic::div_mod::lemma_div_pos_is_pos(a, b);
    } else {
        vstd::arithmetic::div_mod::lemma_div_pos_is_pos(-a, b);
    }
}

/// A truncating quotient never grows in magnitude.
pub proof fn lemma_div_tz_bounds(a: int, b: int)
    requires
        b > 0,
    ensures
        mag(div_tz(a, b)) <= mag(a),
        a >= 0 ==> 0 <= div_tz(a, b) <= a,
        a < 0 ==> a <= div_tz(a, b) <= 0,
{
    lemma_div_tz_mag(a, b);
    vstd::arithmetic::div_mod::lemma_div_nonincreasing(mag(a), b);
}

/// Flooring division by a positive divisor is monotone in the dividend.
pub proof fn lemma_div_le(x: int, y: int, d: int)
    requires
        x <= y,
        d > 0,
    ensures
        x / d <= y / d,
{
    vstd::arithmetic::div_mod::lemma_div_is_ordered(x, y, d);
}

/// Scaling by a factor of `w/d` with `0 <= w <= d` never grows a value's
/// magnitude, and more precisely stays below `(m * w) / d` whenever
/// `mag(a) <= m`.
pub proof fn lemma_scale_mag(a: int, w: int, m: int, d: int)
    requires
        d > 0,
        0 <= w,
        mag(a) <= m,
    ensures
        mag(div_tz(a * w, d)) <= (m * w) / d,
        w <= d ==> mag(div_tz(a * w, d)) <= m,
{
    lemma_div_tz_mag(a * w, d);
    assert(mag(a * w) == mag(a) * w) by (nonlinear_arith)
        requires
            0 <= w,
    ;
    assert(mag(a) * w <= m * w) by (nonlinear_arith)
        requires
            0 <= w,
            mag(a) <= m,
    ;
    lemma_div_le(mag(a * w), m * w, d);
    if w <= d {
        assert(m * w <= d * m) by (nonlinear_arith)
            requires
                w <= d,
                0 <= m,
        ;
        vstd::arithmetic::div_mod::lemma_div_multiples_vanish(m, d);
        lemma_div_le(m * w, d * m, d);
    }
}

/// A convex combination `(alpha * x + (d - alpha) * y) / d` of two values
/// stays within the larger of their magnitudes.
pub proof fn lemma_convex_bound(x: int, y: int, alpha: int, m: int, d: int)
    requires
        d > 0,
        0 <= alpha <= d,
        mag(x) <= m,
        mag(y) <= m,
    ensures
        mag(div_tz(alpha * x + (d - alpha) * y, d)) <= m,
{
    let s = alpha * x + (d - alpha) * y;
    assert(mag(s) <= d * m) by (nonlinear_arith)
        requires
            0 <= alpha <= d,
            mag(x) <= m,
            mag(y) <= m,
            s == alpha * x + (d - alpha) * y,
    ;
    lemma_div_tz_mag(s, d);
    lemma_div_le(mag(s), d * m, d);
    vstd::arithmetic::div_mod::lemma_div_multiples_vanish(m, d);
}

/// Truncating division of a fixed-point value by a positive divisor.
pub fn fx_div(a: i64, b: i64) -> (q: i64)
    requires
        b > 0,
        a > i64::MIN,
    ensures
        q == div_tz(a as int, b as int),
{
    proof {
        lemma_div_tz_bounds(a as int, b as int);
    }
    if a >= 0 {
        a / b
    } else {
        -((-a) / b)
    }
}

/// Fixed-point multiply-then-divide: `(a * b) / d`, truncating.
pub fn fx_mul_div(a: i64, b: i64, d: i64) -> (q: i64)
    requires
        d > 0,
        i64::MIN < a * b <= i64::MAX,
    ensures
        q == div_tz(a * b, d as int),
{
    proof {
        lemma_div_tz_bounds(a * b, d as int);
    }
    let p: i64 = a * b;
    fx_div(p, d)
}

/// Clamp a value into the inclusive range `[lo, hi]`.
pub fn fx_clamp(a: i64, lo: i64, hi: i64) -> (r: i64)
    requires
        lo <= hi,
    ensures
        r == spec_clamp(a as int, lo as int, hi as int),
{
    if a < lo {
        lo
    } else if a > hi {
        hi
    } else {
        a
    }
}

/// The mathematical clamp of `a` into `[lo, hi]`.
pub open spec fn spec_clamp(a: int, lo: int, hi: int) -> int {
    if a < lo {
        lo
    } else if a > hi {
        hi
    } else {
        a
    }
}

/// Magnitude of an `i64`, as executable code (the argument must not be
/// `i64::MIN`, whose magnitude does not fit the type).
pub fn fx_mag(a: i64) -> (r: i64)
    requires
        a > i64::MIN,
    ensures
        r == mag(a as int),
{
    if a >= 0 {
        a
    } else {
        -a
    }
}

} // verus!
