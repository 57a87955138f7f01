//! Signed fixed-point arithmetic with 32 fractional bits.
//!
//! A value `v: i64` stands for the real number `v / 2^32`. Every operation
//! rounds towards minus infinity and saturates at `±LIMIT` instead of
//! overflowing, so that no sequence of operations can panic or wrap.

use vstd::prelude::*;

verus! {

/// The fixed-point representation of `1.0`.
pub const ONE: i64 = 0x1_0000_0000;

/// The largest magnitude any fixed-point value takes.
pub const LIMIT: i64 = 0x7fff_ffff_ffff_ffff;

/// Clamps a mathematical integer into `[-LIMIT, LIMIT]`.
pub open spec fn saturate(x: int) -> int {
    if x > LIMIT {
        LIMIT as int
    } else if x < -LIMIT {
        -(LIMIT as int)
    } else {
        x
    }
}

/// The product of two fixed-point values: `floor(a * b / 2^32)`, saturated.
pub open spec fn spec_mul(a: int, b: int) -> int {
    saturate((a * b) / (ONE as int))
}

/// The quotient of two fixed-point values: `floor(a * 2^32 / b)`, saturated.
pub open spec fn spec_div(a: int, b: int) -> int
    recommends
        b > 0,
{
    saturate((a * ONE) / b)
}

/// The saturated sum of two fixed-point values.
pub open spec fn spec_add(a: int, b: int) -> int {
    saturate(a + b)
}

/// The saturated difference of two fixed-point values.
pub open spec fn spec_sub(a: int, b: int) -> int {
    saturate(a - b)
}

/// Clamps `x` into `[lo, hi]`.
pub open spec fn spec_clamp(x: int, lo: int, hi: int) -> int {
    if x < lo {
        lo
    } else if x > hi {
        hi
    } else {
        x
    }
}

/// Floor division of a wide intermediate by a positive divisor.
pub fn floor_div(p: i128, d: i128) -> (q: i128)
    requires
        d > 0,
        -0x4000_0000_0000_0000_0000_0000_0000_0000 <= p <= 0x4000_0000_0000_0000_0000_0000_0000_0000,
        d <= 0x4000_0000_0000_0000_0000_0000_0000_0000,
    ensures
        q == (p as int) / (d as int),
{
    if p >= 0 {
        p / d
    } else {
        let n: i128 = -p;
        proof {
            lemma_floor_of_negative(n as int, d as int);
        }
        -((n + (d - 1)) / d)
    }
}

/// The remainder of a wide intermediate by a positive divisor, in `[0, d)`.
pub fn floor_mod(p: i128, d: i128) -> (r: i128)
    requires
        d > 0,
        -0x4000_0000_0000_0000_0000_0000_0000_0000 <= p <= 0x4000_0000_0000_0000_0000_0000_0000_0000,
        d <= 0x1_0000_0000_0000_0000,
    ensures
        r == (p as int) % (d as int),
        0 <= r < d,
{
    let q = floor_div(p, d);
    proof {
        vstd::arithmetic::div_mod::lemma_fundamental_div_mod(p as int, d as int);
        vstd::arithmetic::div_mod::lemma_mod_bound(p as int, d as int);
    }
    p - d * q
}

/// Narrows a wide intermediate to a fixed-point value, saturating.
pub fn narrow(x: i128) -> (r: i64)
    ensures
        r == saturate(x as int),
{
    if x > LIMIT as i128 {
        LIMIT
    } else if x < -(LIMIT as i128) {
        -LIMIT
    } else {
        x as i64
    }
}

/// Multiplies two fixed-point values.
pub fn fx_mul(a: i64, b: i64) -> (r: i64)
    ensures
        r == spec_mul(a as int, b as int),
{
    proof {
        lemma_product_bounds(a as int, b as int, 0x8000_0000_0000_0000, 0x8000_0000_0000_0000);
    }
    let p: i128 = (a as i128) * (b as i128);
    narrow(floor_div(p, ONE as i128))
}

/// Divides a fixed-point value by a positive one.
pub fn fx_div(a: i64, b: i64) -> (r: i64)
    requires
        b > 0,
    ensures
        r == spec_div(a as int, b as int),
{
    proof {
        lemma_product_bounds(a as int, ONE as int, 0x8000_0000_0000_0000, 0x1_0000_0000);
    }
    let p: i128 = (a as i128) * (ONE as i128);
    narrow(floor_div(p, b as i128))
}

/// Divides the whole number `n` by a positive fixed-point value.
pub fn fx_div_whole(n: u32, b: i64) -> (r: i64)
    requires
        b > 0,
    ensures
        r == spec_div(n as int * ONE, b as int),
{
    proof {
        lemma_product_bounds(n as int, ONE as int, 0x1_0000_0000, 0x1_0000_0000);
    }
    let scaled: i128 = (n as i128) * (ONE as i128);
    proof {
        lemma_product_bounds(scaled as int, ONE as int, 0x1_0000_0000_0000_0000, 0x1_0000_0000);
    }
    let p: i128 = scaled * (ONE as i128);
    narrow(floor_div(p, b as i128))
}

/// Adds two fixed-point values.
pub fn fx_add(a: i64, b: i64) -> (r: i64)
    ensures
        r == spec_add(a as int, b as int),
{
    narrow(a as i128 + b as i128)
}

/// Subtracts one fixed-point value from another.
pub fn fx_sub(a: i64, b: i64) -> (r: i64)
    ensures
        r == spec_sub(a as int, b as int),
{
    narrow(a as i128 - b as i128)
}

/// Clamps `x` into `[lo, hi]`.
pub fn clamp(x: i64, lo: i64, hi: i64) -> (r: i64)
    ensures
        r == spec_clamp(x as int, lo as int, hi as int),
{
    if x < lo {
        lo
    } else if x > hi {
        hi
    } else {
        x
    }
}

/// The product of two bounded integers is bounded by the product of the bounds.
pub proof fn lemma_product_bounds(a: int, b: int, la: int, lb: int)
    by (nonlinear_arith)
    requires
        -la <= a <= la,
        -lb <= b <= lb,
    ensures
        -(la * lb) <= a * b <= la * lb,
{
}

/// Rounding a negative quotient up in magnitude is flooring it.
pub proof fn lemma_floor_of_negative(n: int, d: int)
    requires
        n > 0,
        d > 0,
    ensures
        -((n + d - 1) / d) == (-n) / d,
{
    let k = n / d;
    let r = n % d;
    vstd::arithmetic::div_mod::lemma_fundamental_div_mod(n, d);
    assert(n == d * k + r);
    if r == 0 {
        assert(n + d - 1 == d * k + (d - 1));
        vstd::arithmetic::div_mod::lemma_fundamental_div_mod_converse(n + d - 1, d, k, d - 1);
        assert(-n == d * (-k) + 0) by (nonlinear_arith)
            requires
                n == d * k + r,
                r == 0,
        ;
        vstd::arithmetic::div_mod::lemma_fundamental_div_mod_converse(-n, d, -k, 0);
    } else {
        assert(n + d - 1 == d * (k + 1) + (r - 1)) by (nonlinear_arith)
            requires
                n == d * k + r,
        ;
        vstd::arithmetic::div_mod::lemma_fundamental_div_mod_converse(n + d - 1, d, k + 1, r - 1);
        assert(-n == d * (-k - 1) + (d - r)) by (nonlinear_arith)
            requires
                n == d * k + r,
        ;
        vstd::arithmetic::div_mod::lemma_fundamental_div_mod_converse(-n, d, -k - 1, d - r);
    }
}

/// The product of two values in `[0, 1]` lies in `[0, 1]` and is no larger
/// than either factor.
pub proof fn lemma_mul_unit(a: int, b: int)
    requires
        0 <= a <= ONE,
        0 <= b <= ONE,
    ensures
        0 <= spec_mul(a, b) <= a,
        spec_mul(a, b) <= b,
        spec_mul(a, b) == (a * b) / (ONE as int),
{
    let one = ONE as int;
    assert(0 <= a * b <= a * one && a * b <= one * b) by (nonlinear_arith)
        requires
            0 <= a <= one,
            0 <= b <= one,
    ;
    vstd::arithmetic::div_mod::lemma_div_is_ordered(0, a * b, one);
    vstd::arithmetic::div_mod::lemma_div_is_ordered(a * b, a * one, one);
    vstd::arithmetic::div_mod::lemma_div_is_ordered(a * b, one * b, one);
    vstd::arithmetic::div_mod::lemma_div_by_multiple(a, one);
    vstd::arithmetic::div_mod::lemma_div_by_multiple(b, one);
    assert(a * one == one * a) by (nonlinear_arith);
    assert(b * one == one * b) by (nonlinear_arith);
}

/// The product of a value in `[-1, 1]` and a value in `[0, 1]` lies in
/// `[-1, 1]`.
pub proof fn lemma_mul_signed_unit(a: int, b: int)
    requires
        -ONE <= a <= ONE,
        0 <= b <= ONE,
    ensures
        -ONE <= spec_mul(a, b) <= ONE,
        a >= 0 ==> spec_mul(a, b) >= 0,
{
    let one = ONE as int;
    assert((-one) * one <= a * b <= one * one && (a >= 0 ==> a * b >= 0)) by (nonlinear_arith)
        requires
            -one <= a <= one,
            0 <= b <= one,
    ;
    vstd::arithmetic::div_mod::lemma_div_is_ordered((-one) * one, a * b, one);
    vstd::arithmetic::div_mod::lemma_div_is_ordered(a * b, one * one, one);
    vstd::arithmetic::div_mod::lemma_div_by_multiple(one, one);
    assert(((-one) * one) / one == -one) by (nonlinear_arith)
        requires
            one == 0x1_0000_0000,
    ;
    if a >= 0 {
        vstd::arithmetic::div_mod::lemma_div_is_ordered(0, a * b, one);
    }
}

/// A floored product, scaled back, does not exceed the exact product and
/// falls short of it by less than one.
pub proof fn lemma_mul_floor(a: int, b: int)
    requires
        -2 * ONE <= a <= 2 * ONE,
        -2 * ONE <= b <= 2 * ONE,
    ensures
        spec_mul(a, b) == (a * b) / (ONE as int),
        spec_mul(a, b) * ONE <= a * b < spec_mul(a, b) * ONE + ONE,
{
    let one = ONE as int;
    lemma_product_bounds(a, b, 2 * one, 2 * one);
    assert((2 * one) * (2 * one) == 4 * one * one) by (nonlinear_arith);
    vstd::arithmetic::div_mod::lemma_fundamental_div_mod(a * b, one);
    let q = (a * b) / one;
    assert(-(4 * one) <= q <= 4 * one) by (nonlinear_arith)
        requires
            a * b == one * q + (a * b) % one,
            0 <= (a * b) % one < one,
            -(4 * one * one) <= a * b <= 4 * one * one,
            one > 0,
    ;
    assert(q * one == one * q) by (nonlinear_arith);
}

/// The product of two values that are not negative is not negative.
pub proof fn lemma_mul_is_not_negative(a: int, b: int)
    requires
        0 <= a,
        0 <= b,
    ensures
        0 <= spec_mul(a, b),
{
    assert(0 <= a * b) by (nonlinear_arith)
        requires
            0 <= a,
            0 <= b,
    ;
    vstd::arithmetic::div_mod::lemma_div_pos_is_pos(a * b, ONE as int);
}

/// The share `t` of a step that is not positive, with `t` in `[0, 1]`, is
/// no longer than the step.
pub proof fn lemma_mul_share_of_step(step: int, t: int)
    requires
        step <= 0,
        -0x8000_0000_0000_0000 <= step,
        0 <= t <= ONE,
    ensures
        step <= spec_mul(step, t) <= 0,
{
    let one = ONE as int;
    assert(step * one <= step * t <= 0) by (nonlinear_arith)
        requires
            step <= 0,
            0 <= t <= one,
    ;
    vstd::arithmetic::div_mod::lemma_div_is_ordered(step * one, step * t, one);
    vstd::arithmetic::div_mod::lemma_div_is_ordered(step * t, 0, one);
    vstd::arithmetic::div_mod::lemma_div_multiples_vanish(step, one);
    assert(step * one == one * step) by (nonlinear_arith);
}

/// A product grows with its second factor when the first is not negative.
pub proof fn lemma_mul_monotone(a: int, b: int, c: int)
    requires
        0 <= a,
        b <= c,
    ensures
        (a * b) / (ONE as int) <= (a * c) / (ONE as int),
{
    assert(a * b <= a * c) by (nonlinear_arith)
        requires
            0 <= a,
            b <= c,
    ;
    vstd::arithmetic::div_mod::lemma_div_is_ordered(a * b, a * c, ONE as int);
}

/// A share of at most `1` of a value in `[0, 2]` is no larger than the
/// value.
pub proof fn lemma_mul_share(a: int, b: int)
    requires
        0 <= a <= 2 * ONE,
        0 <= b <= ONE,
    ensures
        0 <= spec_mul(a, b) <= a,
        spec_mul(a, b) == (a * b) / (ONE as int),
{
    lemma_mul_floor(a, b);
    lemma_mul_monotone(a, 0, b);
    lemma_mul_monotone(a, b, ONE as int);
    assert(a * 0 == 0) by (nonlinear_arith);
    vstd::arithmetic::div_mod::lemma_div_multiples_vanish(a, ONE as int);
    assert(a * (ONE as int) == (ONE as int) * a) by (nonlinear_arith);
}

} // verus!
