//! Exponential and trigonometric functions on fixed-point values.
//!
//! Each function approximates its namesake by a short alternating series,
//! evaluated by Horner's rule. The arguments are first reduced so that every
//! nested factor of the series lies in `[0, 1]`; the results are therefore
//! bounded by construction. The spec function of each gives the value
//! exactly, digit for digit. What ties each to its namesake are the
//! inequalities proved of it on the reduced range: `1 - x <= e^-x <= 1 - x +
//! x^2/2`, `t - t^3/6 <= sin t <= t`, and the exactness of whole powers of
//! two.

use vstd::prelude::*;
use crate::fixed::{
    ONE, LIMIT, saturate, spec_mul, spec_div, spec_clamp, lemma_mul_unit, lemma_mul_floor,
    lemma_mul_monotone, lemma_mul_share, fx_mul, fx_div, fx_add, clamp, floor_div, floor_mod,
};

verus! {

/// `ln 2`.
pub const LN2: i64 = 2977044472;

/// `2 * pi`.
pub const TWO_PI: i64 = 26986075409;

/// One quarter.
pub const QUARTER: i64 = 0x4000_0000;

/// One half.
pub const HALF: i64 = 0x8000_0000;

/// Number of terms of the exponential series.
pub const EXP_TERMS: i64 = 12;

/// Number of terms of the sine series.
pub const SINE_TERMS: i64 = 7;

/// The largest tangent that [`tan_pi`] returns: `1024.0`.
pub const TAN_MAX: i64 = 0x400_0000_0000;

/// `v` halved `k` times, each time rounding down: `floor(v / 2^k)`.
pub open spec fn spec_halve(v: int, k: int) -> int
    decreases k,
{
    if k <= 0 {
        v
    } else {
        spec_halve(v / 2, k - 1)
    }
}

/// `c` doubled `k` times: `c * 2^k`.
pub open spec fn spec_scaled(c: int, k: int) -> int
    decreases k,
{
    if k <= 0 {
        c
    } else {
        2 * spec_scaled(c, k - 1)
    }
}

/// `v` doubled `k` times, saturating.
pub open spec fn spec_double(v: int, k: int) -> int
    decreases k,
{
    if k <= 0 {
        v
    } else {
        spec_double(saturate(2 * v), k - 1)
    }
}

/// The tail of the series of `e^-r` from term `n` on:
/// `1 - r/n * (1 - r/(n+1) * (1 - ...))`.
pub open spec fn spec_exp_series(r: int, n: int) -> int
    decreases EXP_TERMS + 1 - n,
{
    if n < 1 || n > EXP_TERMS {
        ONE as int
    } else {
        ONE - spec_mul(r / n, spec_exp_series(r, n + 1))
    }
}

/// The approximation of `e^-x` for `x >= 0`: with `x = k * ln 2 + r`, the
/// series of `e^-r` halved `k` times. Arguments below zero give `1`,
/// arguments from `32` on give `0`.
pub open spec fn spec_exp_neg(x: int) -> int {
    if x <= 0 {
        ONE as int
    } else if x >= 32 * ONE {
        0
    } else {
        spec_halve(spec_exp_series(x % (LN2 as int), 1), x / (LN2 as int))
    }
}

/// The approximation of `2^x`: with `x = k + f`, `0 <= f < 1`, the mantissa
/// `2 * e^-((1 - f) ln 2)` doubled or halved `|k|` times. From `2^31` on it
/// is `LIMIT`, below `2^-34` it is zero.
pub open spec fn spec_exp2(x: int) -> int {
    let k = x / (ONE as int);
    let f = x % (ONE as int);
    let m = 2 * spec_exp_neg(spec_mul(ONE - f, LN2 as int));
    if k > 30 {
        LIMIT as int
    } else if k >= 0 {
        spec_double(m, k)
    } else if k >= -34 {
        spec_halve(m, -k)
    } else {
        0
    }
}

/// The tail of the series of `sin(t) / t` from term `n` on, in `t2 = t^2`:
/// `1 - t2/(2n(2n+1)) * (1 - ...)`.
pub open spec fn spec_sine_series(t2: int, n: int) -> int
    decreases SINE_TERMS + 1 - n,
{
    if n < 1 || n > SINE_TERMS {
        ONE as int
    } else {
        ONE - spec_mul(t2 / (2 * n * (2 * n + 1)), spec_sine_series(t2, n + 1))
    }
}

/// The angle, in radians, of the phase `p` folded into the first quadrant.
pub open spec fn spec_quadrant_angle(p: int) -> int {
    let u = p % (ONE as int);
    let z = u % (QUARTER as int);
    if (u / (QUARTER as int)) % 2 == 1 {
        spec_mul(QUARTER - z, TWO_PI as int)
    } else {
        spec_mul(z, TWO_PI as int)
    }
}

/// The approximation of `sin(2 pi p)` for a phase `p` counted in cycles:
/// the series of the folded angle, with the sign of the half cycle.
pub open spec fn spec_sine(p: int) -> int {
    let t = spec_quadrant_angle(p);
    let m = spec_clamp(spec_mul(t, spec_sine_series(spec_mul(t, t), 1)), 0, ONE as int);
    if (p % (ONE as int)) / (QUARTER as int) < 2 {
        m
    } else {
        -m
    }
}

/// The approximation of `tan(pi x)` for `x` clamped into `[0, 1/2]`: the
/// quotient of sine and cosine, saturated at `TAN_MAX`.
pub open spec fn spec_tan_pi(x: int) -> int {
    let h = spec_clamp(x, 0, HALF as int) / 2;
    let s = spec_sine(h);
    let c = spec_sine(h + QUARTER);
    if c > 0 {
        spec_clamp(spec_div(s, c), 0, TAN_MAX as int)
    } else {
        TAN_MAX as int
    }
}

/// Halves `v` `k` times.
fn halve(v: i64, k: u32) -> (r: i64)
    requires
        0 <= v,
    ensures
        r == spec_halve(v as int, k as int),
        0 <= r <= v,
{
    let mut r: i64 = v;
    let mut left: u32 = k;
    while left > 0
        invariant
            0 <= r <= v,
            spec_halve(r as int, left as int) == spec_halve(v as int, k as int),
        decreases left,
    {
        r = r / 2;
        left = left - 1;
    }
    r
}

/// Doubles `v` `k` times, saturating.
fn double(v: i64, k: u32) -> (r: i64)
    requires
        0 <= v,
    ensures
        r == spec_double(v as int, k as int),
        v <= r,
{
    let mut r: i64 = v;
    let mut left: u32 = k;
    while left > 0
        invariant
            v <= r,
            0 <= v,
            spec_double(r as int, left as int) == spec_double(v as int, k as int),
        decreases left,
    {
        r = fx_add(r, r);
        left = left - 1;
    }
    r
}

/// Evaluates the series of `e^-r` for `r` in `[0, 1]`.
fn exp_series(r: i64) -> (acc: i64)
    requires
        0 <= r <= ONE,
    ensures
        acc == spec_exp_series(r as int, 1),
        0 <= acc <= ONE,
{
    let mut acc: i64 = ONE;
    let mut n: i64 = EXP_TERMS;
    while n >= 1
        invariant
            0 <= n <= EXP_TERMS,
            0 <= r <= ONE,
            0 <= acc <= ONE,
            acc == spec_exp_series(r as int, n + 1),
        decreases n,
    {
        let t: i64 = r / n;
        proof {
            lemma_mul_unit(t as int, acc as int);
        }
        acc = ONE - fx_mul(t, acc);
        n = n - 1;
    }
    acc
}

/// Computes `e^-x`.
pub fn exp_neg(x: i64) -> (r: i64)
    ensures
        r == spec_exp_neg(x as int),
        0 <= r <= ONE,
{
    if x <= 0 {
        ONE
    } else if x >= 32 * ONE {
        0
    } else {
        let k: i64 = x / LN2;
        let series = exp_series(x % LN2);
        halve(series, k as u32)
    }
}

/// Computes `2^x`.
pub fn exp2(x: i64) -> (r: i64)
    ensures
        r == spec_exp2(x as int),
        0 <= r,
{
    let k: i128 = floor_div(x as i128, ONE as i128);
    let f: i64 = floor_mod(x as i128, ONE as i128) as i64;
    proof {
        lemma_mul_unit((ONE - f) as int, LN2 as int);
    }
    let m: i64 = 2 * exp_neg(fx_mul(ONE - f, LN2));
    if k > 30 {
        LIMIT
    } else if k >= 0 {
        double(m, k as u32)
    } else if k >= -34 {
        halve(m, (-k) as u32)
    } else {
        0
    }
}

/// Evaluates the series of `sin(t) / t` for `t^2` in `[0, 6]`.
fn sine_series(t2: i64) -> (acc: i64)
    requires
        0 <= t2 <= 6 * ONE,
    ensures
        acc == spec_sine_series(t2 as int, 1),
        0 <= acc <= ONE,
{
    let mut acc: i64 = ONE;
    let mut n: i64 = SINE_TERMS;
    while n >= 1
        invariant
            0 <= n <= SINE_TERMS,
            0 <= t2 <= 6 * ONE,
            0 <= acc <= ONE,
            acc == spec_sine_series(t2 as int, n + 1),
        decreases n,
    {
        let e: i64 = 2 * n;
        assert(0 <= e * (e + 1) <= 210) by (nonlinear_arith)
            requires
                0 <= e <= 14,
        ;
        let d: i64 = e * (e + 1);
        proof {
            lemma_sine_series_unit(t2 as int, n + 1);
            assert(d >= 6) by (nonlinear_arith)
                requires
                    n >= 1,
                    d == 2 * n * (2 * n + 1),
            ;
            assert(0 <= t2 / d <= ONE) by (nonlinear_arith)
                requires
                    d >= 6,
                    0 <= t2 <= 6 * ONE,
            ;
            lemma_mul_unit((t2 / d) as int, acc as int);
        }
        acc = ONE - fx_mul(t2 / d, acc);
        n = n - 1;
    }
    acc
}

/// Computes `sin(2 pi p)` for a phase `p` counted in cycles.
pub fn sine(p: i64) -> (r: i64)
    ensures
        r == spec_sine(p as int),
        -ONE <= r <= ONE,
{
    let u: i64 = floor_mod(p as i128, ONE as i128) as i64;
    let q: i64 = u / QUARTER;
    let z: i64 = u % QUARTER;
    let t: i64 = if q % 2 == 1 {
        fx_mul(QUARTER - z, TWO_PI)
    } else {
        fx_mul(z, TWO_PI)
    };
    proof {
        lemma_quadrant_angle_bounds(p as int);
    }
    let series = sine_series(fx_mul(t, t));
    let m: i64 = clamp(fx_mul(t, series), 0, ONE);
    if q < 2 {
        m
    } else {
        -m
    }
}

/// Computes `tan(pi x)` for `x` clamped into `[0, 1/2]`.
pub fn tan_pi(x: i64) -> (r: i64)
    ensures
        r == spec_tan_pi(x as int),
        0 <= r <= TAN_MAX,
{
    let h: i64 = clamp(x, 0, HALF) / 2;
    let s = sine(h);
    let c = sine(h + QUARTER);
    if c > 0 {
        clamp(fx_div(s, c), 0, TAN_MAX)
    } else {
        TAN_MAX
    }
}

/// Halving keeps a non-negative value between zero and itself.
pub proof fn lemma_halve_bounds(v: int, k: int)
    requires
        0 <= v,
    ensures
        0 <= spec_halve(v, k) <= v,
    decreases k,
{
    if k > 0 {
        lemma_halve_bounds(v / 2, k - 1);
    }
}

/// Every tail of the exponential series lies in `[0, 1]`.
pub proof fn lemma_exp_series_unit(r: int, n: int)
    requires
        0 <= r <= ONE,
    ensures
        0 <= spec_exp_series(r, n) <= ONE,
    decreases EXP_TERMS + 1 - n,
{
    if 1 <= n <= EXP_TERMS {
        lemma_exp_series_unit(r, n + 1);
        lemma_mul_unit(r / n, spec_exp_series(r, n + 1));
    }
}

/// Every tail of the sine series lies in `[0, 1]`.
pub proof fn lemma_sine_series_unit(t2: int, n: int)
    requires
        0 <= t2 <= 6 * ONE,
    ensures
        0 <= spec_sine_series(t2, n) <= ONE,
    decreases SINE_TERMS + 1 - n,
{
    if 1 <= n <= SINE_TERMS {
        lemma_sine_series_unit(t2, n + 1);
        let d = 2 * n * (2 * n + 1);
        assert(d >= 6) by (nonlinear_arith)
            requires
                n >= 1,
                d == 2 * n * (2 * n + 1),
        ;
        assert(0 <= t2 / d <= ONE) by (nonlinear_arith)
            requires
                d >= 6,
                0 <= t2 <= 6 * ONE,
        ;
        lemma_mul_unit(t2 / d, spec_sine_series(t2, n + 1));
    }
}

/// `e^-x` lies in `[0, 1]`.
pub proof fn lemma_exp_neg_unit(x: int)
    ensures
        0 <= spec_exp_neg(x) <= ONE,
{
    if 0 < x < 32 * ONE {
        let r = x % (LN2 as int);
        lemma_exp_series_unit(r, 1);
        lemma_halve_bounds(spec_exp_series(r, 1), x / (LN2 as int));
    }
}

/// The folded angle lies in `[0, pi/2]`, and its square in `[0, pi^2/4]`.
pub proof fn lemma_quadrant_angle_bounds(p: int)
    ensures
        0 <= spec_quadrant_angle(p) <= 6746518853,
        0 <= spec_mul(spec_quadrant_angle(p), spec_quadrant_angle(p)) <= 10597407035,
{
    let u = p % (ONE as int);
    let z0 = u % (QUARTER as int);
    let z = if (u / (QUARTER as int)) % 2 == 1 { QUARTER - z0 } else { z0 };
    assert(0 <= z <= QUARTER);
    let t = spec_mul(z, TWO_PI as int);
    assert(0 <= z * TWO_PI <= QUARTER * TWO_PI) by (nonlinear_arith)
        requires
            0 <= z <= QUARTER,
    ;
    assert(QUARTER * TWO_PI == 28976077832261206016) by (nonlinear_arith)
        requires
            QUARTER == 0x4000_0000,
            TWO_PI == 26986075409,
    ;
    assert(0 <= t <= 6746518853);
    assert(t == spec_quadrant_angle(p));
    assert(0 <= t * t <= 6746518853 * 6746518853) by (nonlinear_arith)
        requires
            0 <= t <= 6746518853,
    ;
}

/// `sin` lies in `[-1, 1]`.
pub proof fn lemma_sine_unit(p: int)
    ensures
        -ONE <= spec_sine(p) <= ONE,
{
}

/// `e^-x` falls short of `1`: by at least one unit once `x` is at least two
/// units, and by at least eight once `x` is at least sixteen.
pub proof fn lemma_exp_neg_gap(x: int)
    requires
        x >= 2,
    ensures
        spec_exp_neg(x) <= ONE - 1,
        x >= 16 ==> spec_exp_neg(x) <= ONE - 8,
{
    if x < 32 * ONE {
        let k = x / (LN2 as int);
        let r = x % (LN2 as int);
        lemma_exp_series_unit(r, 1);
        if k >= 1 {
            lemma_halve_bounds(spec_exp_series(r, 1) / 2, k - 1);
        } else {
            assert(r == x);
            lemma_exp_series_unit(r, 2);
            lemma_exp_series_unit(r, 3);
            lemma_mul_unit(r / 2, spec_exp_series(r, 3));
            let inner = spec_exp_series(r, 2);
            assert(inner >= ONE - r / 2);
            lemma_mul_unit(r, inner);
            assert(r * inner >= ONE && (r >= 16 ==> r * inner >= 8 * ONE)) by (nonlinear_arith)
                requires
                    2 <= r <= 2977044472,
                    inner >= ONE - r / 2,
                    ONE == 0x1_0000_0000,
            ;
            vstd::arithmetic::div_mod::lemma_div_is_ordered(ONE as int, r * inner, ONE as int);
            if r >= 16 {
                vstd::arithmetic::div_mod::lemma_div_is_ordered(8 * ONE, r * inner, ONE as int);
            }
        }
    }
}

/// A whole power of two is exact: `2^k` is one doubled `k` times for
/// `0 <= k <= 30`, and one halved `-k` times for `-34 <= k < 0`.
pub proof fn lemma_exp2_of_whole(k: int)
    requires
        -34 <= k <= 30,
    ensures
        k >= 0 ==> spec_exp2(k * ONE) == spec_double(ONE as int, k),
        k < 0 ==> spec_exp2(k * ONE) == spec_halve(ONE as int, -k),
{
    let x = k * ONE;
    assert(x / (ONE as int) == k && x % (ONE as int) == 0) by (nonlinear_arith)
        requires
            x == k * ONE,
            ONE == 0x1_0000_0000,
    ;
    assert(spec_mul(ONE as int, LN2 as int) == LN2) by (nonlinear_arith)
        requires
            ONE == 0x1_0000_0000,
            LN2 == 2977044472,
    ;
    lemma_exp_series_of_zero(1);
    reveal_with_fuel(spec_halve, 2);
    assert(spec_exp_neg(LN2 as int) == ONE / 2);
}

/// The powers of two next to one are exact: `2^-2 = 1/4`, `2^-1 = 1/2`,
/// `2^0 = 1`, `2^1 = 2`, `2^2 = 4`.
pub proof fn lemma_exp2_near_one()
    ensures
        spec_exp2(-2 * ONE) == ONE / 4,
        spec_exp2(-(ONE as int)) == ONE / 2,
        spec_exp2(0) == ONE,
        spec_exp2(ONE as int) == 2 * ONE,
        spec_exp2(2 * ONE) == 4 * ONE,
{
    lemma_exp2_of_whole(-2);
    lemma_exp2_of_whole(-1);
    lemma_exp2_of_whole(0);
    lemma_exp2_of_whole(1);
    lemma_exp2_of_whole(2);
    reveal_with_fuel(spec_double, 3);
    reveal_with_fuel(spec_halve, 3);
    assert(-1 * ONE == -(ONE as int));
    assert(0 * ONE == 0);
    assert(1 * ONE == ONE);
}

/// At zero every tail of the exponential series is one.
pub proof fn lemma_exp_series_of_zero(n: int)
    ensures
        spec_exp_series(0, n) == ONE,
    decreases EXP_TERMS + 1 - n,
{
    if 1 <= n <= EXP_TERMS {
        lemma_exp_series_of_zero(n + 1);
        assert(0 * (ONE as int) == 0) by (nonlinear_arith);
    }
}

/// No power of two is negative.
pub proof fn lemma_exp2_is_not_negative(x: int)
    ensures
        0 <= spec_exp2(x) <= LIMIT,
{
    let k = x / (ONE as int);
    let f = x % (ONE as int);
    lemma_mul_unit(ONE - f, LN2 as int);
    lemma_exp_neg_unit(spec_mul(ONE - f, LN2 as int));
    let m = 2 * spec_exp_neg(spec_mul(ONE - f, LN2 as int));
    if 0 <= k <= 30 {
        lemma_double_bounds(m, k);
    } else if -34 <= k < 0 {
        lemma_halve_bounds(m, -k);
    }
}

/// Doubling keeps a non-negative value between itself and `LIMIT`.
pub proof fn lemma_double_bounds(v: int, k: int)
    requires
        0 <= v <= LIMIT,
    ensures
        v <= spec_double(v, k) <= LIMIT,
    decreases k,
{
    if k > 0 {
        lemma_double_bounds(saturate(2 * v), k - 1);
    }
}

/// On the reduced range the exponential lies between its first two partial
/// sums: `1 - x <= e^-x <= 1 - x + x^2/2`, the upper bound to within one
/// unit of rounding.
pub proof fn lemma_exp_neg_bounds(x: int)
    requires
        0 <= x < LN2,
    ensures
        ONE - x <= spec_exp_neg(x) <= ONE - x + spec_mul(x, x / 2) + 1,
{
    let one = ONE as int;
    if x > 0 {
        assert(x / (LN2 as int) == 0 && x % (LN2 as int) == x);
        lemma_exp_series_unit(x, 2);
        lemma_exp_series_unit(x, 3);
        lemma_mul_unit(x / 2, spec_exp_series(x, 3));
        let inner = spec_exp_series(x, 2);
        assert(one - x / 2 <= inner <= one);
        lemma_mul_unit(x, inner);
        lemma_mul_unit(x, one - x / 2);
        lemma_mul_unit(x, x / 2);
        lemma_mul_monotone(x, one - x / 2, inner);
        // x * (1 - x/2) = x - x * x/2, and the floor of a difference is
        // at least the difference of the floors, less one
        lemma_mul_floor(x, x / 2);
        lemma_mul_floor(x, one - x / 2);
        let low = spec_mul(x, one - x / 2);
        let half = spec_mul(x, x / 2);
        assert(low >= x - half - 1) by (nonlinear_arith)
            requires
                low * one <= x * (one - x / 2) < low * one + one,
                half * one <= x * (x / 2) < half * one + one,
                one > 0,
        ;
    } else {
        assert(0int * (0int / 2) == 0) by (nonlinear_arith);
    }
}

/// On the reduced range the sine lies between its first two partial sums:
/// `t - t^3/6 <= sin t <= t` for the folded angle `t`, the lower bound cut
/// off at `1`.
pub proof fn lemma_sine_bounds(p: int)
    ensures
        ({
            let t = spec_quadrant_angle(p);
            let t2 = spec_mul(t, t);
            let magnitude = if (p % (ONE as int)) / (QUARTER as int) < 2 { spec_sine(p) } else { -spec_sine(p) };
            &&& 0 <= t2 / 6 <= ONE / 2
            &&& spec_clamp(spec_mul(t, ONE - t2 / 6), 0, ONE as int) <= magnitude <= t
            &&& magnitude <= ONE
        }),
{
    let one = ONE as int;
    let t = spec_quadrant_angle(p);
    let t2 = spec_mul(t, t);
    lemma_quadrant_angle_bounds(p);
    lemma_sine_series_unit(t2, 2);
    let first = t2 / 6;
    assert(2 * 1 * (2 * 1 + 1) == 6int) by (nonlinear_arith);
    lemma_mul_unit(first, spec_sine_series(t2, 2));
    let inner = spec_sine_series(t2, 1);
    assert(inner == one - spec_mul(first, spec_sine_series(t2, 2)));
    assert(one - t2 / 6 <= inner <= one);
    lemma_mul_share(t, inner);
    lemma_mul_share(t, one - t2 / 6);
    lemma_mul_monotone(t, one - t2 / 6, inner);
}

/// The sine of a phase in the first quarter of the cycle, from one unit
/// on, is positive.
pub proof fn lemma_sine_is_positive(p: int)
    requires
        1 <= p <= QUARTER,
    ensures
        3 <= spec_sine(p) <= ONE,
{
    let one = ONE as int;
    let t = spec_quadrant_angle(p);
    let t2 = spec_mul(t, t);
    lemma_sine_bounds(p);
    assert(p % one == p);
    let z = if p == QUARTER { QUARTER as int } else { p };
    assert(t == spec_mul(z, TWO_PI as int));
    lemma_mul_monotone(TWO_PI as int, 1, z);
    assert(z * TWO_PI == TWO_PI * z) by (nonlinear_arith);
    assert((TWO_PI * 1) / one == 6) by (nonlinear_arith)
        requires
            TWO_PI == 26986075409,
            one == 0x1_0000_0000,
    ;
    assert(t >= 6);
    lemma_mul_share(t, one - t2 / 6);
    lemma_mul_monotone(one - t2 / 6, 6, t);
    assert((one - t2 / 6) * t == t * (one - t2 / 6)) by (nonlinear_arith);
    assert(((one - t2 / 6) * 6) / one >= 3) by (nonlinear_arith)
        requires
            one - t2 / 6 >= one / 2,
            one == 0x1_0000_0000,
    ;
}

/// Halving `k` times leaves at least the `2^k`-th part: if `v` is at least
/// `c` doubled `k` times, the result is at least `c`.
pub proof fn lemma_halve_keeps(v: int, k: int, c: int)
    requires
        0 <= k,
        0 <= c,
        v >= spec_scaled(c, k),
    ensures
        spec_halve(v, k) >= c,
    decreases k,
{
    if k > 0 {
        lemma_halve_keeps(v / 2, k - 1, c);
    }
}

/// The mantissa of a power of two is at least `2 (1 - ln 2)`, and so the
/// power is positive wherever it is not cut off: `2^x > 0` for
/// `x >= -30`.
pub proof fn lemma_exp2_is_positive(x: int)
    requires
        -30 * ONE <= x,
    ensures
        spec_exp2(x) >= 2,
        x >= -6 * ONE ==> spec_exp2(x) >= 41185088,
        x >= 0 ==> spec_exp2(x) >= 2635845648,
{
    let one = ONE as int;
    let k = x / one;
    let f = x % one;
    lemma_mul_unit(one - f, LN2 as int);
    let y = spec_mul(one - f, LN2 as int);
    lemma_exp_neg_unit(y);
    let m = 2 * spec_exp_neg(y);
    assert(m >= 2635845648) by {
        if y < LN2 {
            lemma_exp_neg_bounds(y);
        } else {
            lemma_exp_series_of_zero(1);
            reveal_with_fuel(spec_halve, 2);
            assert(y / (LN2 as int) == 1 && y % (LN2 as int) == 0);
        }
    }
    if k >= 0 {
        if k <= 30 {
            lemma_double_bounds(m, k);
        }
    } else {
        assert(k >= -30);
        assert(spec_scaled(2, 30) == 2147483648) by {
            reveal_with_fuel(spec_scaled, 31);
        }
        lemma_scaled_grows(2, -k, 30);
        lemma_halve_keeps(m, -k, 2);
        if k >= -6 {
            assert(spec_scaled(41185088, 6) == 2635845632) by {
                reveal_with_fuel(spec_scaled, 7);
            }
            lemma_scaled_grows(41185088, -k, 6);
            lemma_halve_keeps(m, -k, 41185088);
        }
    }
}

/// Doubling more often gives no less.
pub proof fn lemma_scaled_grows(c: int, j: int, k: int)
    requires
        0 <= c,
        0 <= j <= k,
    ensures
        0 <= spec_scaled(c, j) <= spec_scaled(c, k),
    decreases k,
{
    if j < k {
        lemma_scaled_grows(c, j, k - 1);
    } else if k > 0 {
        lemma_scaled_grows(c, j - 1, k - 1);
    }
}

/// The tangent is no smaller than the sine: `tan(pi x) >= sin(pi x)` for
/// `x` clamped into `[0, 1/2]`, as far as `TAN_MAX` goes.
pub proof fn lemma_tan_pi_bounds(x: int)
    ensures
        spec_clamp(spec_sine(spec_clamp(x, 0, HALF as int) / 2), 0, TAN_MAX as int) <= spec_tan_pi(x) <= TAN_MAX,
        0 <= spec_sine(spec_clamp(x, 0, HALF as int) / 2) <= ONE,
{
    let one = ONE as int;
    let h = spec_clamp(x, 0, HALF as int) / 2;
    lemma_sine_bounds(h);
    lemma_sine_unit(h + QUARTER);
    assert(h % one == h);
    let s = spec_sine(h);
    let c = spec_sine(h + QUARTER);
    if c > 0 {
        assert(0 <= s * one) by (nonlinear_arith)
            requires
                0 <= s,
                one > 0,
        ;
        vstd::arithmetic::div_mod::lemma_div_is_ordered_by_denominator(s * one, c, one);
        vstd::arithmetic::div_mod::lemma_div_multiples_vanish(s, one);
        assert(s * one == one * s) by (nonlinear_arith);
    }
}

} // verus!
