use rs_synth::fixed::{floor_div, floor_mod, fx_add, fx_div, fx_mul, fx_sub, LIMIT, ONE};
use rs_synth::math::{exp2, exp_neg, sine, tan_pi, HALF, QUARTER};

fn to_real(v: i64) -> f64 {
    v as f64 / ONE as f64
}

fn to_fixed(x: f64) -> i64 {
    (x * ONE as f64).round() as i64
}

#[test]
fn multiplication_rounds_down() {
    assert_eq!(fx_mul(3 * ONE, ONE / 2), 3 * ONE / 2);
    assert_eq!(fx_mul(1, 1), 0);
    assert_eq!(fx_mul(-1, 1), -1);
    assert_eq!(fx_mul(-3 * ONE, ONE / 2), -3 * ONE / 2);
}

#[test]
fn multiplication_saturates() {
    assert_eq!(fx_mul(LIMIT, LIMIT), LIMIT);
    assert_eq!(fx_mul(LIMIT, -LIMIT), -LIMIT);
    assert_eq!(fx_mul(i64::MIN, i64::MIN), LIMIT);
}

#[test]
fn division_rounds_down() {
    assert_eq!(fx_div(ONE, 2 * ONE), ONE / 2);
    assert_eq!(fx_div(-ONE, 3 * ONE), -1431655766);
    assert_eq!(fx_div(ONE, 3 * ONE), 1431655765);
    assert_eq!(fx_div(LIMIT, 1), LIMIT);
}

#[test]
fn addition_and_subtraction_saturate() {
    assert_eq!(fx_add(LIMIT, 1), LIMIT);
    assert_eq!(fx_sub(-LIMIT, 5), -LIMIT);
    assert_eq!(fx_add(2 * ONE, 3 * ONE), 5 * ONE);
    assert_eq!(fx_sub(2 * ONE, 3 * ONE), -ONE);
}

#[test]
fn exp_neg_matches_the_exponential() {
    assert_eq!(exp_neg(0), ONE);
    assert_eq!(exp_neg(-5), ONE);
    assert_eq!(exp_neg(32 * ONE), 0);
    for i in 0..2000 {
        let x = to_fixed(i as f64 * 0.011);
        let want = (-to_real(x)).exp();
        assert!((to_real(exp_neg(x)) - want).abs() < 2e-9);
    }
}

#[test]
fn exp2_matches_the_power_of_two() {
    assert_eq!(exp2(0), ONE);
    assert_eq!(exp2(ONE), 2 * ONE);
    assert_eq!(exp2(-ONE), ONE / 2);
    assert_eq!(exp2(31 * ONE), LIMIT);
    assert_eq!(exp2(-35 * ONE), 0);
    for i in -600..1500 {
        let x = to_fixed(i as f64 * 0.0101);
        let want = to_real(x).exp2();
        assert!((to_real(exp2(x)) - want).abs() / want < 1e-7);
    }
}

#[test]
fn sine_matches_the_sine() {
    assert_eq!(sine(0), 0);
    assert_eq!(sine(QUARTER), ONE);
    assert_eq!(sine(HALF), 0);
    assert_eq!(sine(3 * QUARTER), -ONE);
    assert_eq!(sine(ONE + QUARTER), ONE);
    assert_eq!(sine(-QUARTER), -ONE);
    for i in -3000..3000 {
        let p = to_fixed(i as f64 * 0.00137);
        let want = (2.0 * std::f64::consts::PI * to_real(p)).sin();
        assert!((to_real(sine(p)) - want).abs() < 2e-9);
    }
}

#[test]
fn tan_pi_matches_the_tangent() {
    assert_eq!(tan_pi(0), 0);
    assert_eq!(tan_pi(-ONE), 0);
    assert_eq!(tan_pi(HALF), 1024 * ONE);
    assert_eq!(tan_pi(ONE), 1024 * ONE);
    for i in 1..490 {
        let x = to_fixed(i as f64 * 0.001);
        let want = (std::f64::consts::PI * to_real(x)).tan();
        assert!((to_real(tan_pi(x)) - want).abs() / want < 1e-4);
    }
}

#[test]
fn sine_is_odd_and_turns_sign_after_half_a_cycle() {
    for i in 0..4000 {
        let p = (i as i64) * 2_718_281 - 5_000_000_000;
        assert_eq!(sine(-p), -sine(p));
        assert_eq!(sine(p + HALF), -sine(p));
        assert_eq!(sine(p + 3 * ONE), sine(p));
        assert_eq!(sine(HALF - p), sine(p));
    }
}

#[test]
fn whole_powers_of_two_are_exact() {
    for k in 0..=30 {
        assert_eq!(exp2(k * ONE), ONE << k);
    }
    for k in 1..=32 {
        assert_eq!(exp2(-k * ONE), ONE >> k);
    }
}

#[test]
fn floor_division_and_remainder() {
    assert_eq!(floor_div(7, 2), 3);
    assert_eq!(floor_div(-7, 2), -4);
    assert_eq!(floor_div(-8, 2), -4);
    assert_eq!(floor_mod(7, 3), 1);
    assert_eq!(floor_mod(-7, 3), 2);
    assert_eq!(floor_mod(-9, 3), 0);
}

#[test]
fn exponential_lies_between_its_partial_sums() {
    for i in 0..3000 {
        let x = (i as i64) * 990_000;
        let e = exp_neg(x);
        assert!(ONE - x <= e);
        assert!(e <= ONE - x + fx_mul(x, x / 2) + 1);
    }
}

#[test]
fn sine_lies_between_its_partial_sums() {
    for i in 0..=1000 {
        let p = (i as i64) * (QUARTER / 1000);
        let t = fx_mul(p, 26986075409);
        let cube = fx_mul(t, ONE - fx_mul(t, t) / 6);
        let s = sine(p);
        assert!(s <= t);
        assert!(cube.clamp(0, ONE) <= s);
    }
}
