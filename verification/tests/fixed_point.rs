//! Arithmetic layer: saturating fixed-point operations, sums, closeness.

use dynapai::fixed::{fx_add, fx_div, fx_divi, fx_mul, fx_neg, fx_sub, fx_sum};
use dynapai::fixed::{FX_MAX, FX_MIN, SCALE};
use dynapai::transcend::{fx_exp, fx_ln, fx_pow, fx_powi, fx_sqrt, LN2_FX};
use dynapai::utils::{isapprox, isapprox_arr};

#[test]
fn add_and_saturation() {
    assert_eq!(fx_add(SCALE, SCALE), 2 * SCALE);
    assert_eq!(fx_add(FX_MAX, FX_MAX), FX_MAX);
    assert_eq!(fx_add(FX_MIN, -1), FX_MIN);
    assert_eq!(fx_sub(3 * SCALE, SCALE), 2 * SCALE);
    assert_eq!(fx_neg(5), -5);
}

#[test]
fn mul_and_div_exact() {
    // 1.5 * 2 = 3
    assert_eq!(fx_mul(3 * SCALE / 2, 2 * SCALE), 3 * SCALE);
    // Truncation toward zero on both signs.
    assert_eq!(fx_mul(1, 1), 0);
    assert_eq!(fx_mul(-1, 1), 0);
    // 3 / 2 = 1.5
    assert_eq!(fx_div(3 * SCALE, 2 * SCALE), 3 * SCALE / 2);
    // Division by zero is total and yields zero.
    assert_eq!(fx_div(SCALE, 0), 0);
    assert_eq!(fx_divi(7 * SCALE, 2), 7 * SCALE / 2);
    assert_eq!(fx_divi(-7, 2), -3);
}

#[test]
fn sum_is_left_fold() {
    let v = vec![SCALE, 2 * SCALE, 3 * SCALE];
    assert_eq!(fx_sum(&v), 6 * SCALE);
    let w = vec![FX_MAX, FX_MAX, -FX_MAX];
    // Saturates at the second element, then subtracts.
    assert_eq!(fx_sum(&w), 0);
}

#[test]
fn log_and_exp_exact_points() {
    assert_eq!(fx_ln(SCALE), 0);
    assert_eq!(fx_ln(2 * SCALE), LN2_FX);
    assert_eq!(fx_exp(0), SCALE);
    // exp never returns a non-positive value.
    assert_eq!(fx_exp(FX_MIN), 1);
}

#[test]
fn pow_exact_points() {
    // 4^(1/2) = 2 exactly in the digit method.
    assert_eq!(fx_pow(4 * SCALE, SCALE / 2), 2 * SCALE);
    // 4^(-1) = 1/4 exactly.
    assert_eq!(fx_pow(4 * SCALE, -SCALE), SCALE / 4);
    // 0^0 = 1, 0^w = 0 for positive w.
    assert_eq!(fx_pow(0, 0), SCALE);
    assert_eq!(fx_pow(0, SCALE), 0);
    // Negative bases clamp to zero.
    assert_eq!(fx_pow(-SCALE, SCALE), 0);
}

#[test]
fn pow_monotone_sample() {
    // Monotonicity of the Cobb-Douglas kernel on a sample ladder.
    let w = SCALE / 2;
    let mut last = fx_pow(0, w);
    for x in [1, SCALE / 4, SCALE, 3 * SCALE, 9 * SCALE, 100 * SCALE] {
        let y = fx_pow(x, w);
        assert!(y >= last);
        last = y;
    }
}

#[test]
fn powi_and_sqrt() {
    assert_eq!(fx_powi(SCALE / 2, 0), SCALE);
    assert_eq!(fx_powi(SCALE / 2, 1), SCALE / 2);
    assert_eq!(fx_powi(SCALE / 2, 2), SCALE / 4);
    assert_eq!(fx_sqrt(4 * SCALE), 2 * SCALE);
    assert_eq!(fx_sqrt(0), 0);
}

#[test]
fn isapprox_combined_tolerance() {
    // Absolute floor.
    assert!(isapprox(0, 5, 0, 10));
    assert!(!isapprox(0, 50, 0, 10));
    // Relative part: |a-b| <= rtol * max(|a|,|b|).
    let rtol = SCALE / 100;
    assert!(isapprox(100 * SCALE, 100 * SCALE + SCALE / 2, rtol, 0));
    assert!(!isapprox(100 * SCALE, 102 * SCALE, rtol, 0));
}

#[test]
fn isapprox_arr_entrywise() {
    let a = vec![SCALE, 2 * SCALE];
    let b = vec![SCALE + 1, 2 * SCALE - 1];
    assert!(isapprox_arr(&a, &b, 0, 2));
    assert!(!isapprox_arr(&a, &b, 0, 0));
}
