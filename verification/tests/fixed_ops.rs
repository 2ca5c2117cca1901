//! Tests of the saturating fixed-point scalar operations.

use cloth_sim::fixed::{
    fx_add, fx_clamp_x, fx_dist, fx_div, fx_div_int, fx_half, fx_mul, fx_sqrt, fx_sub, int_to_fx,
    isqrt, FX_MAX, SCALE,
};

#[test]
fn add_and_sub_exact() {
    assert_eq!(fx_add(3 * SCALE, 4 * SCALE), 7 * SCALE);
    assert_eq!(fx_sub(3 * SCALE, 4 * SCALE), -SCALE);
    assert_eq!(fx_add(-SCALE, SCALE), 0);
}

#[test]
fn add_saturates() {
    assert_eq!(fx_add(FX_MAX, FX_MAX), FX_MAX);
    assert_eq!(fx_sub(-FX_MAX, FX_MAX), -FX_MAX);
    assert_eq!(fx_add(FX_MAX, -FX_MAX), 0);
}

#[test]
fn clamp_is_identity_in_range() {
    assert_eq!(fx_clamp_x(12345), 12345);
    assert_eq!(fx_clamp_x(-12345), -12345);
    assert_eq!(fx_clamp_x(FX_MAX), FX_MAX);
}

#[test]
fn mul_exact_and_truncating() {
    assert_eq!(fx_mul(2 * SCALE, 3 * SCALE), 6 * SCALE);
    // 1.5 * 1.5 = 2.25
    assert_eq!(fx_mul(3 * SCALE / 2, 3 * SCALE / 2), 9 * SCALE / 4);
    // Truncation is toward zero on both signs.
    assert_eq!(fx_mul(1, 1), 0);
    assert_eq!(fx_mul(-1, 1), 0);
}

#[test]
fn mul_saturates() {
    assert_eq!(fx_mul(FX_MAX, FX_MAX), FX_MAX);
    assert_eq!(fx_mul(FX_MAX, -FX_MAX), -FX_MAX);
}

#[test]
fn div_exact_and_truncating() {
    assert_eq!(fx_div(7 * SCALE, 2 * SCALE), 7 * SCALE / 2);
    assert_eq!(fx_div(-7 * SCALE, 2 * SCALE), -(7 * SCALE / 2));
    assert_eq!(fx_div(7 * SCALE, -2 * SCALE), -(7 * SCALE / 2));
    assert_eq!(fx_div(SCALE, 3 * SCALE), 21845);
    assert_eq!(fx_div(-SCALE, 3 * SCALE), -21845);
}

#[test]
fn div_int_truncates_toward_zero() {
    assert_eq!(fx_div_int(7, 2), 3);
    assert_eq!(fx_div_int(-7, 2), -3);
    assert_eq!(fx_div_int(SCALE, 60), 1092);
}

#[test]
fn half_truncates_toward_zero() {
    assert_eq!(fx_half(5), 2);
    assert_eq!(fx_half(-5), -2);
    assert_eq!(fx_half(4 * SCALE), 2 * SCALE);
}

#[test]
fn isqrt_exact_values() {
    assert_eq!(isqrt(0), 0);
    assert_eq!(isqrt(1), 1);
    assert_eq!(isqrt(15), 3);
    assert_eq!(isqrt(16), 4);
    assert_eq!(isqrt(17), 4);
    assert_eq!(isqrt(0x4000_0000_0000_0000), 0x8000_0000);
}

#[test]
fn sqrt_of_two_in_fixed_point() {
    // sqrt(2) in units of 1/65536 is 92681 (92681^2 <= 2 * 65536^2 < 92682^2).
    assert_eq!(fx_sqrt(2 * SCALE), 92681);
    assert_eq!(fx_sqrt(4 * SCALE), 2 * SCALE);
    assert_eq!(fx_sqrt(0), 0);
}

#[test]
fn dist_pythagorean_triple() {
    assert_eq!(fx_dist(0, 0, 3 * SCALE, 4 * SCALE), 5 * SCALE);
    assert_eq!(fx_dist(3 * SCALE, 4 * SCALE, 0, 0), 5 * SCALE);
    assert_eq!(fx_dist(-SCALE, 0, SCALE, 0), 2 * SCALE);
    assert_eq!(fx_dist(7, 7, 7, 7), 0);
}

#[test]
fn int_to_fx_scales_and_saturates() {
    assert_eq!(int_to_fx(0), 0);
    assert_eq!(int_to_fx(5), 5 * SCALE);
    assert_eq!(int_to_fx(16384), FX_MAX);
    assert_eq!(int_to_fx(20000), FX_MAX);
}
