use coralswap::math::{mul_div, sqrt, BPS_DENOMINATOR, MINIMUM_LIQUIDITY, SCALE};

#[test]
fn constants_have_documented_values() {
    assert_eq!(SCALE, 100_000_000_000_000);
    assert_eq!(BPS_DENOMINATOR, 10_000);
    assert_eq!(MINIMUM_LIQUIDITY, 1_000);
}

#[test]
fn sqrt_small_values() {
    assert_eq!(sqrt(0), 0);
    assert_eq!(sqrt(1), 1);
    assert_eq!(sqrt(2), 1);
    assert_eq!(sqrt(3), 1);
    assert_eq!(sqrt(4), 2);
    assert_eq!(sqrt(15), 3);
    assert_eq!(sqrt(16), 4);
    assert_eq!(sqrt(17), 4);
    assert_eq!(sqrt(99), 9);
    assert_eq!(sqrt(100), 10);
}

#[test]
fn sqrt_of_first_deposit_product() {
    assert_eq!(sqrt(1_000_000_000 * 4_000_000_000), 2_000_000_000);
}

#[test]
fn sqrt_largest_accepted_input() {
    let r = sqrt(i128::MAX - 1);
    assert_eq!(r, 13_043_817_825_332_782_212);
    assert!(r * r <= i128::MAX - 1);
    assert!((r as u128 + 1) * (r as u128 + 1) > (i128::MAX - 1) as u128);
}

#[test]
fn sqrt_of_i128_max() {
    assert_eq!(sqrt(i128::MAX), 13_043_817_825_332_782_212);
}

#[test]
fn sqrt_is_floor_for_many_values() {
    for v in 0..2000i128 {
        let r = sqrt(v);
        assert!(r * r <= v && (r + 1) * (r + 1) > v, "v = {}", v);
    }
}

#[test]
fn mul_div_exact_and_rounding() {
    assert_eq!(mul_div(6, 7, 2), Some(21));
    assert_eq!(mul_div(6, 7, 4), Some(10));
    assert_eq!(mul_div(SCALE, 3, SCALE), Some(3));
}

#[test]
fn mul_div_rounds_toward_zero_for_negatives() {
    assert_eq!(mul_div(-6, 7, 4), Some(-10));
    assert_eq!(mul_div(6, -7, 4), Some(-10));
    assert_eq!(mul_div(6, 7, -4), Some(-10));
    assert_eq!(mul_div(-6, -7, 4), Some(10));
    assert_eq!(mul_div(-6, -7, -4), Some(-10));
}

#[test]
fn mul_div_zero_denominator_is_none() {
    assert_eq!(mul_div(1, 1, 0), None);
    assert_eq!(mul_div(0, 0, 0), None);
}

#[test]
fn mul_div_uses_wide_intermediate() {
    // i128::MAX * 4 overflows i128, but the quotient by 8 fits.
    assert_eq!(mul_div(i128::MAX, 4, 8), Some(i128::MAX / 2));
    assert_eq!(mul_div(i128::MAX, i128::MAX, i128::MAX), Some(i128::MAX));
}

#[test]
fn mul_div_result_out_of_range_is_none() {
    assert_eq!(mul_div(i128::MAX, 2, 1), None);
    assert_eq!(mul_div(i128::MIN, -1, 1), None);
    assert_eq!(mul_div(i128::MIN, i128::MIN, 1), None);
}

#[test]
fn mul_div_reaches_i128_min() {
    assert_eq!(mul_div(i128::MIN, 1, 1), Some(i128::MIN));
    assert_eq!(mul_div(i128::MIN, 2, 2), Some(i128::MIN));
    assert_eq!(mul_div(i128::MIN, 1, -1), None);
}
