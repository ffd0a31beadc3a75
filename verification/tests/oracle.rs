use coralswap::oracle::{consult_twap, update_cumulative_prices};

#[test]
fn basic_price_accumulation() {
    let mut price_a: i128 = 0;
    let mut price_b: i128 = 0;

    // reserve_a = 100, reserve_b = 200, time = 10
    // price_a += (200/100) * 10 = 20
    // price_b += (100/200) * 10 = 0 (integer division)
    update_cumulative_prices(100, 200, 10, &mut price_a, &mut price_b);
    assert_eq!(price_a, 20);
    assert_eq!(price_b, 0);
}

#[test]
fn zero_reserve_a_skips_update() {
    let mut price_a: i128 = 42;
    let mut price_b: i128 = 42;

    update_cumulative_prices(0, 100, 10, &mut price_a, &mut price_b);
    assert_eq!(price_a, 42);
    assert_eq!(price_b, 42);
}

#[test]
fn zero_reserve_b_skips_update() {
    let mut price_a: i128 = 42;
    let mut price_b: i128 = 42;

    update_cumulative_prices(100, 0, 10, &mut price_a, &mut price_b);
    assert_eq!(price_a, 42);
    assert_eq!(price_b, 42);
}

#[test]
fn zero_time_elapsed_skips_update() {
    let mut price_a: i128 = 42;
    let mut price_b: i128 = 42;

    update_cumulative_prices(100, 200, 0, &mut price_a, &mut price_b);
    assert_eq!(price_a, 42);
    assert_eq!(price_b, 42);
}

#[test]
fn wrapping_near_i128_max() {
    let mut price_a: i128 = i128::MAX - 10;
    let mut price_b: i128 = 0;

    // reserve_b/reserve_a = 100/1 = 100, * time 1 = 100
    // i128::MAX - 10 + 100 wraps
    update_cumulative_prices(1, 100, 1, &mut price_a, &mut price_b);

    assert!(price_a < 0 || price_a < i128::MAX - 10, "should wrap around i128::MAX");
}

#[test]
fn twap_basic_computation() {
    let start: i128 = 100;
    let end: i128 = 300;
    let elapsed: u64 = 10;

    let twap = consult_twap(start, end, elapsed);
    assert_eq!(twap, 20); // (300-100)/10
}

#[test]
fn twap_handles_wrap_around() {
    // Simulate wrap: start near MAX, end wrapped to small positive
    let start: i128 = i128::MAX - 5;
    let end: i128 = 10; // wrapped around

    let twap = consult_twap(start, end, 1);
    assert_eq!(twap, 16);
}

#[test]
fn twap_zero_time_returns_zero() {
    assert_eq!(consult_twap(100, 200, 0), 0);
}

#[test]
fn negative_price_accumulates_toward_zero() {
    // -7 / 2 rounds toward zero to -3; times 4 seconds is -12.
    let mut price_a: i128 = 5;
    let mut price_b: i128 = 5;
    update_cumulative_prices(2, -7, 4, &mut price_a, &mut price_b);
    assert_eq!(price_a, 5 - 12);
    assert_eq!(price_b, 5); // 2 / -7 rounds to 0
}

#[test]
fn wrapped_accumulator_value_is_exact() {
    let mut price_a: i128 = i128::MAX - 10;
    let mut price_b: i128 = 0;
    update_cumulative_prices(1, 100, 1, &mut price_a, &mut price_b);
    // MAX - 10 + 100 = MAX + 90, which wraps to MIN + 89.
    assert_eq!(price_a, i128::MIN + 89);
    assert_eq!(price_b, 0);
}

#[test]
fn twap_across_an_update_recovers_spot_price() {
    let start_a: i128 = i128::MAX - 50;
    let start_b: i128 = 7;
    let mut price_a = start_a;
    let mut price_b = start_b;
    update_cumulative_prices(250, 1000, 60, &mut price_a, &mut price_b);
    assert_eq!(consult_twap(start_a, price_a, 60), 4);
    assert_eq!(consult_twap(start_b, price_b, 60), 0);
}

#[test]
fn twap_rounds_down() {
    assert_eq!(consult_twap(0, 29, 10), 2);
    assert_eq!(consult_twap(-100, 100, 3), 66);
}

#[test]
fn twap_of_falling_accumulator_is_negative() {
    assert_eq!(consult_twap(100, 50, 1), -50);
    // -55 / 2 rounds toward zero.
    assert_eq!(consult_twap(100, 45, 2), -27);
}

#[test]
fn twap_through_real_wrap_around() {
    // MAX - 10 grown by 100 wraps to MIN + 89; the delta reads back as 100.
    assert_eq!(consult_twap(i128::MAX - 10, i128::MIN + 89, 4), 25);
}
