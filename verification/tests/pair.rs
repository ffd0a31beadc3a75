use coralswap::math::MINIMUM_LIQUIDITY;
use coralswap::pair::{Pair, PairError, PairState};

fn fresh_pair() -> PairState {
    Pair::initialize(None, 0).unwrap()
}

#[test]
fn test_first_deposit() {
    let state = fresh_pair();
    let amount_a = 1_000_000_000;
    let amount_b = 4_000_000_000;

    // expected = sqrt(1e9 * 4e9) - 1000 = 2e9 - 1000
    let expected_liquidity = 2_000_000_000 - MINIMUM_LIQUIDITY;
    let outcome = Pair::mint(state, amount_a, amount_b, 0).unwrap();

    assert_eq!(outcome.liquidity, expected_liquidity);
    // The depositor receives `liquidity`; the pair keeps MINIMUM_LIQUIDITY.
    assert_eq!(outcome.locked_liquidity, MINIMUM_LIQUIDITY);

    let (res_a, res_b, _) = Pair::get_reserves(outcome.state);
    assert_eq!(res_a, amount_a);
    assert_eq!(res_b, amount_b);
}

#[test]
fn test_proportional_deposit() {
    let state = fresh_pair();

    // User 1 mint
    let first = Pair::mint(state, 1_000_000, 1_000_000, 0).unwrap();
    let supply_after_1 = first.liquidity + first.locked_liquidity;

    // User 2 mint (double the reserves)
    let second = Pair::mint(first.state, 3_000_000, 3_000_000, supply_after_1).unwrap();
    let liquidity2 = second.liquidity;

    // Should receive exactly 2x the previous total supply
    assert_eq!(liquidity2, 2 * supply_after_1);
}

#[test]
fn test_dust_deposit_fails() {
    let state = fresh_pair();

    // sqrt(10*10) = 10, which is < MINIMUM_LIQUIDITY (1000)
    let result = Pair::mint(state, 10, 10, 0);
    assert!(result.is_err());
    assert_eq!(result, Err(PairError::InsufficientLiquidityMinted));
}

#[test]
fn sync_accumulates_price_after_ten_seconds() {
    let state = fresh_pair();

    // Reserves: 100 TokenA, 400 TokenB (price B/A = 4)
    let synced = Pair::sync(state, 100, 400, 0).unwrap();
    // Move time forward 10 seconds and sync again.
    let later = Pair::sync(synced, 100, 400, 10).unwrap();

    let (res_a, res_b, last_time) = Pair::get_reserves(later);
    assert_eq!(res_a, 100);
    assert_eq!(res_b, 400);
    assert_eq!(last_time, 10);
    // price_a grows by 400 * 10 / 100, price_b by 100 * 10 / 400.
    assert_eq!(later.price_a_cumulative, 40);
    assert_eq!(later.price_b_cumulative, 2);
}

#[test]
fn small_first_deposit_below_minimum_liquidity_fails() {
    // sqrt(100 * 400) = 200 is below MINIMUM_LIQUIDITY.
    assert_eq!(Pair::mint(fresh_pair(), 100, 400, 0), Err(PairError::InsufficientLiquidityMinted));
}

#[test]
fn initialize_twice_fails() {
    let state = fresh_pair();
    assert_eq!(Pair::initialize(Some(state), 5), Err(PairError::AlreadyInitialized));
}

#[test]
fn initialize_stamps_time_and_zeroes_state() {
    let state = Pair::initialize(None, 77).unwrap();
    assert_eq!(
        state,
        PairState {
            reserve_a: 0,
            reserve_b: 0,
            block_timestamp_last: 77,
            price_a_cumulative: 0,
            price_b_cumulative: 0,
            k_last: 0,
        }
    );
}

#[test]
fn mint_sets_k_last_and_amounts() {
    let state = fresh_pair();
    let outcome = Pair::mint(state, 4_000, 9_000, 0).unwrap();
    assert_eq!(outcome.amount_a, 4_000);
    assert_eq!(outcome.amount_b, 9_000);
    assert_eq!(outcome.liquidity, 6_000 - MINIMUM_LIQUIDITY);
    assert_eq!(outcome.state.k_last, 36_000_000);
}

#[test]
fn mint_takes_smaller_share() {
    let state = PairState { reserve_a: 1_000, reserve_b: 2_000, k_last: 2_000_000, ..fresh_pair() };
    // deposit 100 A (10%) and 400 B (20%) into supply 5_000: min(500, 1000)
    let outcome = Pair::mint(state, 1_100, 2_400, 5_000).unwrap();
    assert_eq!(outcome.liquidity, 500);
    assert_eq!(outcome.locked_liquidity, 0);
}

#[test]
fn mint_product_overflow() {
    let state = fresh_pair();
    assert_eq!(Pair::mint(state, i128::MAX, 2, 0), Err(PairError::Overflow));
}

#[test]
fn mint_zero_share_fails() {
    let state = PairState { reserve_a: 1_000, reserve_b: 1_000, ..fresh_pair() };
    assert_eq!(Pair::mint(state, 1_000, 1_500, 10), Err(PairError::InsufficientLiquidityMinted));
}

#[test]
fn burn_pays_pro_rata() {
    let state = PairState { reserve_a: 1_000, reserve_b: 4_000, k_last: 4_000_000, ..fresh_pair() };
    // The pair holds 1_500 LP: 500 sent in plus the 1_000 locked minimum.
    let outcome = Pair::burn(state, 1_500, 2_000).unwrap();
    assert_eq!(outcome.liquidity_burned, 500);
    assert_eq!(outcome.amount_a, 250);
    assert_eq!(outcome.amount_b, 1_000);
    assert_eq!(outcome.state.reserve_a, 750);
    assert_eq!(outcome.state.reserve_b, 3_000);
    assert_eq!(outcome.state.k_last, 2_250_000);
}

#[test]
fn burn_too_little_fails() {
    let state = PairState { reserve_a: 1_000, reserve_b: 4_000, ..fresh_pair() };
    assert_eq!(Pair::burn(state, 1_001, 2_000), Err(PairError::InsufficientLiquidityBurned));
    // Only the locked minimum in the pair: nothing to burn.
    assert_eq!(Pair::burn(state, 1_000, 2_000), Err(PairError::InsufficientLiquidityBurned));
}

#[test]
fn burn_overflow() {
    let state = PairState { reserve_a: i128::MAX, reserve_b: 4_000, ..fresh_pair() };
    assert_eq!(Pair::burn(state, 1_002, 10), Err(PairError::Overflow));
}

fn pool() -> PairState {
    PairState { reserve_a: 1_000_000, reserve_b: 1_000_000, k_last: 1_000_000_000_000, ..fresh_pair() }
}

#[test]
fn swap_request_checks() {
    assert_eq!(Pair::validate_swap(&mut false, Some(pool()), 0, 0), Err(PairError::InsufficientOutputAmount));
    assert_eq!(Pair::validate_swap(&mut false, None, 0, 0), Err(PairError::InsufficientOutputAmount));
    assert_eq!(Pair::validate_swap(&mut false, None, 0, 10), Err(PairError::NotInitialized));
    assert_eq!(
        Pair::validate_swap(&mut false, Some(pool()), 1_000_000, 0),
        Err(PairError::InsufficientLiquidity)
    );
    assert_eq!(
        Pair::validate_swap(&mut false, Some(pool()), 0, 1_000_001),
        Err(PairError::InsufficientLiquidity)
    );
    assert_eq!(Pair::validate_swap(&mut false, Some(pool()), 0, 10), Ok(()));
}

#[test]
fn swap_with_enough_input_succeeds() {
    // Send 10_000 A in, take 9_000 B out, 30 bps fee.
    let outcome = Pair::swap(&mut true, pool(), 0, 9_000, 1_010_000, 991_000, 30, 42).unwrap();
    assert_eq!(outcome.amount_a_in, 10_000);
    assert_eq!(outcome.amount_b_in, 0);
    assert_eq!(outcome.trade_size, 10_000);
    assert_eq!(outcome.total_reserve, 2_000_000);
    assert_eq!(outcome.state.reserve_a, 1_010_000);
    assert_eq!(outcome.state.reserve_b, 991_000);
    assert_eq!(outcome.state.k_last, 1_010_000 * 991_000);
    assert_eq!(outcome.state.block_timestamp_last, 42);
    // old price 10_000, new price 991_000 * 10_000 / 1_010_000 = 9_811
    assert_eq!(outcome.price_delta, 189);
    assert!(outcome.state.k_last >= pool().k_last);
}

#[test]
fn swap_taking_too_much_breaks_k() {
    let result = Pair::swap(&mut true, pool(), 0, 9_950, 1_010_000, 990_050, 30, 42);
    assert_eq!(result, Err(PairError::InvalidK));
}

#[test]
fn swap_without_input_fails() {
    let result = Pair::swap(&mut true, pool(), 0, 9_000, 1_000_000, 991_000, 30, 42);
    assert_eq!(result, Err(PairError::InsufficientInputAmount));
}

#[test]
fn swap_repeats_request_checks() {
    assert_eq!(
        Pair::swap(&mut true, pool(), 0, 0, 1_000_000, 1_000_000, 30, 1),
        Err(PairError::InsufficientOutputAmount)
    );
    assert_eq!(
        Pair::swap(&mut true, pool(), 2_000_000, 0, 1_000_000, 1_000_000, 30, 1),
        Err(PairError::InsufficientLiquidity)
    );
}

#[test]
fn swap_balance_overflow() {
    let result = Pair::swap(&mut true, pool(), 0, 10, i128::MAX / 2, 999_990, 30, 1);
    assert_eq!(result, Err(PairError::Overflow));
}

#[test]
fn swap_fee_can_exhaust_adjusted_balance() {
    // A fee above 100% (20_000 bps) drives the adjusted A balance negative.
    let state = PairState { reserve_a: 0, reserve_b: 1_000, ..fresh_pair() };
    let result = Pair::swap(&mut true, state, -5, 10, 100, 990, 20_000, 1);
    assert_eq!(result, Err(PairError::InsufficientOutputAmount));
}

#[test]
fn sync_without_elapsed_time_keeps_accumulators() {
    let state = PairState { reserve_a: 100, reserve_b: 400, block_timestamp_last: 50, ..fresh_pair() };
    let next = Pair::sync(state, 120, 380, 50).unwrap();
    assert_eq!(next.price_a_cumulative, 0);
    assert_eq!(next.price_b_cumulative, 0);
    assert_eq!((next.reserve_a, next.reserve_b, next.block_timestamp_last), (120, 380, 50));
    // A clock that went backwards counts as no elapsed time.
    let back = Pair::sync(state, 120, 380, 10).unwrap();
    assert_eq!(back.price_a_cumulative, 0);
    assert_eq!(back.block_timestamp_last, 10);
}

#[test]
fn sync_accumulator_overflow() {
    let state = PairState {
        reserve_a: 1,
        reserve_b: 1,
        block_timestamp_last: 0,
        price_a_cumulative: i128::MAX,
        ..fresh_pair()
    };
    assert_eq!(Pair::sync(state, 1, 1, 1), Err(PairError::Overflow));
}

#[test]
fn mint_panic_conditions() {
    let state = fresh_pair();
    assert!(!Pair::mint_would_panic(state, 4_000, 9_000, 0));
    // A first deposit whose product is negative has no square root.
    assert!(Pair::mint_would_panic(state, -4_000, 9_000, 0));
    // A product of i128::MAX is a valid square-root input.
    assert!(!Pair::mint_would_panic(state, i128::MAX, 1, 0));
    // Depositing against a zero reserve with supply outstanding divides by zero.
    assert!(Pair::mint_would_panic(state, 10, 10, 5));
    // The deposit itself must be an i128.
    let negative = PairState { reserve_a: -10, ..state };
    assert!(Pair::mint_would_panic(negative, i128::MAX, 0, 0));
    // An overflowing product is an error, not a panic.
    assert!(!Pair::mint_would_panic(state, i128::MAX, 2, 0));
}

#[test]
fn burn_panic_conditions() {
    let state = PairState { reserve_a: 1_000, reserve_b: 4_000, ..fresh_pair() };
    assert!(!Pair::burn_would_panic(state, 1_500, 2_000));
    assert!(Pair::burn_would_panic(state, 1_500, 0));
    let huge = PairState { reserve_a: i128::MAX, reserve_b: 4_000, ..fresh_pair() };
    assert!(!Pair::burn_would_panic(huge, 1_002, 0));
}

#[test]
fn swap_panic_conditions() {
    assert!(!Pair::swap_would_panic(pool(), 0, 9_000, 1_010_000, 991_000, 30));
    // A negative output can push the remaining reserve past i128::MAX.
    let state = PairState { reserve_a: i128::MAX, reserve_b: 1_000, ..fresh_pair() };
    assert!(Pair::swap_would_panic(state, -1, 10, 5, 990, 30));
    // Rejected requests never reach the arithmetic.
    assert!(!Pair::swap_would_panic(state, 0, 0, 5, 990, 30));
}

#[test]
fn mint_then_burn_returns_at_most_the_deposit() {
    let state = PairState { reserve_a: 1_000_000, reserve_b: 3_000_000, ..fresh_pair() };
    let supply = 1_700_000;
    // Deposit 10_007 A and 30_011 B.
    let minted = Pair::mint(state, 1_010_007, 3_030_011, supply).unwrap();
    // The new LP tokens are sent to the pair, which holds the locked minimum.
    let pair_lp = minted.liquidity + MINIMUM_LIQUIDITY;
    let burned = Pair::burn(minted.state, pair_lp, supply + minted.liquidity).unwrap();
    assert_eq!(burned.liquidity_burned, minted.liquidity);
    assert!(burned.amount_a <= 10_007);
    assert!(burned.amount_b <= 30_011);
    assert!(burned.amount_a > 0 && burned.amount_b > 0);
}

#[test]
fn later_deposit_does_not_dilute() {
    let state = PairState { reserve_a: 1_000, reserve_b: 2_000, ..fresh_pair() };
    let minted = Pair::mint(state, 1_333, 2_500, 900).unwrap();
    // deposit shares: 333 * 900 / 1000 = 299, 500 * 900 / 2000 = 225
    assert_eq!(minted.liquidity, 225);
    assert!(minted.liquidity * 1_000 <= 333 * 900);
    assert!(minted.liquidity * 2_000 <= 500 * 900);
}

#[test]
fn burn_leaves_locked_minimum_liquidity() {
    // Supply 1_010: 1_000 locked in the pair, 10 held by a provider who
    // sends them back to the pair.
    let state = PairState { reserve_a: 1_010, reserve_b: 2_020, ..fresh_pair() };
    let burned = Pair::burn(state, 1_010, 1_010).unwrap();
    assert_eq!(burned.liquidity_burned, 10);
    assert_eq!((burned.amount_a, burned.amount_b), (10, 20));
    assert_eq!((burned.state.reserve_a, burned.state.reserve_b), (1_000, 2_000));
    assert_eq!(burned.state.k_last, 2_000_000);
    // The supply left is exactly the locked minimum.
    assert_eq!(1_010 - burned.liquidity_burned, MINIMUM_LIQUIDITY);
}

#[test]
fn burnable_liquidity_keeps_the_minimum() {
    assert_eq!(Pair::burnable_liquidity(0), 0);
    assert_eq!(Pair::burnable_liquidity(999), 0);
    assert_eq!(Pair::burnable_liquidity(1_000), 0);
    assert_eq!(Pair::burnable_liquidity(1_001), 1);
    assert_eq!(Pair::burnable_liquidity(5_000), 4_000);
}

#[test]
fn first_deposit_with_largest_product() {
    let outcome = Pair::mint(fresh_pair(), i128::MAX, 1, 0).unwrap();
    assert_eq!(outcome.liquidity, 13_043_817_825_332_782_212 - MINIMUM_LIQUIDITY);
    assert_eq!(outcome.state.k_last, i128::MAX);
}

#[test]
fn swap_lock_refuses_reentry() {
    let mut lock = true;
    assert_eq!(Pair::validate_swap(&mut lock, Some(pool()), 0, 10), Err(PairError::Locked));
    assert!(lock, "the outer swap keeps its lock");
}

#[test]
fn swap_lock_released_on_refused_request() {
    let mut lock = false;
    assert_eq!(
        Pair::validate_swap(&mut lock, Some(pool()), 0, 0),
        Err(PairError::InsufficientOutputAmount)
    );
    assert!(!lock);
    assert_eq!(Pair::validate_swap(&mut lock, None, 0, 10), Err(PairError::NotInitialized));
    assert!(!lock);
}

#[test]
fn swap_lock_held_until_settled_then_freed() {
    let mut lock = false;
    assert_eq!(Pair::validate_swap(&mut lock, Some(pool()), 0, 9_000), Ok(()));
    assert!(lock);
    let result = Pair::swap(&mut lock, pool(), 0, 9_000, 1_000_000, 991_000, 30, 42);
    assert_eq!(result, Err(PairError::InsufficientInputAmount));
    assert!(!lock, "the lock is freed even on error");
    assert_eq!(Pair::validate_swap(&mut lock, Some(pool()), 0, 9_000), Ok(()));
    assert!(Pair::swap(&mut lock, pool(), 0, 9_000, 1_010_000, 991_000, 30, 42).is_ok());
    assert!(!lock);
}
