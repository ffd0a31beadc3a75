use coralswap::router::{Router, RouterError};

// The pair used by the liquidity tests reports reserves (1000, 2000) in its
// own token order, and the caller's token A is the pair's first token.
const PAIR: Option<(i128, i128)> = Some((1000, 2000));
const EMPTY_PAIR: Option<(i128, i128)> = Some((0, 0));

#[test]
fn test_add_liquidity_expired_deadline() {
    let now = 2000;
    let past_deadline = now - 1000;
    let result = Router::add_liquidity(now, past_deadline, false, None, true, 1000, 1000, 500, 500);
    assert_eq!(result, Err(RouterError::Expired));
    assert_eq!(
        Router::validate_add_liquidity(now, past_deadline, false, 1000, 1000),
        Err(RouterError::Expired)
    );
}

#[test]
fn test_add_liquidity_zero_amount_a() {
    let deadline = 1000;
    let result = Router::add_liquidity(0, deadline, false, None, true, 0, 1000, 0, 500);
    assert_eq!(result, Err(RouterError::ZeroAmount));
}

#[test]
fn test_add_liquidity_zero_amount_b() {
    let deadline = 1000;
    let result = Router::add_liquidity(0, deadline, false, None, true, 1000, 0, 500, 0);
    assert_eq!(result, Err(RouterError::ZeroAmount));
}

#[test]
fn test_add_liquidity_identical_tokens() {
    let deadline = 1000;
    let result = Router::add_liquidity(0, deadline, true, None, true, 1000, 1000, 500, 500);
    assert_eq!(result, Err(RouterError::IdenticalTokens));
}

#[test]
fn test_add_liquidity_pair_not_found() {
    // Factory has no pair registered
    let deadline = 1000;
    let result = Router::add_liquidity(0, deadline, false, None, true, 1000, 1000, 500, 500);
    assert_eq!(result, Err(RouterError::PairNotFound));
}

#[test]
fn test_add_liquidity_first_deposit() {
    // Reserves are zero (first deposit) -- desired amounts are used as-is
    let result = Router::add_liquidity(0, 1000, false, EMPTY_PAIR, true, 5000, 10000, 5000, 10000);
    assert_eq!(result, Ok((5000, 10000)));
}

#[test]
fn test_add_liquidity_proportional_deposit_b_optimal() {
    // amount_b_optimal = 1000 * 2000 / 1000 = 2000 <= 3000 (desired_b)
    let result = Router::add_liquidity(0, 1000, false, PAIR, true, 1000, 3000, 500, 1000);
    assert_eq!(result, Ok((1000, 2000)));
}

#[test]
fn test_add_liquidity_proportional_deposit_a_optimal() {
    // amount_b_optimal = 2000 * 2000 / 1000 = 4000 > 2000 (desired_b)
    // So compute amount_a_optimal = 2000 * 1000 / 2000 = 1000
    let result = Router::add_liquidity(0, 1000, false, PAIR, true, 2000, 2000, 500, 1000);
    assert_eq!(result, Ok((1000, 2000)));
}

#[test]
fn test_add_liquidity_slippage_revert_b() {
    // amount_b_optimal = 500 * 2000 / 1000 = 1000 <= 1500 (desired_b)
    // But 1000 < 1200 (amount_b_min) -> slippage revert
    let result = Router::add_liquidity(0, 1000, false, PAIR, true, 500, 1500, 400, 1200);
    assert_eq!(result, Err(RouterError::SlippageExceeded));
}

#[test]
fn test_add_liquidity_slippage_revert_a() {
    // amount_b_optimal = 3000 * 2000 / 1000 = 6000 > 2000 (desired_b)
    // so compute amount_a_optimal = 2000 * 1000 / 2000 = 1000
    // 1000 < 1500 (amount_a_min) -> slippage revert
    let result = Router::add_liquidity(0, 1000, false, PAIR, true, 3000, 2000, 1500, 1000);
    assert_eq!(result, Err(RouterError::SlippageExceeded));
}

#[test]
fn add_liquidity_orients_reserves_by_token_order() {
    // The caller's token A is the pair's second token: its reserve is 2000.
    let result = Router::add_liquidity(0, 1000, false, PAIR, false, 1000, 3000, 0, 0);
    assert_eq!(result, Ok((1000, 500)));
    assert_eq!(Router::deposit_amounts((1000, 2000), false, 1000, 3000, 0, 0), Ok((1000, 500)));
}

#[test]
fn add_liquidity_one_sided_pool_cannot_be_quoted() {
    let result = Router::add_liquidity(0, 1000, false, Some((0, 2000)), true, 1000, 3000, 0, 0);
    assert_eq!(result, Err(RouterError::InsufficientLiquidity));
}

#[test]
fn add_liquidity_checks_come_in_order() {
    // Expired wins over a zero amount, which wins over identical tokens.
    assert_eq!(
        Router::add_liquidity(5, 4, true, PAIR, true, 0, 0, 0, 0),
        Err(RouterError::Expired)
    );
    assert_eq!(
        Router::add_liquidity(4, 4, true, PAIR, true, 0, 10, 0, 0),
        Err(RouterError::ZeroAmount)
    );
}

#[test]
fn quote_cases() {
    assert_eq!(Router::quote(1000, 1000, 2000), Ok(2000));
    assert_eq!(Router::quote(3, 2, 1), Ok(1));
    assert_eq!(Router::quote(0, 1000, 2000), Err(RouterError::ZeroAmount));
    assert_eq!(Router::quote(10, 0, 2000), Err(RouterError::InsufficientLiquidity));
    assert_eq!(Router::quote(i128::MAX, 1, 2), Err(RouterError::Overflow));
}

#[test]
fn test_remove_liquidity_expired_deadline() {
    let now = 2000;
    let past_deadline = now - 1000;
    let result = Router::remove_liquidity(now, past_deadline, 100, false, None, 50, 50);
    assert_eq!(result, Err(RouterError::Expired));
}

#[test]
fn test_remove_liquidity_zero_amount() {
    let result = Router::remove_liquidity(0, 1000, 0, false, None, 50, 50);
    assert_eq!(result, Err(RouterError::ZeroAmount));
}

#[test]
fn test_remove_liquidity_identical_tokens() {
    let result = Router::remove_liquidity(0, 1000, 100, true, None, 50, 50);
    assert_eq!(result, Err(RouterError::IdenticalTokens));
}

#[test]
fn test_remove_liquidity_pair_not_found() {
    let result = Router::remove_liquidity(0, 1000, 100, false, None, 50, 50);
    assert_eq!(result, Err(RouterError::PairNotFound));
}

#[test]
fn test_remove_liquidity_happy_path() {
    // The pair pays out (500, 1000) on burn; minimums are below those values
    let result = Router::remove_liquidity(0, 1000, 100, false, Some((500, 1000)), 400, 900);
    assert_eq!(result, Ok((500, 1000)));
}

#[test]
fn test_remove_liquidity_exact_minimums() {
    let result = Router::remove_liquidity(0, 1000, 100, false, Some((500, 1000)), 500, 1000);
    assert_eq!(result, Ok((500, 1000)));
}

#[test]
fn test_remove_liquidity_insufficient_output_amount_a() {
    let result = Router::remove_liquidity(0, 1000, 100, false, Some((500, 1000)), 600, 900);
    assert_eq!(result, Err(RouterError::InsufficientOutputAmount));
}

#[test]
fn test_remove_liquidity_insufficient_output_amount_b() {
    let result = Router::remove_liquidity(0, 1000, 100, false, Some((500, 1000)), 400, 1100);
    assert_eq!(result, Err(RouterError::InsufficientOutputAmount));
}

#[test]
fn validate_remove_liquidity_cases() {
    assert_eq!(Router::validate_remove_liquidity(2000, 1000, 100, false), Err(RouterError::Expired));
    assert_eq!(Router::validate_remove_liquidity(0, 1000, -5, false), Err(RouterError::ZeroAmount));
    assert_eq!(Router::validate_remove_liquidity(0, 1000, 100, true), Err(RouterError::IdenticalTokens));
    assert_eq!(Router::validate_remove_liquidity(0, 1000, 100, false), Ok(()));
}
