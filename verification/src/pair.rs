//! The decision logic of a constant-product liquidity pair.
//!
//! Each operation takes the pair's stored numbers together with the values
//! the host observed (token balances, LP supply, ledger time) and returns
//! the amounts to move and the pair's next state, or the error the pair
//! answers with. Storage, token transfers, authorization and events are the
//! host's part.
use crate::reentrancy::{acquire, release};
use crate::math::{
    div_trunc, fits_i128, floor_sqrt, is_floor_sqrt, lemma_floor_sqrt, sqrt, tdiv, MINIMUM_LIQUIDITY,
};
use vstd::arithmetic::div_mod::{
    lemma_div_is_ordered, lemma_div_multiples_vanish, lemma_fundamental_div_mod, lemma_mod_bound,
};
use vstd::arithmetic::mul::lemma_mul_inequality;
use vstd::prelude::*;

verus! {

/// Errors returned by pair operations.
#[derive(Clone, Copy, Debug, PartialEq, Eq, Structural)]
pub enum PairError {
    AlreadyInitialized,
    NotInitialized,
    InsufficientLiquidityMinted,
    InsufficientLiquidityBurned,
    InsufficientOutputAmount,
    InsufficientLiquidity,
    InsufficientInputAmount,
    InvalidK,
    Overflow,
    Locked,
}

/// The numeric state a pair keeps between operations.
#[derive(Clone, Copy, Debug, PartialEq, Eq, Structural)]
pub struct PairState {
    pub reserve_a: i128,
    pub reserve_b: i128,
    pub block_timestamp_last: u64,
    pub price_a_cumulative: i128,
    pub price_b_cumulative: i128,
    pub k_last: i128,
}

/// What a successful mint hands out and leaves behind.
#[derive(Clone, Copy, Debug, PartialEq, Eq, Structural)]
pub struct MintOutcome {
    /// Token A deposited since the last reserve update.
    pub amount_a: i128,
    /// Token B deposited since the last reserve update.
    pub amount_b: i128,
    /// LP tokens minted to the depositor.
    pub liquidity: i128,
    /// LP tokens minted to the pair itself and locked forever
    /// (`MINIMUM_LIQUIDITY` on the first deposit, otherwise 0).
    pub locked_liquidity: i128,
    /// The pair's state after the mint.
    pub state: PairState,
}

/// What a successful burn pays out and leaves behind.
#[derive(Clone, Copy, Debug, PartialEq, Eq, Structural)]
pub struct BurnOutcome {
    /// LP tokens burned: the pair's balance above the locked minimum.
    pub liquidity_burned: i128,
    pub amount_a: i128,
    pub amount_b: i128,
    pub state: PairState,
}

/// What a successful swap took in, the figures that feed the volatility
/// tracker, and the pair's next state.
#[derive(Clone, Copy, Debug, PartialEq, Eq, Structural)]
pub struct SwapOutcome {
    pub amount_a_in: i128,
    pub amount_b_in: i128,
    /// Absolute change of the B-per-A price, scaled by 10_000.
    pub price_delta: i128,
    /// The larger of the two input amounts.
    pub trade_size: i128,
    /// Sum of the reserves before the swap, saturating at `i128::MAX`.
    pub total_reserve: i128,
    pub state: PairState,
}

/// Minimum of two integers.
pub open spec fn min_int(a: int, b: int) -> int {
    if a < b {
        a
    } else {
        b
    }
}

/// Maximum of two integers.
pub open spec fn max_int(a: int, b: int) -> int {
    if a < b {
        b
    } else {
        a
    }
}

/// The state of a freshly initialized pair: empty reserves and
/// accumulators, stamped with the initialization time.
pub open spec fn initial_state(timestamp: u64) -> PairState {
    PairState {
        reserve_a: 0,
        reserve_b: 0,
        block_timestamp_last: timestamp,
        price_a_cumulative: 0,
        price_b_cumulative: 0,
        k_last: 0,
    }
}

/// `s` with new reserves and `k_last` set to their product; the timestamp
/// and accumulators are kept.
pub open spec fn restated(s: PairState, reserve_a: int, reserve_b: int) -> PairState {
    PairState {
        reserve_a: reserve_a as i128,
        reserve_b: reserve_b as i128,
        k_last: (reserve_a * reserve_b) as i128,
        ..s
    }
}

// ── Mint ─────────────────────────────────────────────────────────────────

/// LP tokens owed for a deposit, or the error the pair answers with.
///
/// The deposit is what the balances exceed the reserves by. The first
/// deposit (no LP supply) earns the integer geometric mean of the two
/// amounts minus `MINIMUM_LIQUIDITY`; later deposits earn the smaller of the
/// two pro-rata shares of the supply. Every product must fit in an `i128`,
/// including the new `k` (the product of the balances).
pub open spec fn mint_liquidity(
    s: PairState,
    balance_a: int,
    balance_b: int,
    total_supply: int,
) -> Result<int, PairError> {
    let amount_a = balance_a - s.reserve_a;
    let amount_b = balance_b - s.reserve_b;
    let minted: Result<int, PairError> = if total_supply == 0 {
        if !fits_i128(amount_a * amount_b) {
            Err(PairError::Overflow)
        } else {
            Ok(floor_sqrt(amount_a * amount_b) - MINIMUM_LIQUIDITY)
        }
    } else if !fits_i128(amount_a * total_supply) || !fits_i128(amount_b * total_supply) {
        Err(PairError::Overflow)
    } else {
        Ok(
            min_int(
                tdiv(amount_a * total_supply, s.reserve_a as int),
                tdiv(amount_b * total_supply, s.reserve_b as int),
            ),
        )
    };
    match minted {
        Err(e) => Err(e),
        Ok(liquidity) => if liquidity <= 0 {
            Err(PairError::InsufficientLiquidityMinted)
        } else if !fits_i128(balance_a * balance_b) {
            Err(PairError::Overflow)
        } else {
            Ok(liquidity)
        },
    }
}

/// The inputs on which the mint arithmetic does not trap: the deposits are
/// `i128`s, a first deposit's product is not negative, and no
/// division by a zero reserve (or `i128::MIN / -1`) is reached.
pub open spec fn mint_is_defined(
    s: PairState,
    balance_a: int,
    balance_b: int,
    total_supply: int,
) -> bool {
    let amount_a = balance_a - s.reserve_a;
    let amount_b = balance_b - s.reserve_b;
    &&& fits_i128(amount_a)
    &&& fits_i128(amount_b)
    &&& (total_supply == 0 && fits_i128(amount_a * amount_b)) ==> 0 <= amount_a * amount_b
    &&& (total_supply != 0 && fits_i128(amount_a * total_supply)) ==> s.reserve_a != 0 && !(
    amount_a * total_supply == i128::MIN && s.reserve_a == -1)
    &&& (total_supply != 0 && fits_i128(amount_a * total_supply) && fits_i128(
        amount_b * total_supply,
    )) ==> s.reserve_b != 0 && !(amount_b * total_supply == i128::MIN && s.reserve_b == -1)
}

// ── Burn ─────────────────────────────────────────────────────────────────

/// The LP tokens a burn destroys out of the pair's LP balance: everything
/// above the `MINIMUM_LIQUIDITY` that the first deposit locked in the pair,
/// and nothing when the balance does not exceed it.
pub open spec fn burnable_liquidity(lp_balance: int) -> int {
    if lp_balance > MINIMUM_LIQUIDITY {
        lp_balance - MINIMUM_LIQUIDITY
    } else {
        0
    }
}

/// Token amounts paid out for a burn when the pair holds `lp_balance` LP
/// tokens, or the error the pair answers with: the `burnable_liquidity` is
/// burned, and each amount is its share of the reserve,
/// rounding toward zero; both must be positive, and the products involved,
/// including the new `k`, must fit in an `i128`.
pub open spec fn burn_amounts(s: PairState, lp_balance: int, total_supply: int) -> Result<
    (int, int),
    PairError,
> {
    let burned = burnable_liquidity(lp_balance);
    if !fits_i128(burned * s.reserve_a) || !fits_i128(burned * s.reserve_b) {
        Err(PairError::Overflow)
    } else {
        let amount_a = tdiv(burned * s.reserve_a, total_supply);
        let amount_b = tdiv(burned * s.reserve_b, total_supply);
        if amount_a <= 0 || amount_b <= 0 {
            Err(PairError::InsufficientLiquidityBurned)
        } else if !fits_i128((s.reserve_a - amount_a) * (s.reserve_b - amount_b)) {
            Err(PairError::Overflow)
        } else {
            Ok((amount_a, amount_b))
        }
    }
}

/// The inputs on which the burn arithmetic does not trap: no division by a
/// zero supply (or `i128::MIN / -1`) is reached, and the reserves can be
/// reduced by the payouts.
pub open spec fn burn_is_defined(s: PairState, lp_balance: int, total_supply: int) -> bool {
    let burned = burnable_liquidity(lp_balance);
    &&& fits_i128(burned * s.reserve_a) ==> total_supply != 0 && !(burned * s.reserve_a
        == i128::MIN && total_supply == -1)
    &&& (fits_i128(burned * s.reserve_a) && fits_i128(burned * s.reserve_b))
        ==> !(burned * s.reserve_b == i128::MIN && total_supply == -1)
    &&& (fits_i128(burned * s.reserve_a) && fits_i128(burned * s.reserve_b)
        && total_supply != 0) ==> fits_i128(
        s.reserve_a - tdiv(burned * s.reserve_a, total_supply),
    ) && fits_i128(s.reserve_b - tdiv(burned * s.reserve_b, total_supply))
}

// ── Swap ─────────────────────────────────────────────────────────────────

/// Basis-point scale of the fee-adjusted balances.
pub open spec fn bps() -> int {
    10_000
}

/// The input amounts a swap is credited with: how far each balance exceeds
/// the reserve left after the requested output, floored at zero.
pub open spec fn swap_amounts_in(
    s: PairState,
    amount_a_out: int,
    amount_b_out: int,
    balance_a: int,
    balance_b: int,
) -> (int, int) {
    (
        max_int(balance_a - (s.reserve_a - amount_a_out), 0),
        max_int(balance_b - (s.reserve_b - amount_b_out), 0),
    )
}

/// Whether a swap request passes the checks made before any token moves:
/// some output is requested and each output is below its reserve.
pub open spec fn swap_request_error(s: PairState, amount_a_out: int, amount_b_out: int) -> Option<
    PairError,
> {
    if amount_a_out <= 0 && amount_b_out <= 0 {
        Some(PairError::InsufficientOutputAmount)
    } else if amount_a_out >= s.reserve_a || amount_b_out >= s.reserve_b {
        Some(PairError::InsufficientLiquidity)
    } else {
        None
    }
}

/// The input amounts credited to a swap, or the error the pair answers with.
///
/// After the request checks, some input must have arrived; each balance is
/// scaled by 10_000 and reduced by its input times the fee in basis points;
/// both adjusted balances must be positive, and their product must be at
/// least the old reserve product scaled by 10_000^2 (the fee-adjusted
/// constant-product check). Every product and difference must fit in an
/// `i128`.
pub open spec fn swap_result(
    s: PairState,
    amount_a_out: int,
    amount_b_out: int,
    balance_a: int,
    balance_b: int,
    fee_bps: int,
) -> Result<(int, int), PairError> {
    let amounts_in = swap_amounts_in(s, amount_a_out, amount_b_out, balance_a, balance_b);
    let amount_a_in = amounts_in.0;
    let amount_b_in = amounts_in.1;
    let adjusted_a = balance_a * bps() - amount_a_in * fee_bps;
    let adjusted_b = balance_b * bps() - amount_b_in * fee_bps;
    if let Some(e) = swap_request_error(s, amount_a_out, amount_b_out) {
        Err(e)
    } else if amount_a_in <= 0 && amount_b_in <= 0 {
        Err(PairError::InsufficientInputAmount)
    } else if !fits_i128(balance_a * bps()) || !fits_i128(adjusted_a) || !fits_i128(
        balance_b * bps(),
    ) || !fits_i128(adjusted_b) {
        Err(PairError::Overflow)
    } else if adjusted_a <= 0 || adjusted_b <= 0 {
        Err(PairError::InsufficientOutputAmount)
    } else if !fits_i128(s.reserve_a * s.reserve_b * (bps() * bps())) || !fits_i128(
        adjusted_a * adjusted_b,
    ) {
        Err(PairError::Overflow)
    } else if adjusted_a * adjusted_b < s.reserve_a * s.reserve_b * (bps() * bps()) {
        Err(PairError::InvalidK)
    } else {
        Ok((amount_a_in, amount_b_in))
    }
}

/// The B-per-A price scaled by 10_000, rounding toward zero; 0 when there is
/// no token A.
pub open spec fn scaled_price(amount_a: int, amount_b: int) -> int {
    if amount_a > 0 {
        tdiv(amount_b * bps(), amount_a)
    } else {
        0
    }
}

/// The inputs on which crediting and checking a swap does not trap: the
/// subtractions that credit the inputs and the input-times-fee products are
/// `i128`s wherever they are reached.
pub open spec fn swap_checks_are_defined(
    s: PairState,
    amount_a_out: int,
    amount_b_out: int,
    balance_a: int,
    balance_b: int,
    fee_bps: int,
) -> bool {
    let amounts_in = swap_amounts_in(s, amount_a_out, amount_b_out, balance_a, balance_b);
    let passes_request = swap_request_error(s, amount_a_out, amount_b_out) is None;
    let has_input = amounts_in.0 > 0 || amounts_in.1 > 0;
    &&& passes_request ==> fits_i128(s.reserve_a - amount_a_out) && fits_i128(
        balance_a - (s.reserve_a - amount_a_out),
    ) && fits_i128(s.reserve_b - amount_b_out) && fits_i128(
        balance_b - (s.reserve_b - amount_b_out),
    )
    &&& (passes_request && has_input && fits_i128(balance_a * bps())) ==> fits_i128(
        amounts_in.0 * fee_bps,
    )
    &&& (passes_request && has_input && fits_i128(balance_a * bps()) && fits_i128(
        balance_a * bps() - amounts_in.0 * fee_bps,
    ) && fits_i128(balance_b * bps())) ==> fits_i128(amounts_in.1 * fee_bps)
}

/// The inputs on which the swap arithmetic does not trap: crediting and
/// checking does not trap, and on success the price difference and the new
/// `k` are `i128`s.
pub open spec fn swap_is_defined(
    s: PairState,
    amount_a_out: int,
    amount_b_out: int,
    balance_a: int,
    balance_b: int,
    fee_bps: int,
) -> bool {
    &&& swap_checks_are_defined(s, amount_a_out, amount_b_out, balance_a, balance_b, fee_bps)
    &&& swap_result(s, amount_a_out, amount_b_out, balance_a, balance_b, fee_bps) is Ok
        ==> fits_i128(balance_a * balance_b) && fits_i128(
        scaled_price(balance_a, balance_b) - scaled_price(s.reserve_a as int, s.reserve_b as int),
    )
}

/// The answer to a swap request before any token moves: the request checks,
/// with `NotInitialized` (when `state` is `None`) coming after the check
/// that some output is requested.
pub open spec fn swap_request_answer(
    state: Option<PairState>,
    amount_a_out: int,
    amount_b_out: int,
) -> Result<(), PairError> {
    if amount_a_out <= 0 && amount_b_out <= 0 {
        Err(PairError::InsufficientOutputAmount)
    } else {
        match state {
            None => Err(PairError::NotInitialized),
            Some(s) => match swap_request_error(s, amount_a_out, amount_b_out) {
                Some(e) => Err(e),
                None => Ok(()),
            },
        }
    }
}

/// What a settled swap reports besides its inputs: the next state, the
/// trade size, the saturating reserve total and the price change.
pub open spec fn swap_settles(
    o: SwapOutcome,
    state: PairState,
    balance_a: int,
    balance_b: int,
    timestamp: u64,
) -> bool {
    &&& o.state == swapped_state(state, balance_a, balance_b, timestamp)
    &&& o.trade_size == max_int(o.amount_a_in as int, o.amount_b_in as int)
    &&& o.total_reserve == if fits_i128(state.reserve_a + state.reserve_b) {
        state.reserve_a + state.reserve_b
    } else if state.reserve_a > 0 {
        i128::MAX as int
    } else {
        i128::MIN as int
    }
    &&& o.price_delta as int == wrap_magnitude(
        scaled_price(balance_a, balance_b) - scaled_price(
            state.reserve_a as int,
            state.reserve_b as int,
        ),
    )
}

/// The pair's state after a swap: the balances become the reserves,
/// `k_last` their product, and the timestamp the current ledger time.
pub open spec fn swapped_state(s: PairState, balance_a: int, balance_b: int, timestamp: u64) -> PairState {
    PairState { block_timestamp_last: timestamp, ..restated(s, balance_a, balance_b) }
}

// ── Sync ─────────────────────────────────────────────────────────────────

/// How much one cumulative price grows over `elapsed` seconds:
/// `other_reserve * elapsed / own_reserve`, rounding down.
pub open spec fn sync_price_growth(own_reserve: int, other_reserve: int, elapsed: int) -> int {
    (other_reserve * elapsed) / own_reserve
}

/// The pair's state after a sync, or the error it answers with.
///
/// When time has passed and both reserves are positive, each cumulative
/// price grows by its `sync_price_growth` (every product and sum must fit in
/// an `i128`). The balances then become the reserves and the timestamp the
/// current ledger time; `k_last` is kept.
pub open spec fn sync_result(s: PairState, balance_a: i128, balance_b: i128, now: u64) -> Result<
    PairState,
    PairError,
> {
    let elapsed: int = if now >= s.block_timestamp_last {
        now - s.block_timestamp_last
    } else {
        0
    };
    let updated = PairState {
        reserve_a: balance_a,
        reserve_b: balance_b,
        block_timestamp_last: now,
        ..s
    };
    if elapsed > 0 && s.reserve_a > 0 && s.reserve_b > 0 {
        let growth_a = sync_price_growth(s.reserve_a as int, s.reserve_b as int, elapsed);
        let growth_b = sync_price_growth(s.reserve_b as int, s.reserve_a as int, elapsed);
        if !fits_i128(s.reserve_b * elapsed) || !fits_i128(s.price_a_cumulative + growth_a)
            || !fits_i128(s.reserve_a * elapsed) || !fits_i128(s.price_b_cumulative + growth_b) {
            Err(PairError::Overflow)
        } else {
            Ok(
                PairState {
                    price_a_cumulative: (s.price_a_cumulative + growth_a) as i128,
                    price_b_cumulative: (s.price_b_cumulative + growth_b) as i128,
                    ..updated
                },
            )
        }
    } else {
        Ok(updated)
    }
}

/// The pair in its liquidity operations.
pub struct Pair;

impl Pair {
    /// Initializes a new liquidity pair.
    ///
    /// Fails with `AlreadyInitialized` when a state is already stored;
    /// otherwise the pair starts with empty reserves and accumulators,
    /// stamped with the current ledger time.
    pub fn initialize(existing: Option<PairState>, timestamp: u64) -> (r: Result<
        PairState,
        PairError,
    >)
        ensures
            existing is Some ==> r == Err::<PairState, PairError>(PairError::AlreadyInitialized),
            existing is None ==> r == Ok::<PairState, PairError>(initial_state(timestamp)),
    {
        if existing.is_some() {
            return Err(PairError::AlreadyInitialized);
        }
        Ok(
            PairState {
                reserve_a: 0,
                reserve_b: 0,
                block_timestamp_last: timestamp,
                price_a_cumulative: 0,
                price_b_cumulative: 0,
                k_last: 0,
            },
        )
    }

    /// Mints LP tokens for the liquidity deposited into the pair.
    ///
    /// The depositor has already transferred both tokens to the pair; the
    /// difference between the balances and the reserves is the deposit. On
    /// success the reserves become the balances and `k_last` their product.
    pub fn mint(state: PairState, balance_a: i128, balance_b: i128, total_supply: i128) -> (r:
        Result<MintOutcome, PairError>)
        requires
            mint_is_defined(state, balance_a as int, balance_b as int, total_supply as int),
        ensures
            mint_liquidity(state, balance_a as int, balance_b as int, total_supply as int)
                == match r {
                Ok(o) => Ok::<int, PairError>(o.liquidity as int),
                Err(e) => Err::<int, PairError>(e),
            },
            r matches Ok(o) ==> {
                &&& o.amount_a == balance_a - state.reserve_a
                &&& o.amount_b == balance_b - state.reserve_b
                &&& o.locked_liquidity == if total_supply == 0 {
                    MINIMUM_LIQUIDITY
                } else {
                    0
                }
                &&& o.state == restated(state, balance_a as int, balance_b as int)
            },
    {
        let amount_a = balance_a - state.reserve_a;
        let amount_b = balance_b - state.reserve_b;
        let liquidity: i128;
        let locked_liquidity: i128;
        if total_supply == 0 {
            let product = match amount_a.checked_mul(amount_b) {
                Some(p) => p,
                None => return Err(PairError::Overflow),
            };
            liquidity = sqrt(product) - MINIMUM_LIQUIDITY;
            locked_liquidity = MINIMUM_LIQUIDITY;
        } else {
            let share_a = match amount_a.checked_mul(total_supply) {
                Some(p) => p,
                None => return Err(PairError::Overflow),
            };
            let liquidity_a = div_trunc(share_a, state.reserve_a);
            let share_b = match amount_b.checked_mul(total_supply) {
                Some(p) => p,
                None => return Err(PairError::Overflow),
            };
            let liquidity_b = div_trunc(share_b, state.reserve_b);
            liquidity = if liquidity_a < liquidity_b {
                liquidity_a
            } else {
                liquidity_b
            };
            locked_liquidity = 0;
        }
        if liquidity <= 0 {
            return Err(PairError::InsufficientLiquidityMinted);
        }
        let k_last = match balance_a.checked_mul(balance_b) {
            Some(k) => k,
            None => return Err(PairError::Overflow),
        };
        Ok(
            MintOutcome {
                amount_a,
                amount_b,
                liquidity,
                locked_liquidity,
                state: PairState { reserve_a: balance_a, reserve_b: balance_b, k_last, ..state },
            },
        )
    }

    /// Whether `mint` would hit an arithmetic trap (an overflowing
    /// subtraction, the square root of a negative product, or a division by
    /// zero) on these inputs, so the host can panic before calling it.
    pub fn mint_would_panic(state: PairState, balance_a: i128, balance_b: i128, total_supply: i128) -> (r:
        bool)
        ensures
            r == !mint_is_defined(state, balance_a as int, balance_b as int, total_supply as int),
    {
        let amount_a = match balance_a.checked_sub(state.reserve_a) {
            Some(v) => v,
            None => return true,
        };
        let amount_b = match balance_b.checked_sub(state.reserve_b) {
            Some(v) => v,
            None => return true,
        };
        if total_supply == 0 {
            return match amount_a.checked_mul(amount_b) {
                Some(product) => product < 0,
                None => false,
            };
        }
        let share_a = match amount_a.checked_mul(total_supply) {
            Some(v) => v,
            None => return false,
        };
        if state.reserve_a == 0 || (share_a == i128::MIN && state.reserve_a == -1) {
            return true;
        }
        match amount_b.checked_mul(total_supply) {
            Some(share_b) => state.reserve_b == 0 || (share_b == i128::MIN && state.reserve_b
                == -1),
            None => false,
        }
    }

    /// The LP tokens a burn destroys out of the pair's LP balance: all but
    /// the `MINIMUM_LIQUIDITY` locked by the first deposit.
    pub fn burnable_liquidity(lp_balance: i128) -> (r: i128)
        ensures
            r == burnable_liquidity(lp_balance as int),
    {
        if lp_balance > MINIMUM_LIQUIDITY {
            lp_balance - MINIMUM_LIQUIDITY
        } else {
            0
        }
    }

    /// Burns the LP tokens sent to the pair and pays out the underlying
    /// tokens pro rata; the `MINIMUM_LIQUIDITY` locked in the pair by the
    /// first deposit is never burned.
    ///
    /// On success the reserves shrink by the payouts and `k_last` becomes the
    /// product of the new reserves.
    pub fn burn(state: PairState, lp_balance: i128, total_supply: i128) -> (r: Result<
        BurnOutcome,
        PairError,
    >)
        requires
            burn_is_defined(state, lp_balance as int, total_supply as int),
        ensures
            burn_amounts(state, lp_balance as int, total_supply as int) == match r {
                Ok(o) => Ok::<(int, int), PairError>((o.amount_a as int, o.amount_b as int)),
                Err(e) => Err::<(int, int), PairError>(e),
            },
            r matches Ok(o) ==> o.liquidity_burned == burnable_liquidity(lp_balance as int)
                && o.state == restated(
                state,
                state.reserve_a - o.amount_a,
                state.reserve_b - o.amount_b,
            ),
    {
        let liquidity_burned = Self::burnable_liquidity(lp_balance);
        let share_a = match liquidity_burned.checked_mul(state.reserve_a) {
            Some(p) => p,
            None => return Err(PairError::Overflow),
        };
        let amount_a = div_trunc(share_a, total_supply);
        let share_b = match liquidity_burned.checked_mul(state.reserve_b) {
            Some(p) => p,
            None => return Err(PairError::Overflow),
        };
        let amount_b = div_trunc(share_b, total_supply);
        if amount_a <= 0 || amount_b <= 0 {
            return Err(PairError::InsufficientLiquidityBurned);
        }
        let reserve_a = state.reserve_a - amount_a;
        let reserve_b = state.reserve_b - amount_b;
        let k_last = match reserve_a.checked_mul(reserve_b) {
            Some(k) => k,
            None => return Err(PairError::Overflow),
        };
        Ok(
            BurnOutcome {
                liquidity_burned,
                amount_a,
                amount_b,
                state: PairState { reserve_a, reserve_b, k_last, ..state },
            },
        )
    }

    /// Whether `burn` would hit an arithmetic trap (a division by zero or an
    /// overflowing subtraction) on these inputs, so the host can panic before
    /// calling it.
    pub fn burn_would_panic(state: PairState, lp_balance: i128, total_supply: i128) -> (r: bool)
        ensures
            r == !burn_is_defined(state, lp_balance as int, total_supply as int),
    {
        let liquidity_burned = Self::burnable_liquidity(lp_balance);
        let share_a = match liquidity_burned.checked_mul(state.reserve_a) {
            Some(v) => v,
            None => return false,
        };
        if total_supply == 0 || (share_a == i128::MIN && total_supply == -1) {
            return true;
        }
        let share_b = match liquidity_burned.checked_mul(state.reserve_b) {
            Some(v) => v,
            None => return false,
        };
        if share_b == i128::MIN && total_supply == -1 {
            return true;
        }
        let amount_a = div_trunc(share_a, total_supply);
        let amount_b = div_trunc(share_b, total_supply);
        state.reserve_a.checked_sub(amount_a).is_none() || state.reserve_b.checked_sub(
            amount_b,
        ).is_none()
    }

    /// Opens a swap: takes the reentrancy lock and checks the request before
    /// any token moves.
    ///
    /// A held lock answers `Locked` and stays held (for the swap that holds
    /// it). Otherwise the lock is taken and the request is checked: some
    /// output must be requested, the pair (with its fee configuration) must
    /// be initialized (`state` is `None` otherwise), and each output must be
    /// below its reserve. A refused request frees the lock again; an
    /// accepted one keeps it held until `swap` settles.
    pub fn validate_swap(
        locked: &mut bool,
        state: Option<PairState>,
        amount_a_out: i128,
        amount_b_out: i128,
    ) -> (r: Result<(), PairError>)
        ensures
            *old(locked) ==> r == Err::<(), PairError>(PairError::Locked) && *final(locked),
            !*old(locked) ==> r == swap_request_answer(state, amount_a_out as int, amount_b_out as int)
                && *final(locked) == r is Ok,
    {
        acquire(locked)?;
        let r = Self::check_swap_request(state, amount_a_out, amount_b_out);
        if r.is_err() {
            release(locked);
        }
        r
    }

    fn check_swap_request(state: Option<PairState>, amount_a_out: i128, amount_b_out: i128) -> (r:
        Result<(), PairError>)
        ensures
            r == swap_request_answer(state, amount_a_out as int, amount_b_out as int),
    {
        if amount_a_out <= 0 && amount_b_out <= 0 {
            return Err(PairError::InsufficientOutputAmount);
        }
        let state = match state {
            Some(s) => s,
            None => return Err(PairError::NotInitialized),
        };
        if amount_a_out >= state.reserve_a || amount_b_out >= state.reserve_b {
            return Err(PairError::InsufficientLiquidity);
        }
        Ok(())
    }

    /// Credits a swap's inputs and runs its checks: the request checks, that
    /// some input arrived, and the fee-adjusted `k` check.
    fn credit_swap(
        state: PairState,
        amount_a_out: i128,
        amount_b_out: i128,
        balance_a: i128,
        balance_b: i128,
        fee_bps: u32,
    ) -> (r: Result<(i128, i128), PairError>)
        requires
            swap_checks_are_defined(
                state,
                amount_a_out as int,
                amount_b_out as int,
                balance_a as int,
                balance_b as int,
                fee_bps as int,
            ),
        ensures
            swap_result(
                state,
                amount_a_out as int,
                amount_b_out as int,
                balance_a as int,
                balance_b as int,
                fee_bps as int,
            ) == match r {
                Ok(amounts) => Ok::<(int, int), PairError>((amounts.0 as int, amounts.1 as int)),
                Err(e) => Err::<(int, int), PairError>(e),
            },
    {
        if amount_a_out <= 0 && amount_b_out <= 0 {
            return Err(PairError::InsufficientOutputAmount);
        }
        if amount_a_out >= state.reserve_a || amount_b_out >= state.reserve_b {
            return Err(PairError::InsufficientLiquidity);
        }
        let remaining_a = state.reserve_a - amount_a_out;
        let remaining_b = state.reserve_b - amount_b_out;
        let credited_a = balance_a - remaining_a;
        let credited_b = balance_b - remaining_b;
        let amount_a_in = if credited_a > 0 {
            credited_a
        } else {
            0
        };
        let amount_b_in = if credited_b > 0 {
            credited_b
        } else {
            0
        };
        if amount_a_in <= 0 && amount_b_in <= 0 {
            return Err(PairError::InsufficientInputAmount);
        }
        let fee = fee_bps as i128;
        let scaled_a = match balance_a.checked_mul(10_000) {
            Some(v) => v,
            None => return Err(PairError::Overflow),
        };
        let balance_a_adj = match scaled_a.checked_sub(amount_a_in * fee) {
            Some(v) => v,
            None => return Err(PairError::Overflow),
        };
        let scaled_b = match balance_b.checked_mul(10_000) {
            Some(v) => v,
            None => return Err(PairError::Overflow),
        };
        let balance_b_adj = match scaled_b.checked_sub(amount_b_in * fee) {
            Some(v) => v,
            None => return Err(PairError::Overflow),
        };
        if balance_a_adj <= 0 || balance_b_adj <= 0 {
            return Err(PairError::InsufficientOutputAmount);
        }
        let reserve_product = match state.reserve_a.checked_mul(state.reserve_b) {
            Some(v) => v,
            None => {
                proof {
                    let p = state.reserve_a * state.reserve_b;
                    assert(!fits_i128(p * 100_000_000)) by (nonlinear_arith)
                        requires
                            !fits_i128(p),
                    ;
                }
                return Err(PairError::Overflow);
            },
        };
        let k_before = match reserve_product.checked_mul(100_000_000) {
            Some(v) => v,
            None => return Err(PairError::Overflow),
        };
        let k_after = match balance_a_adj.checked_mul(balance_b_adj) {
            Some(v) => v,
            None => return Err(PairError::Overflow),
        };
        if k_after < k_before {
            return Err(PairError::InvalidK);
        }
        Ok((amount_a_in, amount_b_in))
    }

    /// The B-per-A price scaled by 10_000, for the reserves before a
    /// successful swap and for the balances after it.
    fn prices_around_swap(state: PairState, balance_a: i128, balance_b: i128) -> (r: (i128, i128))
        requires
            state.reserve_a > 0 ==> fits_i128(
                state.reserve_a * state.reserve_b * (bps() * bps()),
            ),
            fits_i128(balance_b * bps()),
        ensures
            r.0 == scaled_price(state.reserve_a as int, state.reserve_b as int),
            r.1 == scaled_price(balance_a as int, balance_b as int),
    {
        let old_price = if state.reserve_a > 0 {
            proof {
                lemma_scaled_reserve_fits(state.reserve_a as int, state.reserve_b as int);
            }
            div_trunc(state.reserve_b * 10_000, state.reserve_a)
        } else {
            0
        };
        let new_price = if balance_a > 0 {
            div_trunc(balance_b * 10_000, balance_a)
        } else {
            0
        };
        (old_price, new_price)
    }

    /// Settles a swap from the balances read back after the outputs were
    /// sent: repeats the request checks, credits the inputs, and enforces the
    /// fee-adjusted `k` invariant.
    fn settle_swap(
        state: PairState,
        amount_a_out: i128,
        amount_b_out: i128,
        balance_a: i128,
        balance_b: i128,
        fee_bps: u32,
        timestamp: u64,
    ) -> (r: Result<SwapOutcome, PairError>)
        requires
            swap_is_defined(
                state,
                amount_a_out as int,
                amount_b_out as int,
                balance_a as int,
                balance_b as int,
                fee_bps as int,
            ),
        ensures
            swap_result(
                state,
                amount_a_out as int,
                amount_b_out as int,
                balance_a as int,
                balance_b as int,
                fee_bps as int,
            ) == match r {
                Ok(o) => Ok::<(int, int), PairError>((o.amount_a_in as int, o.amount_b_in as int)),
                Err(e) => Err::<(int, int), PairError>(e),
            },
            r matches Ok(o) ==> swap_settles(
                o,
                state,
                balance_a as int,
                balance_b as int,
                timestamp,
            ),
    {
        let (amount_a_in, amount_b_in) = Self::credit_swap(
            state,
            amount_a_out,
            amount_b_out,
            balance_a,
            balance_b,
            fee_bps,
        )?;
        let total_reserve = match state.reserve_a.checked_add(state.reserve_b) {
            Some(v) => v,
            None => if state.reserve_a > 0 {
                i128::MAX
            } else {
                i128::MIN
            },
        };
        let trade_size = if amount_a_in < amount_b_in {
            amount_b_in
        } else {
            amount_a_in
        };
        let (old_price, new_price) = Self::prices_around_swap(state, balance_a, balance_b);
        let price_change = new_price - old_price;
        let price_delta = if price_change >= 0 {
            price_change
        } else if price_change == i128::MIN {
            i128::MIN
        } else {
            -price_change
        };
        let k_last = balance_a * balance_b;
        Ok(
            SwapOutcome {
                amount_a_in,
                amount_b_in,
                price_delta,
                trade_size,
                total_reserve,
                state: PairState {
                    reserve_a: balance_a,
                    reserve_b: balance_b,
                    block_timestamp_last: timestamp,
                    k_last,
                    ..state
                },
            },
        )
    }

    /// Executes a constant-product swap with the given fee, once the
    /// requested outputs have been sent and the pair's balances read back,
    /// and frees the reentrancy lock whatever the outcome.
    ///
    /// Repeats the request checks, credits the inputs, and enforces the
    /// fee-adjusted `k` invariant; on success the balances become the
    /// reserves and the outcome carries the volatility figures.
    pub fn swap(
        locked: &mut bool,
        state: PairState,
        amount_a_out: i128,
        amount_b_out: i128,
        balance_a: i128,
        balance_b: i128,
        fee_bps: u32,
        timestamp: u64,
    ) -> (r: Result<SwapOutcome, PairError>)
        requires
            swap_is_defined(
                state,
                amount_a_out as int,
                amount_b_out as int,
                balance_a as int,
                balance_b as int,
                fee_bps as int,
            ),
        ensures
            !*final(locked),
            swap_result(
                state,
                amount_a_out as int,
                amount_b_out as int,
                balance_a as int,
                balance_b as int,
                fee_bps as int,
            ) == match r {
                Ok(o) => Ok::<(int, int), PairError>((o.amount_a_in as int, o.amount_b_in as int)),
                Err(e) => Err::<(int, int), PairError>(e),
            },
            r matches Ok(o) ==> swap_settles(
                o,
                state,
                balance_a as int,
                balance_b as int,
                timestamp,
            ),
    {
        let r = Self::settle_swap(
            state,
            amount_a_out,
            amount_b_out,
            balance_a,
            balance_b,
            fee_bps,
            timestamp,
        );
        release(locked);
        r
    }

    /// Whether `swap` would hit an arithmetic trap (an overflowing
    /// subtraction or unchecked product) on these inputs, so the host can
    /// panic before calling it.
    pub fn swap_would_panic(
        state: PairState,
        amount_a_out: i128,
        amount_b_out: i128,
        balance_a: i128,
        balance_b: i128,
        fee_bps: u32,
    ) -> (r: bool)
        ensures
            r == !swap_is_defined(
                state,
                amount_a_out as int,
                amount_b_out as int,
                balance_a as int,
                balance_b as int,
                fee_bps as int,
            ),
    {
        if (amount_a_out <= 0 && amount_b_out <= 0) || amount_a_out >= state.reserve_a
            || amount_b_out >= state.reserve_b {
            return false;
        }
        let remaining_a = match state.reserve_a.checked_sub(amount_a_out) {
            Some(v) => v,
            None => return true,
        };
        let credited_a = match balance_a.checked_sub(remaining_a) {
            Some(v) => v,
            None => return true,
        };
        let remaining_b = match state.reserve_b.checked_sub(amount_b_out) {
            Some(v) => v,
            None => return true,
        };
        let credited_b = match balance_b.checked_sub(remaining_b) {
            Some(v) => v,
            None => return true,
        };
        let amount_a_in = if credited_a > 0 {
            credited_a
        } else {
            0
        };
        let amount_b_in = if credited_b > 0 {
            credited_b
        } else {
            0
        };
        if amount_a_in <= 0 && amount_b_in <= 0 {
            return false;
        }
        let fee = fee_bps as i128;
        let scaled_a = match balance_a.checked_mul(10_000) {
            Some(v) => v,
            None => return false,
        };
        let charged_a = match amount_a_in.checked_mul(fee) {
            Some(v) => v,
            None => return true,
        };
        if scaled_a.checked_sub(charged_a).is_none() {
            return false;
        }
        if balance_b.checked_mul(10_000).is_none() {
            return false;
        }
        if amount_b_in.checked_mul(fee).is_none() {
            return true;
        }
        match Self::credit_swap(state, amount_a_out, amount_b_out, balance_a, balance_b, fee_bps) {
            Err(_) => false,
            Ok(_) => {
                if balance_a.checked_mul(balance_b).is_none() {
                    return true;
                }
                let (old_price, new_price) = Self::prices_around_swap(state, balance_a, balance_b);
                new_price.checked_sub(old_price).is_none()
            },
        }
    }

    /// Synchronizes the pair's reserves with its actual token balances,
    /// first advancing the cumulative prices over the time since the last
    /// update.
    pub fn sync(state: PairState, balance_a: i128, balance_b: i128, current_timestamp: u64) -> (r:
        Result<PairState, PairError>)
        ensures
            r == sync_result(state, balance_a, balance_b, current_timestamp),
    {
        let mut next = state;
        let time_elapsed = current_timestamp.saturating_sub(state.block_timestamp_last) as i128;
        if time_elapsed > 0 && state.reserve_a > 0 && state.reserve_b > 0 {
            let weighted_b = match state.reserve_b.checked_mul(time_elapsed) {
                Some(v) => v,
                None => return Err(PairError::Overflow),
            };
            let price_a_delta = match weighted_b.checked_div(state.reserve_a) {
                Some(v) => v,
                None => return Err(PairError::Overflow),
            };
            next.price_a_cumulative = match state.price_a_cumulative.checked_add(price_a_delta) {
                Some(v) => v,
                None => return Err(PairError::Overflow),
            };
            let weighted_a = match state.reserve_a.checked_mul(time_elapsed) {
                Some(v) => v,
                None => return Err(PairError::Overflow),
            };
            let price_b_delta = match weighted_a.checked_div(state.reserve_b) {
                Some(v) => v,
                None => return Err(PairError::Overflow),
            };
            next.price_b_cumulative = match state.price_b_cumulative.checked_add(price_b_delta) {
                Some(v) => v,
                None => return Err(PairError::Overflow),
            };
        }
        next.reserve_a = balance_a;
        next.reserve_b = balance_b;
        next.block_timestamp_last = current_timestamp;
        Ok(next)
    }

    /// The current reserves and the time of the last state-changing update.
    pub fn get_reserves(state: PairState) -> (r: (i128, i128, u64))
        ensures
            r == (state.reserve_a, state.reserve_b, state.block_timestamp_last),
    {
        (state.reserve_a, state.reserve_b, state.block_timestamp_last)
    }
}

/// The magnitude of an `i128` difference as the pair reports it: `|x|`,
/// except that a magnitude of `2^127` wraps to `i128::MIN`.
pub open spec fn wrap_magnitude(x: int) -> int {
    if x >= 0 {
        x
    } else if x == i128::MIN {
        i128::MIN as int
    } else {
        -x
    }
}

/// If the reserve product scaled by 10_000^2 is an `i128` and reserve A is
/// positive, then reserve B scaled by 10_000 is an `i128` too.
proof fn lemma_scaled_reserve_fits(reserve_a: int, reserve_b: int)
    requires
        reserve_a > 0,
        fits_i128(reserve_a * reserve_b * (bps() * bps())),
    ensures
        fits_i128(reserve_b * bps()),
{
    assert(fits_i128(reserve_b * bps())) by (nonlinear_arith)
        requires
            reserve_a > 0,
            fits_i128(reserve_a * reserve_b * 100_000_000),
            bps() == 10_000,
    ;
}


// ── Laws ─────────────────────────────────────────────────────────────────

/// A first deposit mints the integer geometric mean of the two deposited
/// amounts, less the `MINIMUM_LIQUIDITY` locked in the pair, and never a
/// non-positive amount.
pub proof fn law_first_deposit_mints_geometric_mean(s: PairState, balance_a: int, balance_b: int)
    ensures
        mint_liquidity(s, balance_a, balance_b, 0) matches Ok(liquidity) ==> {
            &&& liquidity > 0
            &&& is_floor_sqrt(
                liquidity + MINIMUM_LIQUIDITY,
                (balance_a - s.reserve_a) * (balance_b - s.reserve_b),
            )
        },
{
    let product = (balance_a - s.reserve_a) * (balance_b - s.reserve_b);
    if product >= 0 {
        lemma_floor_sqrt(product, 0);
    }
}

/// A later deposit never dilutes the existing liquidity providers: the new
/// liquidity is positive and is no larger a share of the supply than the
/// deposit is of either reserve.
pub proof fn law_deposit_never_dilutes(
    s: PairState,
    balance_a: int,
    balance_b: int,
    total_supply: int,
)
    requires
        total_supply > 0,
        s.reserve_a > 0,
        s.reserve_b > 0,
    ensures
        mint_liquidity(s, balance_a, balance_b, total_supply) matches Ok(liquidity) ==> {
            &&& liquidity > 0
            &&& liquidity * s.reserve_a <= (balance_a - s.reserve_a) * total_supply
            &&& liquidity * s.reserve_b <= (balance_b - s.reserve_b) * total_supply
        },
{
    if let Ok(liquidity) = mint_liquidity(s, balance_a, balance_b, total_supply) {
        let share_a = (balance_a - s.reserve_a) * total_supply;
        let share_b = (balance_b - s.reserve_b) * total_supply;
        lemma_tdiv_times_divisor(share_a, s.reserve_a as int, liquidity);
        lemma_tdiv_times_divisor(share_b, s.reserve_b as int, liquidity);
    }
}

/// A positive `l` no larger than `x / d` (rounding toward zero, `d > 0`)
/// satisfies `l * d <= x`.
proof fn lemma_tdiv_times_divisor(x: int, d: int, l: int)
    requires
        d > 0,
        0 < l <= tdiv(x, d),
    ensures
        l * d <= x,
{
    if x >= 0 {
        assert(l * d <= x) by (nonlinear_arith)
            requires
                d > 0,
                x >= 0,
                0 < l <= x / d,
        ;
    } else {
        assert((-x) / d >= 0) by (nonlinear_arith)
            requires
                d > 0,
                x < 0,
        ;
    }
}

/// Burning never pays out more than the burned share of each reserve, so
/// when the pair holds at most the whole supply the reserves stay
/// non-negative.
pub proof fn law_burn_pays_at_most_share(s: PairState, lp_balance: int, total_supply: int)
    requires
        0 <= lp_balance <= total_supply,
        total_supply > 0,
        s.reserve_a >= 0,
        s.reserve_b >= 0,
    ensures
        burn_amounts(s, lp_balance, total_supply) matches Ok(amounts) ==> {
            let burned = burnable_liquidity(lp_balance);
            &&& 0 < amounts.0 <= s.reserve_a
            &&& 0 < amounts.1 <= s.reserve_b
            &&& amounts.0 * total_supply <= burned * s.reserve_a
            &&& amounts.1 * total_supply <= burned * s.reserve_b
        },
{
    let burned = burnable_liquidity(lp_balance);
    lemma_share_bounds(burned, s.reserve_a as int, total_supply);
    lemma_share_bounds(burned, s.reserve_b as int, total_supply);
}

/// The `MINIMUM_LIQUIDITY` locked by the first deposit keeps the LP supply
/// from ever falling below it: the first deposit leaves more than that
/// minimum in circulation, later deposits only add to a supply, and a
/// successful burn of a balance the supply covers leaves exactly the locked
/// minimum in the pair and at least that minimum in circulation.
pub proof fn law_supply_never_below_minimum_liquidity(
    s: PairState,
    balance_a: int,
    balance_b: int,
    total_supply: int,
    lp_balance: int,
)
    ensures
        mint_liquidity(s, balance_a, balance_b, 0) matches Ok(liquidity) ==> liquidity
            + MINIMUM_LIQUIDITY > MINIMUM_LIQUIDITY,
        total_supply >= MINIMUM_LIQUIDITY ==> (mint_liquidity(
            s,
            balance_a,
            balance_b,
            total_supply,
        ) matches Ok(liquidity) ==> total_supply + liquidity >= MINIMUM_LIQUIDITY),
        lp_balance <= total_supply && burn_amounts(s, lp_balance, total_supply) is Ok ==> {
            &&& lp_balance - burnable_liquidity(lp_balance) == MINIMUM_LIQUIDITY
            &&& total_supply - burnable_liquidity(lp_balance) >= MINIMUM_LIQUIDITY
        },
{
    if burn_amounts(s, lp_balance, total_supply) is Ok {
        let burned = burnable_liquidity(lp_balance);
        if burned == 0 {
            assert(burned * s.reserve_a == 0);
        }
    }
}

/// For `0 <= lp <= supply` and `reserve >= 0`, the burned share
/// `lp * reserve / supply` is at most the reserve and, times the supply, at
/// most `lp * reserve`.
proof fn lemma_share_bounds(lp: int, reserve: int, supply: int)
    requires
        0 <= lp <= supply,
        supply > 0,
        reserve >= 0,
    ensures
        lp * reserve >= 0,
        tdiv(lp * reserve, supply) <= reserve,
        tdiv(lp * reserve, supply) * supply <= lp * reserve,
{
    let x = lp * reserve;
    lemma_mul_inequality(0, lp, reserve);
    lemma_mul_inequality(lp, supply, reserve);
    lemma_div_is_ordered(x, supply * reserve, supply);
    lemma_div_multiples_vanish(reserve, supply);
    lemma_fundamental_div_mod(x, supply);
    lemma_mod_bound(x, supply);
    assert(supply * (x / supply) == (x / supply) * supply) by (nonlinear_arith);
}

/// Minting and then burning exactly the newly minted LP tokens (sent to the
/// pair, which already holds the locked minimum) never pays out more than
/// was deposited: the pair cannot be drained by a deposit-withdraw round
/// trip.
pub proof fn law_mint_then_burn_returns_at_most_deposit(
    s: PairState,
    balance_a: i128,
    balance_b: i128,
    total_supply: int,
)
    requires
        total_supply == 0 ==> s.reserve_a == 0 && s.reserve_b == 0,
        total_supply != 0 ==> total_supply > 0 && s.reserve_a > 0 && s.reserve_b > 0,
    ensures
        mint_liquidity(s, balance_a as int, balance_b as int, total_supply) matches Ok(
            liquidity,
        ) ==> {
            let supply_after = total_supply + liquidity + if total_supply == 0 {
                MINIMUM_LIQUIDITY as int
            } else {
                0
            };
            burn_amounts(
                restated(s, balance_a as int, balance_b as int),
                liquidity + MINIMUM_LIQUIDITY,
                supply_after,
            ) matches Ok(paid) ==> paid.0 <= balance_a - s.reserve_a && paid.1 <= balance_b
                - s.reserve_b
        },
{
    if let Ok(liquidity) = mint_liquidity(s, balance_a as int, balance_b as int, total_supply) {
        let supply_after = total_supply + liquidity + if total_supply == 0 {
            MINIMUM_LIQUIDITY as int
        } else {
            0
        };
        let amount_a = balance_a - s.reserve_a;
        let amount_b = balance_b - s.reserve_b;
        assert(burnable_liquidity(liquidity + MINIMUM_LIQUIDITY) == liquidity);
        let ra = s.reserve_a as int;
        let rb = s.reserve_b as int;
        if total_supply == 0 {
            law_first_deposit_mints_geometric_mean(s, balance_a as int, balance_b as int);
            lemma_round_trip_first(liquidity, balance_a as int, supply_after);
            lemma_round_trip_first(liquidity, balance_b as int, supply_after);
        } else {
            law_deposit_never_dilutes(s, balance_a as int, balance_b as int, total_supply);
            lemma_round_trip_later(liquidity, ra, amount_a, total_supply);
            lemma_round_trip_later(liquidity, rb, amount_b, total_supply);
        }
    }
}

/// First-deposit half of the round trip for one token: burning `l` of the
/// `l + 1000` supply from a pool holding `balance` returns at most `balance`.
proof fn lemma_round_trip_first(l: int, balance: int, supply_after: int)
    requires
        l > 0,
        supply_after == l + MINIMUM_LIQUIDITY,
    ensures
        tdiv(l * balance, supply_after) > 0 ==> tdiv(l * balance, supply_after) <= balance,
{
    if l * balance >= 0 {
        assert((l * balance) / supply_after <= balance) by (nonlinear_arith)
            requires
                l > 0,
                supply_after > l,
                l * balance >= 0,
        ;
    }
}

/// Later-deposit half of the round trip for one token: if `l * r <= a * S`,
/// burning `l` of `S + l` from a pool holding `r + a` returns at most `a`.
proof fn lemma_round_trip_later(l: int, r: int, a: int, supply: int)
    requires
        l > 0,
        r > 0,
        supply > 0,
        l * r <= a * supply,
    ensures
        tdiv(l * (r + a), supply + l) <= a,
{
    assert(a >= 0) by (nonlinear_arith)
        requires
            l > 0,
            r > 0,
            supply > 0,
            l * r <= a * supply,
    ;
    assert(l * (r + a) >= 0 && (l * (r + a)) / (supply + l) <= a) by (nonlinear_arith)
        requires
            l > 0,
            r > 0,
            a >= 0,
            supply > 0,
            l * r <= a * supply,
    ;
}

/// A successful swap never shrinks the constant product: the new reserves'
/// product is at least the old one, some input was received, and the
/// fee-adjusted balances pass the `k` check.
pub proof fn law_swap_never_decreases_k(
    s: PairState,
    amount_a_out: int,
    amount_b_out: int,
    balance_a: int,
    balance_b: int,
    fee_bps: int,
)
    requires
        fee_bps >= 0,
    ensures
        swap_result(s, amount_a_out, amount_b_out, balance_a, balance_b, fee_bps) matches Ok(
            amounts_in,
        ) ==> {
            &&& amounts_in.0 > 0 || amounts_in.1 > 0
            &&& balance_a * balance_b >= s.reserve_a * s.reserve_b
            &&& (balance_a * bps() - amounts_in.0 * fee_bps) * (balance_b * bps() - amounts_in.1
                * fee_bps) >= s.reserve_a * s.reserve_b * (bps() * bps())
        },
{
    if let Ok(amounts_in) = swap_result(s, amount_a_out, amount_b_out, balance_a, balance_b, fee_bps) {
        let adj_a = balance_a * bps() - amounts_in.0 * fee_bps;
        let adj_b = balance_b * bps() - amounts_in.1 * fee_bps;
        let k = s.reserve_a * s.reserve_b;
        assert(amounts_in.0 * fee_bps >= 0 && amounts_in.1 * fee_bps >= 0) by (nonlinear_arith)
            requires
                amounts_in.0 >= 0,
                amounts_in.1 >= 0,
                fee_bps >= 0,
        ;
        assert(balance_a * balance_b >= k) by (nonlinear_arith)
            requires
                0 < adj_a <= balance_a * 10_000,
                0 < adj_b <= balance_b * 10_000,
                adj_a * adj_b >= k * 100_000_000,
        ;
    }
}

/// A successful sync makes the balances the reserves and the current time
/// the last update, keeps `k_last`, and never moves a cumulative price
/// backwards.
pub proof fn law_sync_accumulators_never_decrease(
    s: PairState,
    balance_a: i128,
    balance_b: i128,
    now: u64,
)
    ensures
        sync_result(s, balance_a, balance_b, now) matches Ok(next) ==> {
            &&& next.reserve_a == balance_a
            &&& next.reserve_b == balance_b
            &&& next.block_timestamp_last == now
            &&& next.k_last == s.k_last
            &&& next.price_a_cumulative >= s.price_a_cumulative
            &&& next.price_b_cumulative >= s.price_b_cumulative
        },
{
    let elapsed: int = if now >= s.block_timestamp_last {
        now - s.block_timestamp_last
    } else {
        0
    };
    if elapsed > 0 && s.reserve_a > 0 && s.reserve_b > 0 {
        let ra = s.reserve_a as int;
        let rb = s.reserve_b as int;
        assert(sync_price_growth(ra, rb, elapsed) >= 0 && sync_price_growth(rb, ra, elapsed) >= 0)
            by (nonlinear_arith)
            requires
                ra > 0,
                rb > 0,
                elapsed > 0,
        ;
    }
}

/// A swap request with some positive output is refused with
/// `InsufficientLiquidity` exactly when an output reaches its own token's
/// reserve (A against reserve A, B against reserve B), and passes
/// otherwise; one with no positive output is refused with
/// `InsufficientOutputAmount`. An uninitialized pair answers
/// `NotInitialized` to a request with some positive output.
pub proof fn law_swap_output_checked_against_own_reserve(
    state: Option<PairState>,
    s: PairState,
    amount_a_out: int,
    amount_b_out: int,
)
    ensures
        amount_a_out <= 0 && amount_b_out <= 0 ==> swap_request_error(s, amount_a_out, amount_b_out)
            == Some(PairError::InsufficientOutputAmount),
        amount_a_out > 0 || amount_b_out > 0 ==> (swap_request_error(
            s,
            amount_a_out,
            amount_b_out,
        ) == Some(PairError::InsufficientLiquidity) <==> (amount_a_out >= s.reserve_a
            || amount_b_out >= s.reserve_b)),
        amount_a_out > 0 || amount_b_out > 0 ==> (swap_request_error(
            s,
            amount_a_out,
            amount_b_out,
        ) is None <==> (amount_a_out < s.reserve_a && amount_b_out < s.reserve_b)),
        amount_a_out <= 0 && amount_b_out <= 0 ==> swap_request_answer(
            state,
            amount_a_out,
            amount_b_out,
        ) == Err::<(), PairError>(PairError::InsufficientOutputAmount),
        (amount_a_out > 0 || amount_b_out > 0) && state is None ==> swap_request_answer(
            state,
            amount_a_out,
            amount_b_out,
        ) == Err::<(), PairError>(PairError::NotInitialized),
        (amount_a_out > 0 || amount_b_out > 0) && state == Some(s) ==> swap_request_answer(
            state,
            amount_a_out,
            amount_b_out,
        ) == if amount_a_out >= s.reserve_a || amount_b_out >= s.reserve_b {
            Err::<(), PairError>(PairError::InsufficientLiquidity)
        } else {
            Ok::<(), PairError>(())
        },
{
}

/// The whole answer to a swap whose request passes (some positive output,
/// each below its own reserve). The inputs credited are how far each
/// balance exceeds what the output left of its reserve, floored at zero;
/// with no input the swap is refused with `InsufficientInputAmount`.
/// Otherwise, when the scaled balances `balance * 10_000 - input * fee`
/// and the products of the check are `i128`s and positive, the swap is
/// accepted with those inputs exactly when the product of the scaled
/// balances is at least `reserve_a * reserve_b * 10_000^2`, and refused
/// with `InvalidK` otherwise. A request that does not pass is refused with
/// its request error, whatever the balances.
pub proof fn law_swap_accepts_exactly_when_k_holds(
    s: PairState,
    amount_a_out: int,
    amount_b_out: int,
    balance_a: int,
    balance_b: int,
    fee_bps: int,
)
    ensures
        (amount_a_out > 0 || amount_b_out > 0) && (amount_a_out >= s.reserve_a || amount_b_out
            >= s.reserve_b) ==> swap_result(
            s,
            amount_a_out,
            amount_b_out,
            balance_a,
            balance_b,
            fee_bps,
        ) == Err::<(int, int), PairError>(PairError::InsufficientLiquidity),
        amount_a_out <= 0 && amount_b_out <= 0 ==> swap_result(
            s,
            amount_a_out,
            amount_b_out,
            balance_a,
            balance_b,
            fee_bps,
        ) == Err::<(int, int), PairError>(PairError::InsufficientOutputAmount),
        ({
            let left_a = s.reserve_a - amount_a_out;
            let left_b = s.reserve_b - amount_b_out;
            let amount_a_in: int = if balance_a > left_a {
                balance_a - left_a
            } else {
                0
            };
            let amount_b_in: int = if balance_b > left_b {
                balance_b - left_b
            } else {
                0
            };
            let scaled_a = balance_a * 10_000 - amount_a_in * fee_bps;
            let scaled_b = balance_b * 10_000 - amount_b_in * fee_bps;
            let k_before = s.reserve_a * s.reserve_b * 100_000_000;
            let r = swap_result(s, amount_a_out, amount_b_out, balance_a, balance_b, fee_bps);
            let passes = (amount_a_out > 0 || amount_b_out > 0) && amount_a_out < s.reserve_a
                && amount_b_out < s.reserve_b;
            let computable = fits_i128(balance_a * 10_000) && fits_i128(balance_b * 10_000)
                && fits_i128(scaled_a) && fits_i128(scaled_b) && scaled_a > 0 && scaled_b > 0
                && fits_i128(k_before) && fits_i128(scaled_a * scaled_b);
            &&& passes && amount_a_in == 0 && amount_b_in == 0 ==> r == Err::<(int, int), PairError>(
                PairError::InsufficientInputAmount,
            )
            &&& passes && (amount_a_in > 0 || amount_b_in > 0) && computable ==> r == if scaled_a
                * scaled_b >= k_before {
                Ok::<(int, int), PairError>((amount_a_in, amount_b_in))
            } else {
                Err::<(int, int), PairError>(PairError::InvalidK)
            }
        }),
{
}

/// A sync prices the elapsed period at the reserves it held during that
/// period, not at the new balances: when time has passed and the old
/// reserves are positive, `price_a_cumulative` grows by
/// `reserve_b * elapsed / reserve_a` and `price_b_cumulative` by
/// `reserve_a * elapsed / reserve_b` (rounding down), and the sync
/// succeeds exactly when those products and sums are `i128`s. Otherwise
/// the accumulators are kept. Either way the balances become the reserves,
/// the time the last update, and `k_last` is kept.
pub proof fn law_sync_prices_period_at_old_reserves(
    s: PairState,
    balance_a: i128,
    balance_b: i128,
    now: u64,
)
    ensures
        ({
            let elapsed: int = if now >= s.block_timestamp_last {
                now - s.block_timestamp_last
            } else {
                0
            };
            let ra = s.reserve_a as int;
            let rb = s.reserve_b as int;
            let price_a = s.price_a_cumulative + (rb * elapsed) / ra;
            let price_b = s.price_b_cumulative + (ra * elapsed) / rb;
            let r = sync_result(s, balance_a, balance_b, now);
            let accrues = elapsed > 0 && ra > 0 && rb > 0;
            let fits = fits_i128(rb * elapsed) && fits_i128(ra * elapsed) && fits_i128(price_a)
                && fits_i128(price_b);
            &&& accrues && fits ==> r == Ok::<PairState, PairError>(
                (PairState {
                    reserve_a: balance_a,
                    reserve_b: balance_b,
                    block_timestamp_last: now,
                    price_a_cumulative: price_a as i128,
                    price_b_cumulative: price_b as i128,
                    k_last: s.k_last,
                }),
            )
            &&& accrues && !fits ==> r == Err::<PairState, PairError>(PairError::Overflow)
            &&& !accrues ==> r == Ok::<PairState, PairError>(
                (PairState {
                    reserve_a: balance_a,
                    reserve_b: balance_b,
                    block_timestamp_last: now,
                    price_a_cumulative: s.price_a_cumulative,
                    price_b_cumulative: s.price_b_cumulative,
                    k_last: s.k_last,
                }),
            )
        }),
{
}

/// Two syncs of the same state at the same time agree on whether they
/// succeed and on the cumulative prices, whatever balances each reads: the
/// new balances never price the period that has passed.
pub proof fn law_sync_accumulators_ignore_new_balances(
    s: PairState,
    balance_a: i128,
    balance_b: i128,
    other_a: i128,
    other_b: i128,
    now: u64,
)
    ensures
        sync_result(s, balance_a, balance_b, now) is Ok == sync_result(s, other_a, other_b, now) is Ok,
        sync_result(s, balance_a, balance_b, now) matches Ok(next) ==> sync_result(
            s,
            other_a,
            other_b,
            now,
        ) matches Ok(other) && next.price_a_cumulative == other.price_a_cumulative
            && next.price_b_cumulative == other.price_b_cumulative,
{
}

/// For a positive divisor, division rounding toward zero is the floor
/// division on a non-negative dividend and is never positive on a
/// non-positive one.
proof fn lemma_tdiv_positive_divisor(x: int, d: int)
    requires
        d > 0,
    ensures
        x >= 0 ==> tdiv(x, d) == x / d,
        x <= 0 ==> tdiv(x, d) <= 0,
{
    if x < 0 {
        assert((-x) / d >= 0) by (nonlinear_arith)
            requires
                d > 0,
                x < 0,
        ;
    }
}

/// The sign of a product of two integers, one of them positive.
proof fn lemma_product_sign(a: int, b: int)
    requires
        b > 0,
    ensures
        a > 0 ==> a * b > 0,
        a == 0 ==> a * b == 0,
        a < 0 ==> a * b < 0,
{
    assert(a > 0 ==> a * b > 0) by (nonlinear_arith)
        requires
            b > 0,
    ;
    assert(a < 0 ==> a * b < 0) by (nonlinear_arith)
        requires
            b > 0,
    ;
}

/// The whole answer to a first deposit (no LP supply), given the integer
/// square root `root` of the product of the two deposited amounts: the
/// product must be an `i128`; the depositor gets `root - 1_000` when that
/// is positive (else `InsufficientLiquidityMinted`), provided the new `k`
/// (the product of the balances) is an `i128` (else `Overflow`).
pub proof fn law_first_deposit_outcomes(s: PairState, balance_a: int, balance_b: int, root: int)
    ensures
        ({
            let product = (balance_a - s.reserve_a) * (balance_b - s.reserve_b);
            let r = mint_liquidity(s, balance_a, balance_b, 0);
            &&& !fits_i128(product) ==> r == Err::<int, PairError>(PairError::Overflow)
            &&& fits_i128(product) && is_floor_sqrt(root, product) ==> r == if root <= 1_000 {
                Err::<int, PairError>(PairError::InsufficientLiquidityMinted)
            } else if fits_i128(balance_a * balance_b) {
                Ok::<int, PairError>(root - 1_000)
            } else {
                Err::<int, PairError>(PairError::Overflow)
            }
        }),
{
    let product = (balance_a - s.reserve_a) * (balance_b - s.reserve_b);
    if fits_i128(product) && is_floor_sqrt(root, product) {
        lemma_floor_sqrt(product, root);
    }
}

/// The whole answer to a later deposit (positive LP supply and reserves):
/// each deposited amount earns its pro-rata share `amount * total_supply /
/// reserve` (rounding down), and the depositor gets the smaller of the two.
/// `Overflow` comes only when `amount * total_supply` or the new `k` leaves
/// the `i128` range; a non-positive amount or smaller share is refused with
/// `InsufficientLiquidityMinted`; every other deposit succeeds.
pub proof fn law_later_deposit_outcomes(
    s: PairState,
    balance_a: int,
    balance_b: int,
    total_supply: int,
)
    requires
        total_supply > 0,
        s.reserve_a > 0,
        s.reserve_b > 0,
    ensures
        ({
            let amount_a = balance_a - s.reserve_a;
            let amount_b = balance_b - s.reserve_b;
            let share_a = amount_a * total_supply;
            let share_b = amount_b * total_supply;
            let liquidity_a = share_a / (s.reserve_a as int);
            let liquidity_b = share_b / (s.reserve_b as int);
            let liquidity = if liquidity_a < liquidity_b {
                liquidity_a
            } else {
                liquidity_b
            };
            let shares_fit = fits_i128(share_a) && fits_i128(share_b);
            let r = mint_liquidity(s, balance_a, balance_b, total_supply);
            &&& !shares_fit ==> r == Err::<int, PairError>(PairError::Overflow)
            &&& shares_fit && (amount_a <= 0 || amount_b <= 0) ==> r == Err::<int, PairError>(
                PairError::InsufficientLiquidityMinted,
            )
            &&& shares_fit && amount_a > 0 && amount_b > 0 ==> r == if liquidity <= 0 {
                Err::<int, PairError>(PairError::InsufficientLiquidityMinted)
            } else if fits_i128(balance_a * balance_b) {
                Ok::<int, PairError>(liquidity)
            } else {
                Err::<int, PairError>(PairError::Overflow)
            }
        }),
{
    let amount_a = balance_a - s.reserve_a;
    let amount_b = balance_b - s.reserve_b;
    lemma_product_sign(amount_a, total_supply);
    lemma_product_sign(amount_b, total_supply);
    lemma_tdiv_positive_divisor(amount_a * total_supply, s.reserve_a as int);
    lemma_tdiv_positive_divisor(amount_b * total_supply, s.reserve_b as int);
}

/// A mint answers `Overflow` only when one of its products leaves the
/// `i128` range: the product of the amounts on a first deposit, an amount
/// times the supply on a later one, or the new `k`.
pub proof fn law_mint_overflows_only_out_of_range(
    s: PairState,
    balance_a: int,
    balance_b: int,
    total_supply: int,
)
    ensures
        mint_liquidity(s, balance_a, balance_b, total_supply) == Err::<int, PairError>(
            PairError::Overflow,
        ) ==> {
            let amount_a = balance_a - s.reserve_a;
            let amount_b = balance_b - s.reserve_b;
            ||| !fits_i128(balance_a * balance_b)
            ||| total_supply == 0 && !fits_i128(amount_a * amount_b)
            ||| total_supply != 0 && (!fits_i128(amount_a * total_supply) || !fits_i128(
                amount_b * total_supply,
            ))
        },
{
}

/// The whole answer to a burn against a positive LP supply: the LP balance
/// above the locked 1_000 is burned, each payout is the burned share
/// `burned * reserve / total_supply` (rounding down), both payouts must be
/// positive (else `InsufficientLiquidityBurned`), and `Overflow` comes only
/// when `burned * reserve` or the product of the reduced reserves leaves
/// the `i128` range; every other burn succeeds with those payouts.
pub proof fn law_burn_outcomes(s: PairState, lp_balance: int, total_supply: int)
    requires
        total_supply > 0,
    ensures
        ({
            let burned: int = if lp_balance > 1_000 {
                lp_balance - 1_000
            } else {
                0
            };
            let ra = s.reserve_a as int;
            let rb = s.reserve_b as int;
            let amount_a = (burned * ra) / total_supply;
            let amount_b = (burned * rb) / total_supply;
            let shares_fit = fits_i128(burned * ra) && fits_i128(burned * rb);
            let r = burn_amounts(s, lp_balance, total_supply);
            &&& !shares_fit ==> r == Err::<(int, int), PairError>(PairError::Overflow)
            &&& shares_fit && (burned == 0 || ra <= 0 || rb <= 0) ==> r == Err::<
                (int, int),
                PairError,
            >(PairError::InsufficientLiquidityBurned)
            &&& shares_fit && burned > 0 && ra > 0 && rb > 0 ==> r == if amount_a <= 0
                || amount_b <= 0 {
                Err::<(int, int), PairError>(PairError::InsufficientLiquidityBurned)
            } else if fits_i128((ra - amount_a) * (rb - amount_b)) {
                Ok::<(int, int), PairError>((amount_a, amount_b))
            } else {
                Err::<(int, int), PairError>(PairError::Overflow)
            }
        }),
{
    let burned = burnable_liquidity(lp_balance);
    let ra = s.reserve_a as int;
    let rb = s.reserve_b as int;
    if burned > 0 {
        lemma_product_sign(ra, burned);
        lemma_product_sign(rb, burned);
        assert(burned * ra == ra * burned && burned * rb == rb * burned) by (nonlinear_arith);
    } else {
        assert(burned * ra == 0 && burned * rb == 0);
    }
    lemma_tdiv_positive_divisor(burned * ra, total_supply);
    lemma_tdiv_positive_divisor(burned * rb, total_supply);
}

/// A freshly initialized pair has empty reserves, accumulators and `k`,
/// and is stamped with the initialization time.
pub proof fn law_initialized_pair_is_empty(timestamp: u64)
    ensures
        initial_state(timestamp).reserve_a == 0,
        initial_state(timestamp).reserve_b == 0,
        initial_state(timestamp).k_last == 0,
        initial_state(timestamp).price_a_cumulative == 0,
        initial_state(timestamp).price_b_cumulative == 0,
        initial_state(timestamp).block_timestamp_last == timestamp,
{
}

/// After a mint, a burn or a swap the new reserves are stored as they
/// are, `k_last` is their product, and the accumulators are kept; a mint
/// or a burn keeps the timestamp, a swap stamps the current time.
pub proof fn law_new_reserves_are_stored(s: PairState, reserve_a: i128, reserve_b: i128, timestamp: u64)
    requires
        fits_i128(reserve_a * reserve_b),
    ensures
        ({
            let kept = restated(s, reserve_a as int, reserve_b as int);
            let swapped = swapped_state(s, reserve_a as int, reserve_b as int, timestamp);
            &&& kept.reserve_a == reserve_a && swapped.reserve_a == reserve_a
            &&& kept.reserve_b == reserve_b && swapped.reserve_b == reserve_b
            &&& kept.k_last == reserve_a * reserve_b && swapped.k_last == reserve_a * reserve_b
            &&& kept.price_a_cumulative == s.price_a_cumulative && swapped.price_a_cumulative
                == s.price_a_cumulative
            &&& kept.price_b_cumulative == s.price_b_cumulative && swapped.price_b_cumulative
                == s.price_b_cumulative
            &&& kept.block_timestamp_last == s.block_timestamp_last
            &&& swapped.block_timestamp_last == timestamp
        }),
{
}

/// The figures a settled swap reports: the trade size is the larger of the
/// two inputs, the reserve total is the sum of the old reserves when it is
/// an `i128`, and for non-negative reserves and positive A amounts (with
/// reserve B scaled by 10_000 an `i128`) the price change is `|balance_b * 10_000 / balance_a - reserve_b * 10_000 /
/// reserve_a|`, each price rounding down.
pub proof fn law_swap_reports_trade_figures(
    o: SwapOutcome,
    s: PairState,
    balance_a: i128,
    balance_b: i128,
    timestamp: u64,
)
    requires
        swap_settles(o, s, balance_a as int, balance_b as int, timestamp),
    ensures
        o.trade_size >= o.amount_a_in && o.trade_size >= o.amount_b_in,
        o.trade_size == o.amount_a_in || o.trade_size == o.amount_b_in,
        fits_i128(s.reserve_a + s.reserve_b) ==> o.total_reserve == s.reserve_a + s.reserve_b,
        o.state.reserve_a == balance_a && o.state.reserve_b == balance_b,
        o.state.block_timestamp_last == timestamp,
        o.state.price_a_cumulative == s.price_a_cumulative,
        o.state.price_b_cumulative == s.price_b_cumulative,
        s.reserve_a > 0 && s.reserve_b >= 0 && balance_a > 0 && balance_b >= 0 && fits_i128(
            s.reserve_b * 10_000,
        ) ==> {
            let new_price = (balance_b * 10_000) / (balance_a as int);
            let old_price = (s.reserve_b * 10_000) / (s.reserve_a as int);
            o.price_delta == if new_price >= old_price {
                new_price - old_price
            } else {
                old_price - new_price
            }
        },
{
    if s.reserve_a > 0 && s.reserve_b >= 0 && balance_a > 0 && balance_b >= 0 {
        let nb = balance_b * 10_000;
        let ob = s.reserve_b * 10_000;
        lemma_tdiv_positive_divisor(nb, balance_a as int);
        lemma_tdiv_positive_divisor(ob, s.reserve_a as int);
        assert(nb / (balance_a as int) >= 0 && 0 <= ob / (s.reserve_a as int) <= ob)
            by (nonlinear_arith)
            requires
                nb >= 0,
                ob >= 0,
                balance_a > 0,
                s.reserve_a > 0,
        ;
    }
}

/// A mint does not trap on a sound pair: when the deposited amounts are
/// `i128`s, a first deposit is not negative on either side, and a later
/// deposit meets positive reserves. It does trap when an amount is not an
/// `i128`, when a first deposit's product is negative, or when a later
/// deposit meets an empty reserve A.
pub proof fn law_mint_defined_on_sound_pairs(
    s: PairState,
    balance_a: int,
    balance_b: int,
    total_supply: int,
)
    ensures
        ({
            let amount_a = balance_a - s.reserve_a;
            let amount_b = balance_b - s.reserve_b;
            &&& fits_i128(amount_a) && fits_i128(amount_b) && (total_supply == 0 ==> amount_a
                >= 0 && amount_b >= 0) && (total_supply != 0 ==> s.reserve_a > 0 && s.reserve_b
                > 0) ==> mint_is_defined(s, balance_a, balance_b, total_supply)
            &&& !fits_i128(amount_a) || !fits_i128(amount_b) ==> !mint_is_defined(
                s,
                balance_a,
                balance_b,
                total_supply,
            )
            &&& total_supply == 0 && fits_i128(amount_a * amount_b) && amount_a * amount_b < 0
                ==> !mint_is_defined(s, balance_a, balance_b, total_supply)
            &&& total_supply != 0 && s.reserve_a == 0 && fits_i128(amount_a * total_supply)
                ==> !mint_is_defined(s, balance_a, balance_b, total_supply)
        }),
{
    let amount_a = balance_a - s.reserve_a;
    let amount_b = balance_b - s.reserve_b;
    if total_supply == 0 && amount_a >= 0 && amount_b >= 0 {
        assert(amount_a * amount_b >= 0) by (nonlinear_arith)
            requires
                amount_a >= 0,
                amount_b >= 0,
        ;
    }
}

/// A burn does not trap against a positive LP supply and non-negative
/// reserves, and does trap against a zero supply once the burned share of
/// reserve A is an `i128`.
pub proof fn law_burn_defined_on_sound_pairs(s: PairState, lp_balance: int, total_supply: int)
    ensures
        total_supply > 0 && s.reserve_a >= 0 && s.reserve_b >= 0 ==> burn_is_defined(
            s,
            lp_balance,
            total_supply,
        ),
        total_supply == 0 && fits_i128(burnable_liquidity(lp_balance) * s.reserve_a)
            ==> !burn_is_defined(s, lp_balance, total_supply),
{
    if total_supply > 0 && s.reserve_a >= 0 && s.reserve_b >= 0 {
        let burned = burnable_liquidity(lp_balance);
        lemma_payout_within_range(burned, s.reserve_a as int, total_supply);
        lemma_payout_within_range(burned, s.reserve_b as int, total_supply);
    }
}

/// For a non-negative burned amount and reserve, a positive supply and a
/// share `burned * reserve` that is an `i128`, the payout lies between 0
/// and that share, so the reserve less the payout is an `i128`.
proof fn lemma_payout_within_range(burned: int, reserve: int, supply: int)
    requires
        burned >= 0,
        reserve >= 0,
        supply > 0,
        reserve <= i128::MAX,
    ensures
        fits_i128(burned * reserve) ==> fits_i128(reserve - tdiv(burned * reserve, supply)),
{
    let x = burned * reserve;
    assert(burned * reserve >= 0) by (nonlinear_arith)
        requires
            burned >= 0,
            reserve >= 0,
    ;
    lemma_tdiv_positive_divisor(x, supply);
    assert(0 <= x / supply <= x) by (nonlinear_arith)
        requires
            x >= 0,
            supply > 0,
    ;
}

/// A swap does not trap on sound inputs: non-negative reserves, outputs
/// and balances, and a fee below 10_000 basis points.
pub proof fn law_swap_defined_on_sound_inputs(
    s: PairState,
    amount_a_out: i128,
    amount_b_out: i128,
    balance_a: i128,
    balance_b: i128,
    fee_bps: int,
)
    requires
        s.reserve_a >= 0,
        s.reserve_b >= 0,
        amount_a_out >= 0,
        amount_b_out >= 0,
        balance_a >= 0,
        balance_b >= 0,
        0 <= fee_bps < 10_000,
    ensures
        swap_is_defined(
            s,
            amount_a_out as int,
            amount_b_out as int,
            balance_a as int,
            balance_b as int,
            fee_bps,
        ),
{
    let ao = amount_a_out as int;
    let bo = amount_b_out as int;
    let ba = balance_a as int;
    let bb = balance_b as int;
    let amounts_in = swap_amounts_in(s, ao, bo, ba, bb);
    let ain = amounts_in.0;
    let bin = amounts_in.1;
    if swap_request_error(s, ao, bo) is None {
        assert(0 <= ain <= ba && 0 <= bin <= bb);
        if fits_i128(ba * 10_000) {
            assert(0 <= ain * fee_bps <= ba * 10_000) by (nonlinear_arith)
                requires
                    0 <= ain <= ba,
                    0 <= fee_bps < 10_000,
            ;
        }
        if fits_i128(bb * 10_000) {
            assert(0 <= bin * fee_bps <= bb * 10_000) by (nonlinear_arith)
                requires
                    0 <= bin <= bb,
                    0 <= fee_bps < 10_000,
            ;
        }
    }
    if swap_result(s, ao, bo, ba, bb, fee_bps) is Ok {
        let adj_a = ba * 10_000 - ain * fee_bps;
        let adj_b = bb * 10_000 - bin * fee_bps;
        assert(0 <= ba <= adj_a && 0 <= bb <= adj_b) by (nonlinear_arith)
            requires
                0 <= ain <= ba,
                0 <= bin <= bb,
                0 <= fee_bps < 10_000,
                adj_a == ba * 10_000 - ain * fee_bps,
                adj_b == bb * 10_000 - bin * fee_bps,
        ;
        assert(0 <= ba * bb <= adj_a * adj_b) by (nonlinear_arith)
            requires
                0 <= ba <= adj_a,
                0 <= bb <= adj_b,
        ;
        let new_price = scaled_price(ba, bb);
        let old_price = scaled_price(s.reserve_a as int, s.reserve_b as int);
        if ba > 0 {
            lemma_tdiv_positive_divisor(bb * 10_000, ba);
            assert(0 <= (bb * 10_000) / ba <= bb * 10_000) by (nonlinear_arith)
                requires
                    bb >= 0,
                    ba > 0,
            ;
        }
        if s.reserve_a > 0 {
            let ra = s.reserve_a as int;
            let rb = s.reserve_b as int;
            lemma_scaled_reserve_fits(ra, rb);
            lemma_tdiv_positive_divisor(rb * 10_000, ra);
            assert(0 <= (rb * 10_000) / ra <= rb * 10_000) by (nonlinear_arith)
                requires
                    rb >= 0,
                    ra > 0,
            ;
        }
        assert(0 <= new_price <= i128::MAX && 0 <= old_price <= i128::MAX);
    }
}

} // verus!
