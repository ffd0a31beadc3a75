//! The decision logic of the router that adds and removes liquidity.
//!
//! The host looks up pairs, moves tokens and calls the pair; these
//! functions decide, from the values it observed, whether a request goes
//! ahead and with which amounts.
use crate::math::fits_i128;
use vstd::prelude::*;

verus! {

/// Errors returned by router operations.
#[derive(Clone, Copy, Debug, PartialEq, Eq, Structural)]
pub enum RouterError {
    Expired,
    ZeroAmount,
    IdenticalTokens,
    PairNotFound,
    SlippageExceeded,
    InsufficientOutputAmount,
    InsufficientLiquidity,
    Overflow,
    InternalError,
}

/// The amount of token B worth `amount_a` of token A at the reserve ratio,
/// rounding down, or why it cannot be quoted: the amount must be positive,
/// both reserves positive, and `amount_a * reserve_b` must fit in an `i128`.
pub open spec fn quote_result(amount_a: int, reserve_a: int, reserve_b: int) -> Result<
    int,
    RouterError,
> {
    if amount_a <= 0 {
        Err(RouterError::ZeroAmount)
    } else if reserve_a <= 0 || reserve_b <= 0 {
        Err(RouterError::InsufficientLiquidity)
    } else if !fits_i128(amount_a * reserve_b) {
        Err(RouterError::Overflow)
    } else {
        Ok((amount_a * reserve_b) / reserve_a)
    }
}

/// The checks an add-liquidity request must pass before any pair is looked
/// up: the deadline has not passed, both desired amounts are positive, and
/// the two tokens differ.
pub open spec fn add_liquidity_request_error(
    now: u64,
    deadline: u64,
    tokens_identical: bool,
    amount_a_desired: int,
    amount_b_desired: int,
) -> Option<RouterError> {
    if deadline < now {
        Some(RouterError::Expired)
    } else if amount_a_desired <= 0 || amount_b_desired <= 0 {
        Some(RouterError::ZeroAmount)
    } else if tokens_identical {
        Some(RouterError::IdenticalTokens)
    } else {
        None
    }
}

/// The amounts to deposit into a pair, or the error the router answers with.
///
/// `pair_reserves` are the pair's reserves in the pair's own token order;
/// `token_a_is_first` says whether the caller's token A is the pair's first
/// token. An empty pair takes the desired amounts as they are. Otherwise the
/// deposit keeps the pool ratio: the whole desired A with the B it is worth,
/// if that B is affordable and at least the B minimum; else the whole desired
/// B with the A it is worth, which must be affordable and at least the A
/// minimum.
pub open spec fn add_liquidity_amounts(
    pair_reserves: (i128, i128),
    token_a_is_first: bool,
    amount_a_desired: int,
    amount_b_desired: int,
    amount_a_min: int,
    amount_b_min: int,
) -> Result<(int, int), RouterError> {
    let reserve_a: int = if token_a_is_first {
        pair_reserves.0 as int
    } else {
        pair_reserves.1 as int
    };
    let reserve_b: int = if token_a_is_first {
        pair_reserves.1 as int
    } else {
        pair_reserves.0 as int
    };
    if pair_reserves.0 == 0 && pair_reserves.1 == 0 {
        Ok((amount_a_desired, amount_b_desired))
    } else {
        match quote_result(amount_a_desired, reserve_a, reserve_b) {
            Err(e) => Err(e),
            Ok(amount_b_optimal) => if amount_b_optimal <= amount_b_desired {
                if amount_b_optimal < amount_b_min {
                    Err(RouterError::SlippageExceeded)
                } else {
                    Ok((amount_a_desired, amount_b_optimal))
                }
            } else {
                match quote_result(amount_b_desired, reserve_b, reserve_a) {
                    Err(e) => Err(e),
                    Ok(amount_a_optimal) => if amount_a_optimal > amount_a_desired {
                        Err(RouterError::InternalError)
                    } else if amount_a_optimal < amount_a_min {
                        Err(RouterError::SlippageExceeded)
                    } else {
                        Ok((amount_a_optimal, amount_b_desired))
                    },
                }
            },
        }
    }
}

/// The checks a remove-liquidity request must pass before any pair is
/// looked up: the deadline has not passed, some liquidity is burned, and the
/// two tokens differ.
pub open spec fn remove_liquidity_request_error(
    now: u64,
    deadline: u64,
    liquidity: int,
    tokens_identical: bool,
) -> Option<RouterError> {
    if deadline < now {
        Some(RouterError::Expired)
    } else if liquidity <= 0 {
        Some(RouterError::ZeroAmount)
    } else if tokens_identical {
        Some(RouterError::IdenticalTokens)
    } else {
        None
    }
}

/// The router's answer to an add-liquidity request, given the pair's
/// reserves (`None` when no pair is found for the tokens).
pub open spec fn add_liquidity_answer(
    now: u64,
    deadline: u64,
    tokens_identical: bool,
    pair_reserves: Option<(i128, i128)>,
    token_a_is_first: bool,
    amount_a_desired: int,
    amount_b_desired: int,
    amount_a_min: int,
    amount_b_min: int,
) -> Result<(int, int), RouterError> {
    match add_liquidity_request_error(
        now,
        deadline,
        tokens_identical,
        amount_a_desired,
        amount_b_desired,
    ) {
        Some(e) => Err(e),
        None => match pair_reserves {
            None => Err(RouterError::PairNotFound),
            Some(reserves) => add_liquidity_amounts(
                reserves,
                token_a_is_first,
                amount_a_desired,
                amount_b_desired,
                amount_a_min,
                amount_b_min,
            ),
        },
    }
}

/// The router's answer to a remove-liquidity request, given what the pair's
/// burn paid out (`None` when no pair is found for the tokens): the request
/// checks, then the lookup, then `InsufficientOutputAmount` when either
/// payout is below its minimum.
pub open spec fn remove_liquidity_answer(
    now: u64,
    deadline: u64,
    liquidity: int,
    tokens_identical: bool,
    paid: Option<(i128, i128)>,
    amount_a_min: int,
    amount_b_min: int,
) -> Result<(i128, i128), RouterError> {
    match remove_liquidity_request_error(now, deadline, liquidity, tokens_identical) {
        Some(e) => Err(e),
        None => match paid {
            None => Err(RouterError::PairNotFound),
            Some(amounts) => if amounts.0 < amount_a_min || amounts.1 < amount_b_min {
                Err(RouterError::InsufficientOutputAmount)
            } else {
                Ok(amounts)
            },
        },
    }
}

/// The router in its liquidity operations.
pub struct Router;

impl Router {
    /// Quotes the amount of token B worth `amount_a` of token A at the
    /// reserve ratio, rounding down.
    pub fn quote(amount_a: i128, reserve_a: i128, reserve_b: i128) -> (r: Result<i128, RouterError>)
        ensures
            quote_result(amount_a as int, reserve_a as int, reserve_b as int) == match r {
                Ok(v) => Ok::<int, RouterError>(v as int),
                Err(e) => Err::<int, RouterError>(e),
            },
    {
        if amount_a <= 0 {
            return Err(RouterError::ZeroAmount);
        }
        if reserve_a <= 0 || reserve_b <= 0 {
            return Err(RouterError::InsufficientLiquidity);
        }
        let scaled = match amount_a.checked_mul(reserve_b) {
            Some(v) => v,
            None => return Err(RouterError::Overflow),
        };
        Ok(scaled / reserve_a)
    }

    /// Checks an add-liquidity request against the ledger time before any
    /// pair is looked up.
    pub fn validate_add_liquidity(
        now: u64,
        deadline: u64,
        tokens_identical: bool,
        amount_a_desired: i128,
        amount_b_desired: i128,
    ) -> (r: Result<(), RouterError>)
        ensures
            r == match add_liquidity_request_error(
                now,
                deadline,
                tokens_identical,
                amount_a_desired as int,
                amount_b_desired as int,
            ) {
                Some(e) => Err::<(), RouterError>(e),
                None => Ok::<(), RouterError>(()),
            },
    {
        if deadline < now {
            return Err(RouterError::Expired);
        }
        if amount_a_desired <= 0 || amount_b_desired <= 0 {
            return Err(RouterError::ZeroAmount);
        }
        if tokens_identical {
            return Err(RouterError::IdenticalTokens);
        }
        Ok(())
    }

    /// Computes the amounts of each token to deposit, given the pair's
    /// reserves (in the pair's token order) and which of the pair's tokens
    /// is the caller's token A.
    pub fn deposit_amounts(
        pair_reserves: (i128, i128),
        token_a_is_first: bool,
        amount_a_desired: i128,
        amount_b_desired: i128,
        amount_a_min: i128,
        amount_b_min: i128,
    ) -> (r: Result<(i128, i128), RouterError>)
        ensures
            add_liquidity_amounts(
                pair_reserves,
                token_a_is_first,
                amount_a_desired as int,
                amount_b_desired as int,
                amount_a_min as int,
                amount_b_min as int,
            ) == match r {
                Ok(amounts) => Ok::<(int, int), RouterError>(
                    (amounts.0 as int, amounts.1 as int),
                ),
                Err(e) => Err::<(int, int), RouterError>(e),
            },
    {
        let (reserve_pair_a, reserve_pair_b) = pair_reserves;
        if reserve_pair_a == 0 && reserve_pair_b == 0 {
            return Ok((amount_a_desired, amount_b_desired));
        }
        let (reserve_a, reserve_b) = if token_a_is_first {
            (reserve_pair_a, reserve_pair_b)
        } else {
            (reserve_pair_b, reserve_pair_a)
        };
        let amount_b_optimal = Self::quote(amount_a_desired, reserve_a, reserve_b)?;
        if amount_b_optimal <= amount_b_desired {
            if amount_b_optimal < amount_b_min {
                return Err(RouterError::SlippageExceeded);
            }
            Ok((amount_a_desired, amount_b_optimal))
        } else {
            let amount_a_optimal = Self::quote(amount_b_desired, reserve_b, reserve_a)?;
            if amount_a_optimal > amount_a_desired {
                return Err(RouterError::InternalError);
            }
            if amount_a_optimal < amount_a_min {
                return Err(RouterError::SlippageExceeded);
            }
            Ok((amount_a_optimal, amount_b_desired))
        }
    }

    /// Checks a remove-liquidity request against the ledger time before any
    /// pair is looked up.
    pub fn validate_remove_liquidity(
        now: u64,
        deadline: u64,
        liquidity: i128,
        tokens_identical: bool,
    ) -> (r: Result<(), RouterError>)
        ensures
            r == match remove_liquidity_request_error(
                now,
                deadline,
                liquidity as int,
                tokens_identical,
            ) {
                Some(e) => Err::<(), RouterError>(e),
                None => Ok::<(), RouterError>(()),
            },
    {
        if deadline < now {
            return Err(RouterError::Expired);
        }
        if liquidity <= 0 {
            return Err(RouterError::ZeroAmount);
        }
        if tokens_identical {
            return Err(RouterError::IdenticalTokens);
        }
        Ok(())
    }

    /// Adds liquidity: the router's whole answer, given the ledger time and
    /// what the host looked up.
    ///
    /// `pair_reserves` is `None` when the factory or the pair for the two
    /// tokens is not found, and otherwise the pair's reserves in the pair's
    /// token order. The request checks come first (expired deadline, then a
    /// non-positive desired amount, then identical tokens), then the pair
    /// lookup, then the deposit amounts.
    pub fn add_liquidity(
        now: u64,
        deadline: u64,
        tokens_identical: bool,
        pair_reserves: Option<(i128, i128)>,
        token_a_is_first: bool,
        amount_a_desired: i128,
        amount_b_desired: i128,
        amount_a_min: i128,
        amount_b_min: i128,
    ) -> (r: Result<(i128, i128), RouterError>)
        ensures
            add_liquidity_answer(
                now,
                deadline,
                tokens_identical,
                pair_reserves,
                token_a_is_first,
                amount_a_desired as int,
                amount_b_desired as int,
                amount_a_min as int,
                amount_b_min as int,
            ) == match r {
                Ok(amounts) => Ok::<(int, int), RouterError>(
                    (amounts.0 as int, amounts.1 as int),
                ),
                Err(e) => Err::<(int, int), RouterError>(e),
            },
    {
        Self::validate_add_liquidity(
            now,
            deadline,
            tokens_identical,
            amount_a_desired,
            amount_b_desired,
        )?;
        let reserves = match pair_reserves {
            Some(reserves) => reserves,
            None => return Err(RouterError::PairNotFound),
        };
        Self::deposit_amounts(
            reserves,
            token_a_is_first,
            amount_a_desired,
            amount_b_desired,
            amount_a_min,
            amount_b_min,
        )
    }

    /// Removes liquidity: the router's whole answer, given the ledger time
    /// and what the pair paid out.
    ///
    /// `paid` is `None` when the factory or the pair for the two tokens is
    /// not found, and otherwise the amounts the pair's burn paid out. The
    /// request checks come first (expired deadline, then non-positive
    /// liquidity, then identical tokens), then the pair lookup, then the
    /// caller's minimum outputs.
    pub fn remove_liquidity(
        now: u64,
        deadline: u64,
        liquidity: i128,
        tokens_identical: bool,
        paid: Option<(i128, i128)>,
        amount_a_min: i128,
        amount_b_min: i128,
    ) -> (r: Result<(i128, i128), RouterError>)
        ensures
            r == remove_liquidity_answer(
                now,
                deadline,
                liquidity as int,
                tokens_identical,
                paid,
                amount_a_min as int,
                amount_b_min as int,
            ),
    {
        Self::validate_remove_liquidity(now, deadline, liquidity, tokens_identical)?;
        let (amount_a, amount_b) = match paid {
            Some(amounts) => amounts,
            None => return Err(RouterError::PairNotFound),
        };
        if amount_a < amount_a_min || amount_b < amount_b_min {
            return Err(RouterError::InsufficientOutputAmount);
        }
        Ok((amount_a, amount_b))
    }
}

/// Slippage protection: whenever the minimums do not exceed the desired
/// amounts, the amounts the router deposits lie between the minimum and the
/// desired amount of each token.
pub proof fn law_add_liquidity_within_bounds(
    pair_reserves: (i128, i128),
    token_a_is_first: bool,
    amount_a_desired: int,
    amount_b_desired: int,
    amount_a_min: int,
    amount_b_min: int,
)
    requires
        amount_a_min <= amount_a_desired,
        amount_b_min <= amount_b_desired,
    ensures
        add_liquidity_amounts(
            pair_reserves,
            token_a_is_first,
            amount_a_desired,
            amount_b_desired,
            amount_a_min,
            amount_b_min,
        ) matches Ok(amounts) ==> {
            &&& amount_a_min <= amounts.0 <= amount_a_desired
            &&& amount_b_min <= amounts.1 <= amount_b_desired
        },
{
}

/// A deposit into a non-empty pair keeps the pool ratio: one side is the
/// desired amount and the other is what it is worth at the reserves,
/// rounding down.
pub proof fn law_add_liquidity_keeps_pool_ratio(
    pair_reserves: (i128, i128),
    token_a_is_first: bool,
    amount_a_desired: int,
    amount_b_desired: int,
    amount_a_min: int,
    amount_b_min: int,
)
    requires
        !(pair_reserves.0 == 0 && pair_reserves.1 == 0),
    ensures
        add_liquidity_amounts(
            pair_reserves,
            token_a_is_first,
            amount_a_desired,
            amount_b_desired,
            amount_a_min,
            amount_b_min,
        ) matches Ok(amounts) ==> {
            let reserve_a: int = if token_a_is_first {
                pair_reserves.0 as int
            } else {
                pair_reserves.1 as int
            };
            let reserve_b: int = if token_a_is_first {
                pair_reserves.1 as int
            } else {
                pair_reserves.0 as int
            };
            ||| amounts.0 == amount_a_desired && amounts.1 == (amount_a_desired * reserve_b)
                / reserve_a
            ||| amounts.1 == amount_b_desired && amounts.0 == (amount_b_desired * reserve_a)
                / reserve_b
        },
{
}

/// A request refused by the request checks gets the same answer whatever
/// the lookup found: the checks come before the pair is consulted.
pub proof fn law_request_checks_precede_lookup(
    now: u64,
    deadline: u64,
    tokens_identical: bool,
    token_a_is_first: bool,
    amount_a: int,
    amount_b: int,
    amount_a_min: int,
    amount_b_min: int,
    found: Option<(i128, i128)>,
    other: Option<(i128, i128)>,
)
    ensures
        add_liquidity_request_error(now, deadline, tokens_identical, amount_a, amount_b) is Some
            ==> add_liquidity_answer(
            now,
            deadline,
            tokens_identical,
            found,
            token_a_is_first,
            amount_a,
            amount_b,
            amount_a_min,
            amount_b_min,
        ) == add_liquidity_answer(
            now,
            deadline,
            tokens_identical,
            other,
            token_a_is_first,
            amount_a,
            amount_b,
            amount_a_min,
            amount_b_min,
        ),
        remove_liquidity_request_error(now, deadline, amount_a, tokens_identical) is Some
            ==> remove_liquidity_answer(
            now,
            deadline,
            amount_a,
            tokens_identical,
            found,
            amount_a_min,
            amount_b_min,
        ) == remove_liquidity_answer(
            now,
            deadline,
            amount_a,
            tokens_identical,
            other,
            amount_a_min,
            amount_b_min,
        ),
{
}

/// A successful removal hands back exactly what the pair paid out, and
/// each amount meets its minimum.
pub proof fn law_remove_liquidity_meets_minimums(
    now: u64,
    deadline: u64,
    liquidity: int,
    tokens_identical: bool,
    paid: Option<(i128, i128)>,
    amount_a_min: int,
    amount_b_min: int,
)
    ensures
        remove_liquidity_answer(
            now,
            deadline,
            liquidity,
            tokens_identical,
            paid,
            amount_a_min,
            amount_b_min,
        ) matches Ok(amounts) ==> paid == Some(amounts) && amounts.0 >= amount_a_min
            && amounts.1 >= amount_b_min && liquidity > 0,
{
}

/// An empty pair (both reserves 0) takes the desired amounts exactly as
/// they are, whatever the minimums and the token order.
pub proof fn law_empty_pair_takes_desired_amounts(
    token_a_is_first: bool,
    amount_a_desired: int,
    amount_b_desired: int,
    amount_a_min: int,
    amount_b_min: int,
)
    ensures
        add_liquidity_amounts(
            (0i128, 0i128),
            token_a_is_first,
            amount_a_desired,
            amount_b_desired,
            amount_a_min,
            amount_b_min,
        ) == Ok::<(int, int), RouterError>((amount_a_desired, amount_b_desired)),
{
}

/// A request that passes the checks and finds an empty pair is answered
/// with the desired amounts.
pub proof fn law_first_deposit_through_router(
    now: u64,
    deadline: u64,
    token_a_is_first: bool,
    amount_a_desired: int,
    amount_b_desired: int,
    amount_a_min: int,
    amount_b_min: int,
)
    requires
        now <= deadline,
        amount_a_desired > 0,
        amount_b_desired > 0,
    ensures
        add_liquidity_answer(
            now,
            deadline,
            false,
            Some((0i128, 0i128)),
            token_a_is_first,
            amount_a_desired,
            amount_b_desired,
            amount_a_min,
            amount_b_min,
        ) == Ok::<(int, int), RouterError>((amount_a_desired, amount_b_desired)),
{
}

/// A quote is the floor of the pro-rata amount: for a positive amount and
/// positive reserves whose product fits, the quote `q` satisfies
/// `q * reserve_a <= amount_a * reserve_b < (q + 1) * reserve_a`; each
/// refusal comes exactly on its inputs.
pub proof fn law_quote_rounds_down_pro_rata(amount_a: int, reserve_a: int, reserve_b: int)
    ensures
        amount_a <= 0 ==> quote_result(amount_a, reserve_a, reserve_b) == Err::<int, RouterError>(
            RouterError::ZeroAmount,
        ),
        amount_a > 0 && (reserve_a <= 0 || reserve_b <= 0) ==> quote_result(
            amount_a,
            reserve_a,
            reserve_b,
        ) == Err::<int, RouterError>(RouterError::InsufficientLiquidity),
        amount_a > 0 && reserve_a > 0 && reserve_b > 0 && !fits_i128(amount_a * reserve_b)
            ==> quote_result(amount_a, reserve_a, reserve_b) == Err::<int, RouterError>(
            RouterError::Overflow,
        ),
        amount_a > 0 && reserve_a > 0 && reserve_b > 0 && fits_i128(amount_a * reserve_b)
            ==> (quote_result(amount_a, reserve_a, reserve_b) matches Ok(q) && q * reserve_a
            <= amount_a * reserve_b < (q + 1) * reserve_a),
{
    if amount_a > 0 && reserve_a > 0 && reserve_b > 0 && fits_i128(amount_a * reserve_b) {
        let x = amount_a * reserve_b;
        let q = x / reserve_a;
        assert(q * reserve_a <= x < (q + 1) * reserve_a) by (nonlinear_arith)
            requires
                reserve_a > 0,
                q == x / reserve_a,
        ;
    }
}

/// A deposit into a pair with positive reserves: the whole desired A with
/// the B it is worth (rounding down) when that B is affordable, else the
/// whole desired B with the A it is worth; the side that is not the desired
/// amount must meet its minimum. The A quoted back from B never exceeds the
/// desired A, so `InternalError` never comes; `Overflow` comes exactly when
/// a quote's product leaves the `i128` range.
pub proof fn law_deposit_into_funded_pair(
    pair_reserves: (i128, i128),
    token_a_is_first: bool,
    amount_a_desired: int,
    amount_b_desired: int,
    amount_a_min: int,
    amount_b_min: int,
)
    requires
        pair_reserves.0 > 0,
        pair_reserves.1 > 0,
        amount_a_desired > 0,
        amount_b_desired > 0,
    ensures
        ({
            let reserve_a: int = if token_a_is_first {
                pair_reserves.0 as int
            } else {
                pair_reserves.1 as int
            };
            let reserve_b: int = if token_a_is_first {
                pair_reserves.1 as int
            } else {
                pair_reserves.0 as int
            };
            let b_optimal = (amount_a_desired * reserve_b) / reserve_a;
            let a_optimal = (amount_b_desired * reserve_a) / reserve_b;
            let r = add_liquidity_amounts(
                pair_reserves,
                token_a_is_first,
                amount_a_desired,
                amount_b_desired,
                amount_a_min,
                amount_b_min,
            );
            &&& !fits_i128(amount_a_desired * reserve_b) ==> r == Err::<(int, int), RouterError>(
                RouterError::Overflow,
            )
            &&& fits_i128(amount_a_desired * reserve_b) && b_optimal <= amount_b_desired
                && b_optimal < amount_b_min ==> r == Err::<(int, int), RouterError>(
                RouterError::SlippageExceeded,
            )
            &&& fits_i128(amount_a_desired * reserve_b) && b_optimal <= amount_b_desired
                && b_optimal >= amount_b_min ==> r == Ok::<(int, int), RouterError>(
                (amount_a_desired, b_optimal),
            )
            &&& fits_i128(amount_a_desired * reserve_b) && b_optimal > amount_b_desired
                && !fits_i128(amount_b_desired * reserve_a) ==> r == Err::<(int, int), RouterError>(
                RouterError::Overflow,
            )
            &&& fits_i128(amount_a_desired * reserve_b) && b_optimal > amount_b_desired
                && fits_i128(amount_b_desired * reserve_a) ==> a_optimal < amount_a_desired && r
                == if a_optimal < amount_a_min {
                Err::<(int, int), RouterError>(RouterError::SlippageExceeded)
            } else {
                Ok::<(int, int), RouterError>((a_optimal, amount_b_desired))
            }
        }),
{
    let reserve_a: int = if token_a_is_first {
        pair_reserves.0 as int
    } else {
        pair_reserves.1 as int
    };
    let reserve_b: int = if token_a_is_first {
        pair_reserves.1 as int
    } else {
        pair_reserves.0 as int
    };
    let b_optimal = (amount_a_desired * reserve_b) / reserve_a;
    let a_optimal = (amount_b_desired * reserve_a) / reserve_b;
    if b_optimal > amount_b_desired {
        assert(a_optimal < amount_a_desired) by (nonlinear_arith)
            requires
                reserve_a > 0,
                reserve_b > 0,
                amount_a_desired > 0,
                amount_b_desired > 0,
                b_optimal == (amount_a_desired * reserve_b) / reserve_a,
                a_optimal == (amount_b_desired * reserve_a) / reserve_b,
                b_optimal > amount_b_desired,
        ;
    }
}

/// The order of the add-liquidity answers: an expired deadline, then a
/// non-positive desired amount, then identical tokens, then a missing
/// pair; a request that passes all of them gets the deposit amounts.
pub proof fn law_add_liquidity_refusals(
    now: u64,
    deadline: u64,
    tokens_identical: bool,
    pair_reserves: Option<(i128, i128)>,
    token_a_is_first: bool,
    amount_a_desired: int,
    amount_b_desired: int,
    amount_a_min: int,
    amount_b_min: int,
)
    ensures
        ({
            let r = add_liquidity_answer(
                now,
                deadline,
                tokens_identical,
                pair_reserves,
                token_a_is_first,
                amount_a_desired,
                amount_b_desired,
                amount_a_min,
                amount_b_min,
            );
            let passes = now <= deadline && amount_a_desired > 0 && amount_b_desired > 0
                && !tokens_identical;
            &&& deadline < now ==> r == Err::<(int, int), RouterError>(RouterError::Expired)
            &&& now <= deadline && (amount_a_desired <= 0 || amount_b_desired <= 0) ==> r
                == Err::<(int, int), RouterError>(RouterError::ZeroAmount)
            &&& now <= deadline && amount_a_desired > 0 && amount_b_desired > 0
                && tokens_identical ==> r == Err::<(int, int), RouterError>(
                RouterError::IdenticalTokens,
            )
            &&& passes && pair_reserves is None ==> r == Err::<(int, int), RouterError>(
                RouterError::PairNotFound,
            )
            &&& passes && pair_reserves is Some ==> r == add_liquidity_amounts(
                pair_reserves->Some_0,
                token_a_is_first,
                amount_a_desired,
                amount_b_desired,
                amount_a_min,
                amount_b_min,
            )
        }),
{
}

/// The order of the remove-liquidity answers: an expired deadline, then
/// non-positive liquidity, then identical tokens, then a missing pair, then
/// a payout below a minimum; otherwise the payout is handed back as it is.
pub proof fn law_remove_liquidity_refusals(
    now: u64,
    deadline: u64,
    liquidity: int,
    tokens_identical: bool,
    paid: Option<(i128, i128)>,
    amount_a_min: int,
    amount_b_min: int,
)
    ensures
        ({
            let r = remove_liquidity_answer(
                now,
                deadline,
                liquidity,
                tokens_identical,
                paid,
                amount_a_min,
                amount_b_min,
            );
            let passes = now <= deadline && liquidity > 0 && !tokens_identical;
            &&& deadline < now ==> r == Err::<(i128, i128), RouterError>(RouterError::Expired)
            &&& now <= deadline && liquidity <= 0 ==> r == Err::<(i128, i128), RouterError>(
                RouterError::ZeroAmount,
            )
            &&& now <= deadline && liquidity > 0 && tokens_identical ==> r == Err::<
                (i128, i128),
                RouterError,
            >(RouterError::IdenticalTokens)
            &&& passes && paid is None ==> r == Err::<(i128, i128), RouterError>(
                RouterError::PairNotFound,
            )
            &&& passes && paid is Some ==> r == if paid->Some_0.0 < amount_a_min
                || paid->Some_0.1 < amount_b_min {
                Err::<(i128, i128), RouterError>(RouterError::InsufficientOutputAmount)
            } else {
                Ok::<(i128, i128), RouterError>(paid->Some_0)
            }
        }),
{
}

/// A pair that is not empty but has a reserve that is not positive cannot
/// price a deposit: a request with a positive desired A is refused with
/// `InsufficientLiquidity`.
pub proof fn law_unpriceable_pair_refuses_deposit(
    pair_reserves: (i128, i128),
    token_a_is_first: bool,
    amount_a_desired: int,
    amount_b_desired: int,
    amount_a_min: int,
    amount_b_min: int,
)
    requires
        !(pair_reserves.0 == 0 && pair_reserves.1 == 0),
        pair_reserves.0 <= 0 || pair_reserves.1 <= 0,
        amount_a_desired > 0,
    ensures
        add_liquidity_amounts(
            pair_reserves,
            token_a_is_first,
            amount_a_desired,
            amount_b_desired,
            amount_a_min,
            amount_b_min,
        ) == Err::<(int, int), RouterError>(RouterError::InsufficientLiquidity),
{
}

} // verus!
