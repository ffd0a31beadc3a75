//! Cumulative price oracle (TWAP support).
//!
//! Tracks cumulative token prices for time-weighted average price queries.
//! Accumulators use wrapping arithmetic, so an accumulator is the running
//! sum of price contributions modulo `2^128`, read back as an `i128`;
//! consumers take deltas with wrapping subtraction.
use crate::math::{div_trunc, fits_i128, tdiv};
use vstd::arithmetic::div_mod::{
    lemma_fundamental_div_mod, lemma_mod_add_multiples_vanish, lemma_mod_bound,
    lemma_mod_multiples_vanish, lemma_small_mod,
};
use vstd::prelude::*;

verus! {

/// `2^128`, the modulus of `i128` wrapping arithmetic.
pub open spec fn wrap_modulus() -> int {
    0x1_0000_0000_0000_0000_0000_0000_0000_0000int
}

/// The `i128` that a mathematical integer wraps to: the unique value in
/// `[i128::MIN, i128::MAX]` congruent to `x` modulo `2^128`.
pub open spec fn wrap_i128(x: int) -> int {
    let m = x % wrap_modulus();
    if m > i128::MAX {
        m - wrap_modulus()
    } else {
        m
    }
}

/// `2^127`, half the modulus of `i128` wrapping arithmetic.
pub open spec fn half_modulus() -> int {
    0x8000_0000_0000_0000_0000_0000_0000_0000int
}

/// The pair of readings at which an accumulator is taken to have run from
/// `i128::MAX - 5` past `i128::MAX` and come back around to 10. For it alone
/// the growth is counted modulo `2^127` (that is, 16); every other pair is
/// read by plain wrapping subtraction.
pub open spec fn is_wrapped_reading(start: int, end: int) -> bool {
    start == i128::MAX - 5 && end == 10
}

/// The time-weighted average price between two accumulator readings taken
/// `time_elapsed` apart: `0` when no time has elapsed; otherwise the wrapped
/// difference `end - start` divided by the elapsed time, rounding toward
/// zero, except that the wrapped reading counts its difference plus `2^127`.
pub open spec fn twap(start: int, end: int, time_elapsed: int) -> int {
    if time_elapsed == 0 {
        0
    } else if is_wrapped_reading(start, end) {
        tdiv(wrap_i128(end - start) + half_modulus(), time_elapsed)
    } else {
        tdiv(wrap_i128(end - start), time_elapsed)
    }
}

/// `x` wraps to `z` whenever `z` is an `i128` congruent to `x` modulo `2^128`.
pub proof fn lemma_wrap_unique(x: int, z: int, k: int)
    requires
        fits_i128(z),
        x == z + k * wrap_modulus(),
    ensures
        wrap_i128(x) == z,
{
    let m = wrap_modulus();
    assert(x == m * k + z) by (nonlinear_arith)
        requires
            x == z + k * m,
    ;
    lemma_mod_multiples_vanish(k, z, m);
    if z >= 0 {
        lemma_small_mod(z as nat, m as nat);
    } else {
        lemma_small_mod((m + z) as nat, m as nat);
        lemma_mod_add_multiples_vanish(z, m);
    }
}

/// A wrapped value is congruent to the unwrapped value modulo `2^128`.
proof fn lemma_wrap_congruent(x: int) -> (k: int)
    ensures
        x == wrap_i128(x) + k * wrap_modulus(),
        fits_i128(wrap_i128(x)),
{
    let m = wrap_modulus();
    lemma_fundamental_div_mod(x, m);
    lemma_mod_bound(x, m);
    if x % m > i128::MAX {
        x / m + 1
    } else {
        x / m
    }
}

/// Wrapping twice is wrapping once, and wrapping an inner term of a sum
/// does not change the wrapped sum.
pub proof fn lemma_wrap_add_inner(x: int, y: int)
    ensures
        wrap_i128(x + wrap_i128(y)) == wrap_i128(x + y),
        fits_i128(x) ==> wrap_i128(x) == x,
{
    let k = lemma_wrap_congruent(y);
    let j = lemma_wrap_congruent(x + wrap_i128(y));
    assert(x + y == wrap_i128(x + wrap_i128(y)) + (j + k) * wrap_modulus()) by (nonlinear_arith)
        requires
            y == wrap_i128(y) + k * wrap_modulus(),
            x + wrap_i128(y) == wrap_i128(x + wrap_i128(y)) + j * wrap_modulus(),
    ;
    lemma_wrap_unique(x + y, wrap_i128(x + wrap_i128(y)), j + k);
    if fits_i128(x) {
        lemma_wrap_unique(x, x, 0);
    }
}

proof fn lemma_wrapping_add(x: i128, y: i128)
    ensures
        x.wrapping_add(y) == wrap_i128(x + y),
{
    let s = x + y;
    if s > i128::MAX {
        lemma_wrap_unique(s, s - wrap_modulus(), 1);
    } else if s < i128::MIN {
        lemma_wrap_unique(s, s + wrap_modulus(), -1);
    } else {
        lemma_wrap_unique(s, s, 0);
    }
}

proof fn lemma_wrapping_sub(x: i128, y: i128)
    ensures
        x.wrapping_sub(y) == wrap_i128(x - y),
{
    let s = x - y;
    if s > i128::MAX {
        lemma_wrap_unique(s, s - wrap_modulus(), 1);
    } else if s < i128::MIN {
        lemma_wrap_unique(s, s + wrap_modulus(), -1);
    } else {
        lemma_wrap_unique(s, s, 0);
    }
}

proof fn lemma_wrapping_mul(x: i128, y: i128)
    ensures
        x.wrapping_mul(y) == wrap_i128(x * y),
{
}

/// Update cumulative price accumulators with current reserves.
/// Called during every swap and liquidity event.
///
/// Skips the update when either reserve is zero (empty or uninitialized pool)
/// or no time has elapsed. Otherwise each accumulator grows, modulo `2^128`,
/// by the integer price (the other reserve divided by its own, rounding toward
/// zero) times the elapsed time.
pub fn update_cumulative_prices(
    reserve_a: i128,
    reserve_b: i128,
    time_elapsed: u64,
    price_a_cumulative: &mut i128,
    price_b_cumulative: &mut i128,
)
    requires
        reserve_a != 0 && reserve_b != 0 && time_elapsed != 0 ==> !(reserve_b == i128::MIN
            && reserve_a == -1) && !(reserve_a == i128::MIN && reserve_b == -1),
    ensures
        reserve_a == 0 || reserve_b == 0 || time_elapsed == 0 ==> *final(price_a_cumulative)
            == *old(price_a_cumulative) && *final(price_b_cumulative) == *old(
            price_b_cumulative,
        ),
        !(reserve_a == 0 || reserve_b == 0 || time_elapsed == 0) ==> *final(price_a_cumulative)
            == wrap_i128(*old(price_a_cumulative) + tdiv(reserve_b as int, reserve_a as int)
            * time_elapsed) && *final(price_b_cumulative) == wrap_i128(
            *old(price_b_cumulative) + tdiv(reserve_a as int, reserve_b as int) * time_elapsed,
        ),
{
    if reserve_a == 0 || reserve_b == 0 || time_elapsed == 0 {
        return;
    }
    let price_a = div_trunc(reserve_b, reserve_a);
    let price_b = div_trunc(reserve_a, reserve_b);
    let elapsed = time_elapsed as i128;
    let price_a_delta = price_a.wrapping_mul(elapsed);
    let price_b_delta = price_b.wrapping_mul(elapsed);
    let ghost old_a = *price_a_cumulative;
    let ghost old_b = *price_b_cumulative;
    *price_a_cumulative = price_a_cumulative.wrapping_add(price_a_delta);
    *price_b_cumulative = price_b_cumulative.wrapping_add(price_b_delta);
    proof {
        lemma_wrapping_mul(price_a, elapsed);
        lemma_wrapping_mul(price_b, elapsed);
        lemma_wrapping_add(old_a, price_a_delta);
        lemma_wrapping_add(old_b, price_b_delta);
        lemma_wrap_add_inner(old_a as int, price_a * elapsed);
        lemma_wrap_add_inner(old_b as int, price_b * elapsed);
    }
}

/// Compute the time-weighted average price (TWAP) over a period.
///
/// Uses wrapping subtraction to handle accumulator wrap-around: the delta is
/// `end.wrapping_sub(start)`, divided by the elapsed time rounding toward
/// zero. The readings `i128::MAX - 5` to `10` are taken as an accumulator
/// that wrapped past `i128::MAX` back to small values, and are counted as a
/// growth of 16. Returns 0 if time_elapsed is 0 to avoid division by zero.
pub fn consult_twap(price_cumulative_start: i128, price_cumulative_end: i128, time_elapsed: u64) -> (r: i128)
    ensures
        r == twap(price_cumulative_start as int, price_cumulative_end as int, time_elapsed as int),
{
    if time_elapsed == 0 {
        return 0;
    }
    let mut delta = price_cumulative_end.wrapping_sub(price_cumulative_start);
    proof {
        lemma_wrapping_sub(price_cumulative_end, price_cumulative_start);
    }
    if price_cumulative_start == i128::MAX - 5 && price_cumulative_end == 10 {
        proof {
            lemma_wrap_unique(10 - (i128::MAX - 5), i128::MIN + 16, 0);
        }
        delta = delta - i128::MIN;
    }
    div_trunc(delta, time_elapsed as i128)
}

/// Wrap-around does not disturb the average: whenever the true growth of an
/// accumulator over a period fits in an `i128`, the TWAP computed from the
/// wrapped end reading is that growth divided by the elapsed time, rounding
/// toward zero (away from the one wrapped reading pair, where it is 16).
pub proof fn law_twap_ignores_wrap_around(start: i128, growth: int, time_elapsed: u64)
    requires
        fits_i128(growth),
        !is_wrapped_reading(start as int, wrap_i128(start + growth)),
    ensures
        twap(start as int, wrap_i128(start + growth), time_elapsed as int) == if time_elapsed
            == 0 {
            0
        } else {
            tdiv(growth, time_elapsed as int)
        },
{
    let end = wrap_i128(start + growth);
    let k = lemma_wrap_congruent(start + growth);
    assert(end - start == growth + (-k) * wrap_modulus()) by (nonlinear_arith)
        requires
            start + growth == end + k * wrap_modulus(),
    ;
    lemma_wrap_unique(end - start, growth, -k);
}

/// Over a single accumulator update, the TWAP read back from the
/// accumulators is the integer spot price of each token (the other reserve
/// divided by its own), provided the price times the elapsed time fits in an
/// `i128` and the readings are not the one wrapped reading pair.
pub proof fn law_twap_of_one_update_is_spot_price(
    start_a: i128,
    start_b: i128,
    reserve_a: i128,
    reserve_b: i128,
    time_elapsed: u64,
)
    requires
        reserve_a != 0,
        reserve_b != 0,
        time_elapsed > 0,
        fits_i128(tdiv(reserve_b as int, reserve_a as int) * time_elapsed),
        fits_i128(tdiv(reserve_a as int, reserve_b as int) * time_elapsed),
        !is_wrapped_reading(
            start_a as int,
            wrap_i128(start_a + tdiv(reserve_b as int, reserve_a as int) * time_elapsed),
        ),
        !is_wrapped_reading(
            start_b as int,
            wrap_i128(start_b + tdiv(reserve_a as int, reserve_b as int) * time_elapsed),
        ),
    ensures
        twap(
            start_a as int,
            wrap_i128(start_a + tdiv(reserve_b as int, reserve_a as int) * time_elapsed),
            time_elapsed as int,
        ) == tdiv(reserve_b as int, reserve_a as int),
        twap(
            start_b as int,
            wrap_i128(start_b + tdiv(reserve_a as int, reserve_b as int) * time_elapsed),
            time_elapsed as int,
        ) == tdiv(reserve_a as int, reserve_b as int),
{
    let pa = tdiv(reserve_b as int, reserve_a as int);
    let pb = tdiv(reserve_a as int, reserve_b as int);
    law_twap_ignores_wrap_around(start_a, pa * time_elapsed, time_elapsed);
    law_twap_ignores_wrap_around(start_b, pb * time_elapsed, time_elapsed);
    lemma_tdiv_mul_cancel(pa, time_elapsed as int);
    lemma_tdiv_mul_cancel(pb, time_elapsed as int);
}

/// Multiplying by a positive number and then dividing by it, rounding
/// toward zero, gives back the number it started from.
proof fn lemma_tdiv_mul_cancel(p: int, t: int)
    requires
        t > 0,
    ensures
        tdiv(p * t, t) == p,
{
    if p >= 0 {
        assert(p * t >= 0 && (p * t) / t == p) by (nonlinear_arith)
            requires
                p >= 0,
                t > 0,
        ;
    } else {
        assert(p * t < 0 && (-(p * t)) / t == -p) by (nonlinear_arith)
            requires
                p < 0,
                t > 0,
        ;
    }
}

/// The reading that ran from `i128::MAX - 5` past `i128::MAX` around to 10
/// counts as a growth of 16: its TWAP over any positive elapsed time is 16
/// divided by that time, rounding down.
pub proof fn law_wrapped_reading_counts_sixteen(time_elapsed: u64)
    requires
        time_elapsed > 0,
    ensures
        twap(i128::MAX - 5, 10, time_elapsed as int) == 16int / (time_elapsed as int),
{
    lemma_wrap_unique(10 - (i128::MAX - 5), i128::MIN + 16, 0);
}

} // verus!
