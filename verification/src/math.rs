//! Fixed-point arithmetic helpers for price and reserve calculations.
//! All values use 1e14 scaling to maintain precision without floating point.
use ethnum::U256;
use vstd::prelude::*;

verus! {

/// Fixed-point scale factor.
pub const SCALE: i128 = 100_000_000_000_000;

/// Basis point denominator.
pub const BPS_DENOMINATOR: i128 = 10_000;

/// Minimum liquidity locked on first mint to prevent division by zero.
pub const MINIMUM_LIQUIDITY: i128 = 1_000;

/// Whether a mathematical integer is representable as an `i128`.
pub open spec fn fits_i128(x: int) -> bool {
    i128::MIN <= x <= i128::MAX
}

/// Integer division rounding toward zero, as Rust's `/` on signed integers
/// does; taken as 0 for a zero divisor, where Rust panics.
pub open spec fn tdiv(a: int, b: int) -> int {
    if b == 0 {
        0
    } else if a >= 0 && b > 0 {
        a / b
    } else if a < 0 && b < 0 {
        (-a) / (-b)
    } else if a < 0 {
        -((-a) / b)
    } else {
        -(a / (-b))
    }
}

/// Signed division rounding toward zero. Division by zero and `i128::MIN / -1`
/// panic in Rust and are excluded.
pub(crate) fn div_trunc(a: i128, b: i128) -> (r: i128)
    requires
        b != 0,
        !(a == i128::MIN && b == -1),
    ensures
        r == tdiv(a as int, b as int),
{
    let q = a.checked_div(b);
    proof {
        let ai = a as int;
        let bi = b as int;
        if ai < 0 && bi < 0 {
            assert(0 <= (-ai) / (-bi) <= -ai) by (nonlinear_arith)
                requires
                    ai < 0,
                    bi < 0,
            ;
            if bi < -1 {
                assert((-ai) / (-bi) <= (-ai) / 2) by (nonlinear_arith)
                    requires
                        ai < 0,
                        bi < -1,
                ;
            }
        }
        if ai < 0 && bi > 0 {
            assert(0 <= (-ai) / bi <= -ai) by (nonlinear_arith)
                requires
                    ai < 0,
                    bi > 0,
            ;
        }
        if ai > 0 && bi < 0 {
            assert(0 <= ai / (-bi) <= ai) by (nonlinear_arith)
                requires
                    ai > 0,
                    bi < 0,
            ;
        }
        if ai >= 0 && bi > 0 {
            assert(0 <= ai / bi <= ai) by (nonlinear_arith)
                requires
                    ai >= 0,
                    bi > 0,
            ;
        }
    }
    q.unwrap()
}

/// Absolute value of a mathematical integer.
pub open spec fn abs(x: int) -> int {
    if x < 0 {
        -x
    } else {
        x
    }
}

/// Magnitude of an `i128` as a `u128`, defined for every input including `i128::MIN`.
fn unsigned_abs(x: i128) -> (r: u128)
    ensures
        r == abs(x as int),
{
    if x < 0 {
        ((-(x + 1)) as u128) + 1
    } else {
        x as u128
    }
}

/// `2^128`, the weight of the high word of a 256-bit number.
pub open spec fn word_base() -> nat {
    0x1_0000_0000_0000_0000_0000_0000_0000_0000nat
}

/// The value of a 256-bit unsigned number held as `(high, low)` 128-bit words.
pub open spec fn words_value(w: (u128, u128)) -> nat {
    w.0 as nat * word_base() + w.1 as nat
}

/// Calls ethnum's `U256::checked_mul` on two 256-bit numbers given as
/// `(high, low)` words (built with `U256::from_words`, read back with
/// `U256::into_words`). Claimed: the result is the exact product when it is
/// below `2^256`, and `None` otherwise, as ethnum's `overflowing_mul` check does.
#[verifier::external_body]
fn u256_checked_mul(a: (u128, u128), b: (u128, u128)) -> (r: Option<(u128, u128)>)
    ensures
        r is Some <==> words_value(a) * words_value(b) < word_base() * word_base(),
        r matches Some(p) ==> words_value(p) == words_value(a) * words_value(b),
{
    match U256::from_words(a.0, a.1).checked_mul(U256::from_words(b.0, b.1)) {
        Some(p) => Some(p.into_words()),
        None => None,
    }
}

/// Calls ethnum's `U256::checked_div` on two 256-bit numbers given as
/// `(high, low)` words. Claimed: `None` exactly when the divisor is zero,
/// otherwise the floor of the quotient.
#[verifier::external_body]
fn u256_checked_div(a: (u128, u128), b: (u128, u128)) -> (r: Option<(u128, u128)>)
    ensures
        r is Some <==> words_value(b) != 0,
        r matches Some(q) ==> words_value(q) == words_value(a) / words_value(b),
{
    match U256::from_words(a.0, a.1).checked_div(U256::from_words(b.0, b.1)) {
        Some(q) => Some(q.into_words()),
        None => None,
    }
}

proof fn lemma_tdiv_product(a: int, b: int, d: int)
    requires
        d != 0,
    ensures
        tdiv(a * b, d) == if (a < 0) != ((b < 0) != (d < 0)) {
            -((abs(a) * abs(b)) / abs(d))
        } else {
            (abs(a) * abs(b)) / abs(d)
        },
        abs(a) * abs(b) == abs(a * b),
{
    assert(abs(a) * abs(b) == abs(a * b)) by (nonlinear_arith);
    assert(a * b < 0 <==> ((a < 0 && b > 0) || (a > 0 && b < 0))) by (nonlinear_arith);
    if a == 0 || b == 0 {
        assert(a * b == 0) by (nonlinear_arith)
            requires
                a == 0 || b == 0,
        ;
        assert(abs(a) * abs(b) == 0) by (nonlinear_arith)
            requires
                a == 0 || b == 0,
        ;
    }
}

/// Multiplies two scaled values and divides by a third, rounding toward zero.
///
/// The product is formed in 256 bits, so it never overflows; `None` is
/// returned when the denominator is zero or when the quotient does not fit
/// in an `i128`.
pub fn mul_div(a: i128, b: i128, denominator: i128) -> (r: Option<i128>)
    ensures
        denominator == 0 ==> r is None,
        denominator != 0 ==> (r is Some <==> fits_i128(
            tdiv(a * b, denominator as int),
        )),
        r matches Some(v) ==> v == tdiv(a * b, denominator as int),
{
    if denominator == 0 {
        return None;
    }
    let is_negative = (a < 0) != ((b < 0) != (denominator < 0));
    let a_abs = unsigned_abs(a);
    let b_abs = unsigned_abs(b);
    let denominator_abs = unsigned_abs(denominator);
    proof {
        lemma_tdiv_product(a as int, b as int, denominator as int);
        assert(a_abs * b_abs <= 0x4000_0000_0000_0000_0000_0000_0000_0000_0000_0000_0000_0000_0000_0000_0000_0000nat) by (nonlinear_arith)
            requires
                a_abs <= 0x8000_0000_0000_0000_0000_0000_0000_0000nat,
                b_abs <= 0x8000_0000_0000_0000_0000_0000_0000_0000nat,
        ;
    }
    let product = match u256_checked_mul((0, a_abs), (0, b_abs)) {
        Some(p) => p,
        None => return None,
    };
    let quotient = match u256_checked_div(product, (0, denominator_abs)) {
        Some(q) => q,
        None => return None,
    };
    let ghost q = words_value(quotient);
    assert(q == (abs(a as int) * abs(b as int)) / abs(denominator as int));
    let max_positive: u128 = 0x7fff_ffff_ffff_ffff_ffff_ffff_ffff_ffff;
    let max_negative_magnitude: u128 = 0x8000_0000_0000_0000_0000_0000_0000_0000;

    if !is_negative {
        if quotient.0 != 0 || quotient.1 > max_positive {
            return None;
        }
        return Some(quotient.1 as i128);
    }
    if quotient.0 != 0 || quotient.1 > max_negative_magnitude {
        return None;
    }
    if quotient.1 == max_negative_magnitude {
        return Some(i128::MIN);
    }
    let magnitude = quotient.1 as i128;
    Some(-magnitude)
}

/// `r` is the integer square root of `n`: the largest `r >= 0` with `r * r <= n`.
pub open spec fn is_floor_sqrt(r: int, n: int) -> bool {
    0 <= r && r * r <= n && n < (r + 1) * (r + 1)
}

/// The integer square root of `n`; taken as 0 for negative `n`, which has
/// none.
pub open spec fn floor_sqrt(n: int) -> int {
    if n < 0 {
        0
    } else {
        choose|r: int| #[trigger] is_floor_sqrt(r, n)
    }
}

proof fn lemma_floor_sqrt_exists(n: int)
    requires
        n >= 0,
    ensures
        exists|r: int| #[trigger] is_floor_sqrt(r, n),
    decreases n,
{
    if n == 0 {
        assert(is_floor_sqrt(0, 0));
    } else {
        lemma_floor_sqrt_exists(n - 1);
        let r = choose|r: int| #[trigger] is_floor_sqrt(r, n - 1);
        if (r + 1) * (r + 1) <= n {
            assert(n < (r + 2) * (r + 2)) by (nonlinear_arith)
                requires
                    n - 1 < (r + 1) * (r + 1),
                    r >= 0,
            ;
            assert(is_floor_sqrt(r + 1, n));
        } else {
            assert(is_floor_sqrt(r, n));
        }
    }
}

proof fn lemma_floor_sqrt_unique(r1: int, r2: int, n: int)
    requires
        is_floor_sqrt(r1, n),
        is_floor_sqrt(r2, n),
    ensures
        r1 == r2,
{
    if r1 < r2 {
        assert((r1 + 1) * (r1 + 1) <= r2 * r2) by (nonlinear_arith)
            requires
                0 <= r1 < r2,
        ;
    } else if r2 < r1 {
        assert((r2 + 1) * (r2 + 1) <= r1 * r1) by (nonlinear_arith)
            requires
                0 <= r2 < r1,
        ;
    }
}

/// Every non-negative integer has exactly one integer square root, and
/// `floor_sqrt` is it.
pub proof fn lemma_floor_sqrt(n: int, r: int)
    requires
        n >= 0,
    ensures
        is_floor_sqrt(floor_sqrt(n), n),
        is_floor_sqrt(r, n) ==> r == floor_sqrt(n),
{
    lemma_floor_sqrt_exists(n);
    if is_floor_sqrt(r, n) {
        lemma_floor_sqrt_unique(r, floor_sqrt(n), n);
    }
}

/// A Newton step `(x + v / x) / 2` from any positive guess never falls below
/// the integer square root of `v`.
proof fn lemma_newton_step_lower_bound(x: int, v: int, s: int)
    requires
        x > 0,
        v >= 0,
        is_floor_sqrt(s, v),
    ensures
        (x + v / x) / 2 >= s,
{
    let q = v / x;
    assert(v < x * (q + 1)) by (nonlinear_arith)
        requires
            x > 0,
            q == v / x,
    ;
    if x + q < 2 * s {
        assert(x * (q + 1) <= s * s) by (nonlinear_arith)
            requires
                x > 0,
                q + 1 <= 2 * s - x,
                q >= 0,
        ;
    }
}

/// A Newton step from a guess above the square root strictly decreases.
proof fn lemma_newton_step_decreases(x: int, v: int)
    requires
        x > 0,
        v >= 0,
        v < x * x,
    ensures
        (x + v / x) / 2 < x,
{
    assert(v / x < x) by (nonlinear_arith)
        requires
            x > 0,
            v >= 0,
            v < x * x,
    ;
}

/// For `1 <= x <= v`, the Newton sum `x + v / x` never exceeds `v + 1`.
proof fn lemma_newton_sum_bound(x: int, v: int)
    requires
        1 <= x <= v,
    ensures
        x + v / x <= v + 1,
{
    assert(v <= x * (v + 1 - x)) by (nonlinear_arith)
        requires
            1 <= x <= v,
    ;
    assert(v / x <= v + 1 - x) by (nonlinear_arith)
        requires
            1 <= x,
            v <= x * (v + 1 - x),
            v >= 0,
    ;
}

/// For `2 <= x < v`, the Newton sum `x + v / x` never exceeds `v`.
proof fn lemma_newton_sum_bound_below(x: int, v: int)
    requires
        2 <= x < v,
    ensures
        x + v / x <= v,
{
    assert(v <= x * (v - x) + 1) by (nonlinear_arith)
        requires
            2 <= x < v,
    ;
    assert(v / x <= v - x) by (nonlinear_arith)
        requires
            2 <= x,
            x < v,
            v <= x * (v - x) + 1,
    ;
}

/// Computed integer square root using Newton's method.
///
/// Returns the largest `r` with `r * r <= value`. A negative input panics
/// and is excluded. The first step `(value + 1) / 2` is computed as
/// `(value - 1) / 2 + 1`, so `i128::MAX` is accepted too.
pub fn sqrt(value: i128) -> (r: i128)
    requires
        0 <= value,
    ensures
        is_floor_sqrt(r as int, value as int),
        r == floor_sqrt(value as int),
{
    proof {
        lemma_floor_sqrt(value as int, 0);
    }
    let ghost s = floor_sqrt(value as int);
    if value == 0 {
        proof {
            lemma_floor_sqrt(0, 0);
        }
        return 0;
    }
    let mut x = value;
    let mut y = (x - 1) / 2 + 1;
    proof {
        assert(value as int / value as int == 1) by (nonlinear_arith)
            requires
                value > 0,
        ;
        assert((value - 1) / 2 + 1 == (value + 1) / 2);
        lemma_newton_step_lower_bound(value as int, value as int, s);
        assert(s <= value) by (nonlinear_arith)
            requires
                s * s <= value,
                s >= 0,
        ;
    }
    while y < x
        invariant
            0 < value,
            is_floor_sqrt(s, value as int),
            s <= x <= value,
            y == (x + value / x) / 2,
            y >= s,
            0 < x,
        decreases x,
    {
        x = y;
        proof {
            assert(x >= 1) by (nonlinear_arith)
                requires
                    x >= s,
                    s >= 0,
                    value >= 1,
                    value < (s + 1) * (s + 1),
                    s * s <= value,
            ;
            if value < i128::MAX {
                lemma_newton_sum_bound(x as int, value as int);
            } else {
                assert(s >= 2) by (nonlinear_arith)
                    requires
                        value >= 4,
                        value < (s + 1) * (s + 1),
                        s >= 0,
                ;
                lemma_newton_sum_bound_below(x as int, value as int);
            }
            lemma_newton_step_lower_bound(x as int, value as int, s);
        }
        y = (x + value / x) / 2;
    }
    proof {
        if x > s {
            assert(value < x * x) by (nonlinear_arith)
                requires
                    x >= s + 1,
                    s >= 0,
                    value < (s + 1) * (s + 1),
            ;
            lemma_newton_step_decreases(x as int, value as int);
        }
    }
    x
}

/// Division rounding toward zero leaves a remainder with the sign of the
/// dividend and smaller than the divisor: for `b != 0` the quotient `q`
/// satisfies `0 <= q * b <= a` and `a - q * b < |b|` when `a >= 0`, and
/// `a <= q * b <= 0` and `q * b - a < |b|` when `a < 0`.
pub proof fn law_tdiv_rounds_toward_zero(a: int, b: int)
    requires
        b != 0,
    ensures
        a >= 0 ==> 0 <= tdiv(a, b) * b <= a && a - tdiv(a, b) * b < abs(b),
        a < 0 ==> a <= tdiv(a, b) * b <= 0 && tdiv(a, b) * b - a < abs(b),
{
    let q = tdiv(a, b);
    if a >= 0 && b > 0 {
        assert(0 <= (a / b) * b <= a && a - (a / b) * b < b) by (nonlinear_arith)
            requires
                a >= 0,
                b > 0,
        ;
    } else if a < 0 && b < 0 {
        assert(a <= ((-a) / (-b)) * b <= 0 && ((-a) / (-b)) * b - a < -b) by (nonlinear_arith)
            requires
                a < 0,
                b < 0,
        ;
    } else if a < 0 {
        assert(a <= (-((-a) / b)) * b <= 0 && (-((-a) / b)) * b - a < b) by (nonlinear_arith)
            requires
                a < 0,
                b > 0,
        ;
    } else {
        assert(0 <= (-(a / (-b))) * b <= a && a - (-(a / (-b))) * b < -b) by (nonlinear_arith)
            requires
                a >= 0,
                b < 0,
        ;
    }
}

} // verus!
