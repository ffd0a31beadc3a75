# coralswap

The verified core of a constant-product AMM (a pair contract and a router
for the Soroban platform), written in Verus.

- `src/math.rs` — fixed-point constants, integer square root (Newton's
  method), and a 256-bit `mul_div` built on `ethnum::U256`.
- `src/oracle.rs` — wrapping cumulative-price accumulators and the TWAP
  read back from them.
- `src/pair.rs` — the pair's decisions: initialize, mint, burn, swap (with
  the fee-adjusted constant-product check) and sync, each as a function from
  the stored state and the observed balances to the next state; plus the
  laws that tie them together.
- `src/reentrancy.rs` — the swap lock.
- `src/router.rs` — the router's checks and deposit amounts for adding and
  removing liquidity.
- `app/` — the Soroban contracts: storage, token transfers, authorization
  and events around the library.
