//! Verified core of a constant-product AMM: fixed-point math, the
//! cumulative-price oracle, and the decision logic of the pair and router.
pub mod math;
pub mod oracle;
pub mod pair;
pub mod reentrancy;
pub mod router;
