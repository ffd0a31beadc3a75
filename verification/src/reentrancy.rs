//! Reentrancy guard for the pair's swap and flash-loan entry points.
//!
//! The lock is a flag the host keeps for the running contract invocation;
//! a fresh invocation starts unlocked.
use crate::pair::PairError;
use vstd::prelude::*;

verus! {

/// Takes the lock: succeeds and sets it when it is free, and answers
/// `Locked` (leaving it held) when it is already taken.
pub fn acquire(locked: &mut bool) -> (r: Result<(), PairError>)
    ensures
        *old(locked) ==> r == Err::<(), PairError>(PairError::Locked) && *final(locked),
        !*old(locked) ==> r == Ok::<(), PairError>(()) && *final(locked),
{
    if *locked {
        return Err(PairError::Locked);
    }
    *locked = true;
    Ok(())
}

/// Frees the lock, whether or not it was held.
pub fn release(locked: &mut bool)
    ensures
        !*final(locked),
{
    *locked = false;
}

} // verus!
