use coralswap::pair::PairError;
use coralswap::reentrancy::{acquire, release};

#[test]
fn test_acquire_succeeds_on_first_call() {
    let mut lock = false;
    let result = acquire(&mut lock);
    assert!(result.is_ok(), "acquire should succeed on first call");
}

#[test]
fn test_acquire_returns_locked_if_already_held() {
    let mut lock = false;
    let first = acquire(&mut lock);
    assert!(first.is_ok(), "first acquire should succeed");

    let second = acquire(&mut lock);
    assert_eq!(second, Err(PairError::Locked), "second acquire should return Locked");
}

#[test]
fn test_release_clears_lock() {
    let mut lock = false;
    let first = acquire(&mut lock);
    assert!(first.is_ok(), "first acquire should succeed");

    release(&mut lock);

    let second = acquire(&mut lock);
    assert!(second.is_ok(), "acquire should succeed after release");
}

#[test]
fn test_lock_state_persists_within_invocation() {
    let mut lock = false;
    acquire(&mut lock).unwrap();

    let result = acquire(&mut lock);
    assert_eq!(result, Err(PairError::Locked), "lock should persist within invocation");

    release(&mut lock);

    let result = acquire(&mut lock);
    assert!(result.is_ok(), "lock should be cleared after release");
}

#[test]
fn test_lock_error_release_relock_cycle() {
    let mut lock = false;
    let result1 = acquire(&mut lock);
    assert!(result1.is_ok(), "step 1: acquire should succeed");

    let result2 = acquire(&mut lock);
    assert_eq!(result2, Err(PairError::Locked), "step 2: should get Locked error");

    release(&mut lock);

    let result3 = acquire(&mut lock);
    assert!(result3.is_ok(), "step 3: acquire should succeed after release");

    let result4 = acquire(&mut lock);
    assert_eq!(result4, Err(PairError::Locked), "step 4: should get Locked error again");

    release(&mut lock);

    let result5 = acquire(&mut lock);
    assert!(result5.is_ok(), "step 5: clean state for next invocation");
}

#[test]
fn test_separate_envs_have_independent_locks() {
    let mut lock1 = false;
    let mut lock2 = false;

    let result1 = acquire(&mut lock1);
    assert!(result1.is_ok(), "env1: acquire should succeed");

    let result2 = acquire(&mut lock2);
    assert!(result2.is_ok(), "env2: should have independent lock state");

    let result3 = acquire(&mut lock2);
    assert_eq!(result3, Err(PairError::Locked), "env2: second acquire should fail");

    release(&mut lock2);

    let result4 = acquire(&mut lock1);
    assert_eq!(result4, Err(PairError::Locked), "env1: should still be locked");

    release(&mut lock1);
}

#[test]
fn test_default_state_is_unlocked() {
    let mut lock = bool::default();
    let result1 = acquire(&mut lock);
    assert!(result1.is_ok(), "fresh env should be unlocked");

    let result2 = acquire(&mut lock);
    assert_eq!(result2, Err(PairError::Locked), "should be locked after acquire");
}

#[test]
fn test_release_is_idempotent() {
    let mut lock = false;
    acquire(&mut lock).unwrap();

    release(&mut lock);
    release(&mut lock);

    let result = acquire(&mut lock);
    assert!(result.is_ok(), "acquire should succeed after multiple releases");
}

#[test]
fn failed_acquire_keeps_lock_held() {
    let mut lock = true;
    assert_eq!(acquire(&mut lock), Err(PairError::Locked));
    assert!(lock);
}
