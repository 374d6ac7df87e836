//! Lock helpers that survive a poisoned mutex.
//!
//! A lock is poisoned when another thread panicked while holding it.
//! Nothing behind these locks carries an invariant that a partial write could
//! break badly enough to prefer crashing, so the guard is recovered and work
//! goes on.
use vstd::prelude::*;

verus! {

#[verifier::external_type_specification]
#[verifier::external_body]
#[verifier::reject_recursive_types(T)]
pub struct ExPoisonError<T>(std::sync::PoisonError<T>);

/// `PoisonError::into_inner`: the guard the poisoned lock handed out anyway.
/// The contract states nothing of it, since the guard cannot be named here;
/// its documentation says it is the same guard a healthy lock would give.
#[verifier::external_body]
fn recover<T>(poisoned: std::sync::PoisonError<T>) -> (g: T) {
    poisoned.into_inner()
}

/// Take a guard, ignoring lock poisoning. Works for `Mutex` and `RwLock`
/// alike: both hand out `Result<Guard, PoisonError<Guard>>`.
pub fn guard<T>(result: Result<T, std::sync::PoisonError<T>>) -> (g: T)
    ensures
        result is Ok ==> g == result->Ok_0,
{
    match result {
        Ok(g) => g,
        Err(poisoned) => recover(poisoned),
    }
}

} // verus!
