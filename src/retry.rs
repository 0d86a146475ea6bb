//! The decision taken after each attempt of a load-compute-commit cycle.
use vstd::prelude::*;
use crate::types::PersistenceError;

verus! {

/// What a caller does after an attempt.
#[derive(Clone, Copy, Debug, PartialEq, Eq, Structural)]
pub enum RetryAction {
    /// The attempt took effect.
    Finish,
    /// The aggregate was stale: reload it and try again.
    Retry,
    /// Stop and report the error.
    GiveUp,
}

/// Bounded retry: only an optimistic-lock conflict is retried, and only
/// while fewer than `max_attempts` attempts have been made.
pub fn next_action(attempts_made: u32, max_attempts: u32, outcome: Result<(), PersistenceError>) -> (r: RetryAction)
    ensures
        r == match outcome {
            Ok(()) => RetryAction::Finish,
            Err(PersistenceError::OptimisticLock) => if attempts_made < max_attempts {
                RetryAction::Retry
            } else {
                RetryAction::GiveUp
            },
            Err(_) => RetryAction::GiveUp,
        },
{
    match outcome {
        Ok(()) => RetryAction::Finish,
        Err(PersistenceError::OptimisticLock) => {
            if attempts_made < max_attempts {
                RetryAction::Retry
            } else {
                RetryAction::GiveUp
            }
        },
        Err(_) => RetryAction::GiveUp,
    }
}

} // verus!
