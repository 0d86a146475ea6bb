//! When a periodic snapshot is refreshed, and which strategies are valid.
use vstd::prelude::*;
use crate::types::{PersistenceError, StorageStrategy};

verus! {

/// A strategy can be used: a snapshot interval is positive.
pub open spec fn strategy_valid(strategy: StorageStrategy) -> bool {
    match strategy {
        StorageStrategy::Snapshot(interval) => interval > 0,
        _ => true,
    }
}

/// A commit that takes the stream from `last_snapshot` (the sequence the snapshot
/// covers, 0 without one) to `new_sequence` refreshes the snapshot exactly when
/// it crosses a multiple of `interval`.
pub open spec fn snapshot_due_spec(interval: nat, last_snapshot: nat, new_sequence: nat) -> bool
    recommends
        interval > 0,
{
    new_sequence / interval > last_snapshot / interval
}

/// Checks a strategy before a repository is built on it.
pub fn validate_strategy(strategy: StorageStrategy) -> (r: Result<(), PersistenceError>)
    ensures
        r is Ok <==> strategy_valid(strategy),
        r is Err ==> r == Err::<(), PersistenceError>(PersistenceError::Configuration),
{
    match strategy {
        StorageStrategy::Snapshot(interval) => {
            if interval == 0 {
                Err(PersistenceError::Configuration)
            } else {
                Ok(())
            }
        },
        _ => Ok(()),
    }
}

/// Whether a commit reaching `new_sequence` refreshes a snapshot that covers `last_snapshot`.
pub fn snapshot_due(interval: usize, last_snapshot: u64, new_sequence: u64) -> (r: bool)
    requires
        interval > 0,
    ensures
        r == snapshot_due_spec(interval as nat, last_snapshot as nat, new_sequence as nat),
{
    let k = interval as u64;
    new_sequence / k > last_snapshot / k
}

} // verus!
