//! Event-sourcing persistence: per-aggregate event streams committed under
//! optimistic concurrency, with event-sourced, aggregate-store and periodic
//! snapshot storage strategies, and versioned view projections.
pub mod types;
pub mod snapshot;
pub mod event_repository;
pub mod view_repository;
pub mod retry;

pub use crate::types::{
    copy_bytes, validate_records, EventView, LoadedAggregate, NewEvent, PersistenceError, SerializedEvent,
    SnapshotRecord, SnapshotView, StorageStrategy,
};
pub use crate::snapshot::{snapshot_due, validate_strategy};
pub use crate::event_repository::{stamp_events, EventRepository};
pub use crate::view_repository::{ViewRecord, ViewRepository, ViewState};
pub use crate::retry::{next_action, RetryAction};
