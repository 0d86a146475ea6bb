//! Records stored by the repositories and their mathematical views.
use vstd::prelude::*;

verus! {

/// How an event repository keeps the state of its aggregates.
#[derive(Clone, Copy, Debug, PartialEq, Eq, Structural)]
pub enum StorageStrategy {
    /// The event log alone is authoritative; no snapshot is kept.
    EventSourced,
    /// One current-state record per aggregate, rewritten on every commit.
    AggregateStore,
    /// A snapshot refreshed each time the sequence crosses a multiple of the interval.
    Snapshot(usize),
}

/// The ways a repository operation can fail.
#[derive(Clone, Copy, Debug, PartialEq, Eq, Structural)]
pub enum PersistenceError {
    /// The stored sequence or version is not the one the caller expected.
    OptimisticLock,
    /// The operation could not be carried out on the stored data.
    Storage,
    /// The repository was configured with invalid parameters.
    Configuration,
}

/// What an event is, apart from the aggregate it belongs to and its place in the stream.
pub struct EventView {
    pub event_type: Seq<char>,
    pub event_version: Seq<char>,
    pub payload: Seq<u8>,
    pub metadata: Seq<u8>,
}

/// A snapshot or current-state record, seen as the sequence it covers and the state.
pub struct SnapshotView {
    pub current_sequence: nat,
    pub state: Seq<u8>,
}

/// An event handed to a commit, before it is given a sequence number.
#[derive(Debug)]
pub struct NewEvent {
    pub event_type: String,
    pub event_version: String,
    pub payload: Vec<u8>,
    pub metadata: Vec<u8>,
}

impl View for NewEvent {
    type V = EventView;

    open spec fn view(&self) -> EventView {
        EventView {
            event_type: self.event_type@,
            event_version: self.event_version@,
            payload: self.payload@,
            metadata: self.metadata@,
        }
    }
}

/// A committed event as it is stored.
#[derive(Debug)]
pub struct SerializedEvent {
    pub aggregate_type: String,
    pub aggregate_id: String,
    pub sequence: u64,
    pub event_type: String,
    pub event_version: String,
    pub payload: Vec<u8>,
    pub metadata: Vec<u8>,
}

impl SerializedEvent {
    /// The event apart from its identity and sequence.
    pub open spec fn data(&self) -> EventView {
        EventView {
            event_type: self.event_type@,
            event_version: self.event_version@,
            payload: self.payload@,
            metadata: self.metadata@,
        }
    }

    pub open spec fn belongs_to(&self, aggregate_type: Seq<char>, aggregate_id: Seq<char>) -> bool {
        self.aggregate_type@ == aggregate_type && self.aggregate_id@ == aggregate_id
    }

    /// A copy with equal fields.
    pub fn duplicate(&self) -> (r: SerializedEvent)
        ensures
            r.aggregate_type@ == self.aggregate_type@,
            r.aggregate_id@ == self.aggregate_id@,
            r.sequence == self.sequence,
            r.data() == self.data(),
    {
        SerializedEvent {
            aggregate_type: self.aggregate_type.clone(),
            aggregate_id: self.aggregate_id.clone(),
            sequence: self.sequence,
            event_type: self.event_type.clone(),
            event_version: self.event_version.clone(),
            payload: copy_bytes(&self.payload),
            metadata: copy_bytes(&self.metadata),
        }
    }
}

/// The snapshot (or current-state record) of one aggregate.
#[derive(Debug)]
pub struct SnapshotRecord {
    pub aggregate_type: String,
    pub aggregate_id: String,
    pub current_sequence: u64,
    pub payload: Vec<u8>,
}

impl View for SnapshotRecord {
    type V = SnapshotView;

    open spec fn view(&self) -> SnapshotView {
        SnapshotView { current_sequence: self.current_sequence as nat, state: self.payload@ }
    }
}

impl SnapshotRecord {
    pub open spec fn belongs_to(&self, aggregate_type: Seq<char>, aggregate_id: Seq<char>) -> bool {
        self.aggregate_type@ == aggregate_type && self.aggregate_id@ == aggregate_id
    }

    /// A copy with equal fields.
    pub fn duplicate(&self) -> (r: SnapshotRecord)
        ensures
            r.aggregate_type@ == self.aggregate_type@,
            r.aggregate_id@ == self.aggregate_id@,
            r@ == self@,
    {
        SnapshotRecord {
            aggregate_type: self.aggregate_type.clone(),
            aggregate_id: self.aggregate_id.clone(),
            current_sequence: self.current_sequence,
            payload: copy_bytes(&self.payload),
        }
    }
}

/// What a load hands back: the snapshot, if the strategy keeps one, and the
/// events committed after it.
#[derive(Debug)]
pub struct LoadedAggregate {
    pub snapshot: Option<SnapshotRecord>,
    pub events: Vec<SerializedEvent>,
}

/// `records` are the stored events of one aggregate, carrying `data` in order,
/// numbered consecutively after `start`.
pub open spec fn numbered_records(
    records: Seq<SerializedEvent>,
    aggregate_type: Seq<char>,
    aggregate_id: Seq<char>,
    data: Seq<EventView>,
    start: nat,
) -> bool {
    &&& records.len() == data.len()
    &&& forall|i: int|
        #![trigger records[i]]
        0 <= i < records.len() ==> {
            &&& records[i].belongs_to(aggregate_type, aggregate_id)
            &&& records[i].sequence == start + i + 1
            &&& records[i].data() == data[i]
        }
}

/// Checks that records read back from storage are the events of one
/// aggregate numbered consecutively after `start`; a gap, a duplicate or a
/// stray identity is a storage error, never skipped over.
pub fn validate_records(
    records: &Vec<SerializedEvent>,
    aggregate_type: &String,
    aggregate_id: &String,
    start: u64,
) -> (r: Result<(), PersistenceError>)
    ensures
        r is Ok <==> numbered_records(
            records@,
            aggregate_type@,
            aggregate_id@,
            records@.map_values(|e: SerializedEvent| e.data()),
            start as nat,
        ),
        r is Err ==> r == Err::<(), PersistenceError>(PersistenceError::Storage),
{
    let ghost data = records@.map_values(|e: SerializedEvent| e.data());
    let mut i: usize = 0;
    while i < records.len()
        invariant
            i <= records@.len(),
            data == records@.map_values(|e: SerializedEvent| e.data()),
            forall|k: int|
                #![trigger records@[k]]
                0 <= k < i ==> records@[k].belongs_to(aggregate_type@, aggregate_id@)
                    && records@[k].sequence == start + k + 1,
        decreases records@.len() - i,
    {
        let e = &records[i];
        if e.aggregate_type != *aggregate_type || e.aggregate_id != *aggregate_id
            || e.sequence as u128 != start as u128 + i as u128 + 1 {
            assert(!(records@[i as int].belongs_to(aggregate_type@, aggregate_id@)
                && records@[i as int].sequence == start + i + 1));
            return Err(PersistenceError::Storage);
        }
        i = i + 1;
    }
    assert forall|k: int| 0 <= k < records@.len() implies #[trigger] records@[k].data() == data[k] by {}
    Ok(())
}

/// A byte-for-byte copy.
pub fn copy_bytes(v: &Vec<u8>) -> (r: Vec<u8>)
    ensures
        r@ == v@,
{
    let mut r: Vec<u8> = Vec::with_capacity(v.len());
    let mut i: usize = 0;
    while i < v.len()
        invariant
            i <= v.len(),
            r@ == v@.subrange(0, i as int),
        decreases v.len() - i,
    {
        r.push(v[i]);
        i = i + 1;
        assert(r@ =~= v@.subrange(0, i as int));
    }
    assert(r@ =~= v@);
    r
}

} // verus!
