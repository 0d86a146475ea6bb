//! Per-aggregate event streams, committed under optimistic concurrency with one
//! of three storage strategies.
use vstd::prelude::*;
use vstd::arithmetic::div_mod::*;
use crate::snapshot::{snapshot_due, snapshot_due_spec, strategy_valid, validate_strategy};
use crate::types::{
    copy_bytes, numbered_records, EventView, LoadedAggregate, NewEvent, PersistenceError,
    SerializedEvent, SnapshotRecord, SnapshotView, StorageStrategy,
};

verus! {

/// The stored history of one aggregate: its event log and its snapshot record.
#[derive(Debug)]
pub struct AggregateStream {
    pub aggregate_type: String,
    pub aggregate_id: String,
    pub events: Vec<SerializedEvent>,
    pub snapshot: Option<SnapshotRecord>,
}

impl AggregateStream {
    pub open spec fn is_for(&self, aggregate_type: Seq<char>, aggregate_id: Seq<char>) -> bool {
        self.aggregate_type@ == aggregate_type && self.aggregate_id@ == aggregate_id
    }

    pub open spec fn data(&self) -> Seq<EventView> {
        self.events@.map_values(|e: SerializedEvent| e.data())
    }

    pub open spec fn snapshot_view(&self) -> Option<SnapshotView> {
        match self.snapshot {
            Some(s) => Some(s@),
            None => None,
        }
    }

    /// The sequence the snapshot covers; 0 without one.
    pub open spec fn last_snapshot(&self) -> nat {
        match self.snapshot {
            Some(s) => s.current_sequence as nat,
            None => 0,
        }
    }

    pub open spec fn wf(&self, strategy: StorageStrategy) -> bool {
        &&& numbered_records(self.events@, self.aggregate_type@, self.aggregate_id@, self.data(), 0)
        &&& self.events@.len() <= u64::MAX
        &&& match self.snapshot {
            Some(s) => s.belongs_to(self.aggregate_type@, self.aggregate_id@)
                && s.current_sequence <= self.events@.len(),
            None => true,
        }
        &&& match strategy {
            StorageStrategy::EventSourced => self.snapshot is None,
            StorageStrategy::AggregateStore => self.snapshot is Some && self.last_snapshot()
                == self.events@.len(),
            StorageStrategy::Snapshot(k) => k > 0 && self.last_snapshot() / (k as nat)
                == self.events@.len() / (k as nat),
        }
    }
}

/// The events, snapshots and current-state records of all aggregates, kept
/// under one storage strategy chosen at construction.
#[derive(Debug)]
pub struct EventRepository {
    strategy: StorageStrategy,
    streams: Vec<AggregateStream>,
}

impl EventRepository {
    pub closed spec fn wf(&self) -> bool {
        &&& strategy_valid(self.strategy)
        &&& forall|i: int|
            #![trigger self.streams@[i]]
            0 <= i < self.streams@.len() ==> self.streams@[i].wf(self.strategy)
        &&& forall|i: int, j: int|
            #![trigger self.streams@[i], self.streams@[j]]
            0 <= i < self.streams@.len() && 0 <= j < self.streams@.len() && i != j
                ==> !self.streams@[i].is_for(self.streams@[j].aggregate_type@, self.streams@[j].aggregate_id@)
    }

    /// The strategy the repository was built with.
    pub closed spec fn storage(&self) -> StorageStrategy {
        self.strategy
    }

    closed spec fn has(&self, aggregate_type: Seq<char>, aggregate_id: Seq<char>) -> bool {
        exists|i: int|
            0 <= i < self.streams@.len() && #[trigger] self.streams@[i].is_for(aggregate_type, aggregate_id)
    }

    closed spec fn slot(&self, aggregate_type: Seq<char>, aggregate_id: Seq<char>) -> int {
        choose|i: int|
            0 <= i < self.streams@.len() && #[trigger] self.streams@[i].is_for(aggregate_type, aggregate_id)
    }

    /// The committed events of an aggregate, in commit order; empty if it was never committed.
    pub closed spec fn stream(&self, aggregate_type: Seq<char>, aggregate_id: Seq<char>) -> Seq<EventView> {
        if self.has(aggregate_type, aggregate_id) {
            self.streams@[self.slot(aggregate_type, aggregate_id)].data()
        } else {
            Seq::empty()
        }
    }

    /// The snapshot or current-state record of an aggregate, if one is stored.
    pub closed spec fn snapshot_of(&self, aggregate_type: Seq<char>, aggregate_id: Seq<char>) -> Option<SnapshotView> {
        if self.has(aggregate_type, aggregate_id) {
            self.streams@[self.slot(aggregate_type, aggregate_id)].snapshot_view()
        } else {
            None
        }
    }

    /// The stored sequence of an aggregate: how many events it has.
    pub open spec fn current_sequence(&self, aggregate_type: Seq<char>, aggregate_id: Seq<char>) -> nat {
        self.stream(aggregate_type, aggregate_id).len()
    }

    /// The sequence a load replays from: what the snapshot covers, 0 without one.
    pub open spec fn replay_start(&self, aggregate_type: Seq<char>, aggregate_id: Seq<char>) -> nat {
        match self.snapshot_of(aggregate_type, aggregate_id) {
            Some(s) => s.current_sequence,
            None => 0,
        }
    }


    /// An empty repository under `strategy`; a snapshot interval of 0 is refused.
    pub fn new(strategy: StorageStrategy) -> (r: Result<EventRepository, PersistenceError>)
        ensures
            r is Ok <==> strategy_valid(strategy),
            r is Err ==> r == Err::<EventRepository, PersistenceError>(PersistenceError::Configuration),
            r matches Ok(repo) ==> {
                &&& repo.wf()
                &&& repo.storage() == strategy
                &&& forall|t: Seq<char>, a: Seq<char>|
                    #![trigger repo.stream(t, a)]
                    repo.stream(t, a) == Seq::<EventView>::empty() && repo.snapshot_of(t, a) is None
            },
    {
        match validate_strategy(strategy) {
            Ok(()) => {
                let repo = EventRepository { strategy, streams: Vec::new() };
                assert forall|t: Seq<char>, a: Seq<char>|
                    #![trigger repo.stream(t, a)]
                    repo.stream(t, a) == Seq::<EventView>::empty() && repo.snapshot_of(t, a) is None by {
                    assert(!repo.has(t, a));
                }
                Ok(repo)
            },
            Err(e) => Err(e),
        }
    }

    /// The strategy the repository was built with.
    pub fn strategy(&self) -> (r: StorageStrategy)
        ensures
            r == self.storage(),
    {
        self.strategy
    }

    fn find_slot(&self, aggregate_type: &String, aggregate_id: &String) -> (r: Option<usize>)
        requires
            self.wf(),
        ensures
            r matches Some(i) ==> i < self.streams@.len()
                && self.streams@[i as int].is_for(aggregate_type@, aggregate_id@),
            r is None ==> !self.has(aggregate_type@, aggregate_id@),
    {
        let mut i: usize = 0;
        while i < self.streams.len()
            invariant
                i <= self.streams@.len(),
                forall|k: int| 0 <= k < i ==> !(#[trigger] self.streams@[k]).is_for(aggregate_type@, aggregate_id@),
            decreases self.streams@.len() - i,
        {
            let st = &self.streams[i];
            if st.aggregate_type == *aggregate_type && st.aggregate_id == *aggregate_id {
                return Some(i);
            }
            i = i + 1;
        }
        None
    }

    /// The stored events of an aggregate numbered from `from + 1` on, copied.
    fn copy_events(
        &self,
        slot: usize,
        from: usize,
        aggregate_type: Ghost<Seq<char>>,
        aggregate_id: Ghost<Seq<char>>,
    ) -> (r: Vec<SerializedEvent>)
        requires
            self.wf(),
            slot < self.streams@.len(),
            self.streams@[slot as int].is_for(aggregate_type@, aggregate_id@),
            from <= self.streams@[slot as int].events@.len(),
        ensures
            numbered_records(
                r@,
                aggregate_type@,
                aggregate_id@,
                self.stream(aggregate_type@, aggregate_id@).subrange(from as int, self.current_sequence(aggregate_type@, aggregate_id@) as int),
                from as nat,
            ),
    {
        proof {
            self.lemma_slot(slot as int, aggregate_type@, aggregate_id@);
        }
        let st = &self.streams[slot];
        assert(st.wf(self.strategy));
        let ghost data = st.data().subrange(from as int, st.events@.len() as int);
        let mut r: Vec<SerializedEvent> = Vec::new();
        let mut i: usize = from;
        while i < st.events.len()
            invariant
                from <= i <= st.events@.len(),
                st.wf(self.strategy),
                st.is_for(aggregate_type@, aggregate_id@),
                data == st.data().subrange(from as int, st.events@.len() as int),
                numbered_records(r@, aggregate_type@, aggregate_id@, data.subrange(0, i - from), from as nat),
            decreases st.events@.len() - i,
        {
            let e = st.events[i].duplicate();
            assert(st.events@[i as int].sequence == i + 1);
            let ghost prev = r@;
            r.push(e);
            i = i + 1;
            assert forall|k: int| 0 <= k < r@.len() implies {
                &&& (#[trigger] r@[k]).belongs_to(aggregate_type@, aggregate_id@)
                &&& r@[k].sequence == from + k + 1
                &&& r@[k].data() == data.subrange(0, i - from)[k]
            } by {
                if k < prev.len() {
                    assert(r@[k] == prev[k]);
                    assert(prev[k].data() == data.subrange(0, i - 1 - from)[k]);
                }
            }
        }
        assert(data.subrange(0, i - from) =~= data);
        r
    }


    /// All committed events of an aggregate, numbered 1 to its current sequence.
    pub fn get_events(&self, aggregate_type: &String, aggregate_id: &String) -> (r: Vec<SerializedEvent>)
        requires
            self.wf(),
        ensures
            numbered_records(r@, aggregate_type@, aggregate_id@, self.stream(aggregate_type@, aggregate_id@), 0),
    {
        self.get_last_events(aggregate_type, aggregate_id, 0)
    }

    /// The events of an aggregate whose sequence is above `last_sequence`.
    pub fn get_last_events(&self, aggregate_type: &String, aggregate_id: &String, last_sequence: u64) -> (r: Vec<SerializedEvent>)
        requires
            self.wf(),
        ensures
            ({
                let n = self.current_sequence(aggregate_type@, aggregate_id@);
                let from = if last_sequence < n { last_sequence as nat } else { n };
                numbered_records(
                    r@,
                    aggregate_type@,
                    aggregate_id@,
                    self.stream(aggregate_type@, aggregate_id@).subrange(from as int, n as int),
                    from,
                )
            }),
    {
        match self.find_slot(aggregate_type, aggregate_id) {
            Some(slot) => {
                proof {
                    self.lemma_slot(slot as int, aggregate_type@, aggregate_id@);
                }
                let len = self.streams[slot].events.len();
                let from: usize = if (last_sequence as u128) < (len as u128) { last_sequence as usize } else { len };
                self.copy_events(slot, from, Ghost(aggregate_type@), Ghost(aggregate_id@))
            },
            None => {
                let r: Vec<SerializedEvent> = Vec::new();
                assert(self.stream(aggregate_type@, aggregate_id@).subrange(0, 0) =~= r@.map_values(|e: SerializedEvent| e.data()));
                r
            },
        }
    }

    /// The snapshot or current-state record of an aggregate, copied.
    pub fn get_snapshot(&self, aggregate_type: &String, aggregate_id: &String) -> (r: Option<SnapshotRecord>)
        requires
            self.wf(),
        ensures
            r matches Some(s) ==> s.belongs_to(aggregate_type@, aggregate_id@)
                && self.snapshot_of(aggregate_type@, aggregate_id@) == Some(s@),
            r is None ==> self.snapshot_of(aggregate_type@, aggregate_id@) is None,
    {
        match self.find_slot(aggregate_type, aggregate_id) {
            Some(slot) => {
                proof {
                    self.lemma_slot(slot as int, aggregate_type@, aggregate_id@);
                }
                assert(self.streams@[slot as int].wf(self.strategy));
                match &self.streams[slot].snapshot {
                    Some(s) => Some(s.duplicate()),
                    None => None,
                }
            },
            None => None,
        }
    }

    /// What a caller needs to rebuild an aggregate: its snapshot, if one is
    /// kept, and the events committed after it. Under the event-sourced
    /// strategy that is the whole stream; under the aggregate store it is the
    /// current-state record alone.
    pub fn load(&self, aggregate_type: &String, aggregate_id: &String) -> (r: LoadedAggregate)
        requires
            self.wf(),
        ensures
            ({
                let start = self.replay_start(aggregate_type@, aggregate_id@);
                let n = self.current_sequence(aggregate_type@, aggregate_id@);
                &&& start <= n
                &&& numbered_records(
                    r.events@,
                    aggregate_type@,
                    aggregate_id@,
                    self.stream(aggregate_type@, aggregate_id@).subrange(start as int, n as int),
                    start,
                )
            }),
            r.snapshot matches Some(s) ==> s.belongs_to(aggregate_type@, aggregate_id@)
                && self.snapshot_of(aggregate_type@, aggregate_id@) == Some(s@),
            r.snapshot is None ==> self.snapshot_of(aggregate_type@, aggregate_id@) is None,
            self.storage() is EventSourced ==> r.snapshot is None,
            self.storage() is AggregateStore ==> r.events@.len() == 0,
            self.current_sequence(aggregate_type@, aggregate_id@) == 0 ==> r.events@.len() == 0,
    {
        proof {
            self.lemma_replay_start(aggregate_type@, aggregate_id@);
        }
        let snapshot = self.get_snapshot(aggregate_type, aggregate_id);
        let from: u64 = match &snapshot {
            Some(s) => s.current_sequence,
            None => 0,
        };
        let events = self.get_last_events(aggregate_type, aggregate_id, from);
        LoadedAggregate { snapshot, events }
    }

    proof fn lemma_replay_start(&self, aggregate_type: Seq<char>, aggregate_id: Seq<char>)
        requires
            self.wf(),
        ensures
            self.replay_start(aggregate_type, aggregate_id) <= self.current_sequence(aggregate_type, aggregate_id),
            self.storage() is EventSourced ==> self.snapshot_of(aggregate_type, aggregate_id) is None,
            self.storage() is AggregateStore && self.has(aggregate_type, aggregate_id) ==> self.replay_start(aggregate_type, aggregate_id)
                == self.current_sequence(aggregate_type, aggregate_id),
            self.storage() is AggregateStore && self.has(aggregate_type, aggregate_id) ==> self.snapshot_of(aggregate_type, aggregate_id) is Some,
            !self.has(aggregate_type, aggregate_id) ==> self.current_sequence(aggregate_type, aggregate_id) == 0,
            self.current_sequence(aggregate_type, aggregate_id) <= u64::MAX,
            self.storage() matches StorageStrategy::Snapshot(k) ==> k > 0 && self.replay_start(aggregate_type, aggregate_id) / (k as nat)
                == self.current_sequence(aggregate_type, aggregate_id) / (k as nat),
    {
        if self.has(aggregate_type, aggregate_id) {
            let i = self.slot(aggregate_type, aggregate_id);
            assert(self.streams@[i].wf(self.strategy));
        }
    }


    /// A commit that brings the aggregate to `new_sequence` writes its
    /// snapshot or current-state record.
    pub open spec fn writes_state(&self, aggregate_type: Seq<char>, aggregate_id: Seq<char>, new_sequence: nat) -> bool {
        match self.storage() {
            StorageStrategy::EventSourced => false,
            StorageStrategy::AggregateStore => true,
            StorageStrategy::Snapshot(k) => snapshot_due_spec(
                k as nat,
                self.replay_start(aggregate_type, aggregate_id),
                new_sequence,
            ),
        }
    }

    /// The error a commit of `count` events at `expected` fails with, if any:
    /// a stale or advanced expected sequence, a sequence past `u64::MAX`, or a
    /// state record due without a state to write.
    pub open spec fn commit_error(
        &self,
        aggregate_type: Seq<char>,
        aggregate_id: Seq<char>,
        expected: nat,
        count: nat,
        has_state: bool,
    ) -> Option<PersistenceError> {
        if expected != self.current_sequence(aggregate_type, aggregate_id) {
            Some(PersistenceError::OptimisticLock)
        } else if expected + count > u64::MAX {
            Some(PersistenceError::Storage)
        } else if self.writes_state(aggregate_type, aggregate_id, expected + count) && !has_state {
            Some(PersistenceError::Storage)
        } else {
            None
        }
    }

    /// `post` is `pre` after `batch` was appended to one aggregate, with its
    /// state record written when the strategy asks for it, and every other
    /// aggregate left as it was.
    pub open spec fn committed(
        pre: EventRepository,
        post: EventRepository,
        aggregate_type: Seq<char>,
        aggregate_id: Seq<char>,
        batch: Seq<EventView>,
        state: Option<Seq<u8>>,
    ) -> bool {
        let new_sequence = pre.current_sequence(aggregate_type, aggregate_id) + batch.len();
        &&& post.storage() == pre.storage()
        &&& post.stream(aggregate_type, aggregate_id) == pre.stream(aggregate_type, aggregate_id) + batch
        &&& post.snapshot_of(aggregate_type, aggregate_id) == if pre.writes_state(aggregate_type, aggregate_id, new_sequence) {
            Some(SnapshotView { current_sequence: new_sequence, state: state.unwrap() })
        } else {
            pre.snapshot_of(aggregate_type, aggregate_id)
        }
        &&& forall|t: Seq<char>, a: Seq<char>|
            !(t == aggregate_type && a == aggregate_id) ==> {
                &&& #[trigger] post.stream(t, a) == pre.stream(t, a)
                &&& post.snapshot_of(t, a) == pre.snapshot_of(t, a)
            }
    }

    /// Appends `new_events` to an aggregate whose stored sequence is
    /// `expected_sequence`, numbering them from `expected_sequence + 1`, and
    /// writes `state` as its snapshot or current-state record when the
    /// strategy asks for one. Returns the new stored sequence. On any error
    /// nothing is written.
    pub fn commit(
        &mut self,
        aggregate_type: &String,
        aggregate_id: &String,
        expected_sequence: u64,
        new_events: &Vec<NewEvent>,
        state: Option<Vec<u8>>,
    ) -> (r: Result<u64, PersistenceError>)
        requires
            old(self).wf(),
        ensures
            final(self).wf(),
            ({
                let batch = new_events@.map_values(|e: NewEvent| e@);
                match old(self).commit_error(aggregate_type@, aggregate_id@, expected_sequence as nat, batch.len(), state is Some) {
                    Some(e) => r == Err::<u64, PersistenceError>(e) && *final(self) == *old(self),
                    None => r == Ok::<u64, PersistenceError>((expected_sequence + batch.len()) as u64)
                        && Self::committed(
                            *old(self),
                            *final(self),
                            aggregate_type@,
                            aggregate_id@,
                            batch,
                            match state { Some(v) => Some(v@), None => None },
                        ),
                }
            }),
    {
        let ghost pre = *self;
        let ghost batch = new_events@.map_values(|e: NewEvent| e@);
        let ghost sv = match state { Some(ref v) => Some(v@), None => None::<Seq<u8>> };
        proof {
            self.lemma_replay_start(aggregate_type@, aggregate_id@);
        }
        let slot = self.find_slot(aggregate_type, aggregate_id);
        let (current, last): (u64, u64) = match slot {
            Some(i) => {
                proof {
                    self.lemma_slot(i as int, aggregate_type@, aggregate_id@);
                    assert(self.streams@[i as int].wf(self.strategy));
                }
                let st = &self.streams[i];
                let last: u64 = match &st.snapshot {
                    Some(s) => s.current_sequence,
                    None => 0,
                };
                (st.events.len() as u64, last)
            },
            None => (0, 0),
        };
        if expected_sequence != current {
            return Err(PersistenceError::OptimisticLock);
        }
        if new_events.len() as u64 > u64::MAX - current {
            return Err(PersistenceError::Storage);
        }
        let new_sequence = current + new_events.len() as u64;
        let writes = match self.strategy {
            StorageStrategy::EventSourced => false,
            StorageStrategy::AggregateStore => true,
            StorageStrategy::Snapshot(k) => snapshot_due(k, last, new_sequence),
        };
        let new_snapshot = if writes {
            match state {
                Some(payload) => Some(
                    SnapshotRecord {
                        aggregate_type: aggregate_type.clone(),
                        aggregate_id: aggregate_id.clone(),
                        current_sequence: new_sequence,
                        payload,
                    },
                ),
                None => {
                    return Err(PersistenceError::Storage);
                },
            }
        } else {
            None
        };
        let mut records = stamp_events(aggregate_type, aggregate_id, current, new_events);
        let mut st = match slot {
            Some(i) => self.streams.remove(i),
            None => AggregateStream {
                aggregate_type: aggregate_type.clone(),
                aggregate_id: aggregate_id.clone(),
                events: Vec::new(),
                snapshot: None,
            },
        };
        let ghost old_st = st;
        let ghost recs = records@;
        st.events.append(&mut records);
        if writes {
            st.snapshot = new_snapshot;
        }
        proof {
            assert(st.data() =~= old_st.data() + batch);
            assert forall|k: int| 0 <= k < st.events@.len() implies {
                &&& (#[trigger] st.events@[k]).belongs_to(aggregate_type@, aggregate_id@)
                &&& st.events@[k].sequence == 0 + k + 1
                &&& st.events@[k].data() == st.data()[k]
            } by {
                if k < old_st.events@.len() {
                    assert(st.events@[k] == old_st.events@[k]);
                } else {
                    assert(st.events@[k] == recs[k - old_st.events@.len()]);
                }
            }
        }
        proof {
            if !writes {
                if let StorageStrategy::Snapshot(k) = self.strategy {
                    lemma_div_is_ordered(current as int, new_sequence as int, k as int);
                }
            }
            assert(st.wf(self.strategy));
        }
        let ghost i_slot: int = match slot { Some(i) => i as int, None => self.streams@.len() as int };
        match slot {
            Some(i) => {
                self.streams.insert(i, st);
                assert(self.streams@ =~= pre.streams@.update(i as int, st));
            },
            None => self.streams.push(st),
        }
        proof {
            Self::lemma_replace_stream(pre, *self, i_slot, st, aggregate_type@, aggregate_id@);
            assert(last == pre.replay_start(aggregate_type@, aggregate_id@));
            assert(writes == pre.writes_state(aggregate_type@, aggregate_id@, new_sequence as nat));
            assert(self.stream(aggregate_type@, aggregate_id@) == pre.stream(aggregate_type@, aggregate_id@) + batch);
            assert(self.snapshot_of(aggregate_type@, aggregate_id@) == if writes {
                Some(SnapshotView { current_sequence: new_sequence as nat, state: sv.unwrap() })
            } else {
                pre.snapshot_of(aggregate_type@, aggregate_id@)
            });
            assert(Self::committed(pre, *self, aggregate_type@, aggregate_id@, batch, sv));
        }
        Ok(new_sequence)
    }


    proof fn lemma_replace_stream(
        pre: EventRepository,
        post: EventRepository,
        i: int,
        st: AggregateStream,
        aggregate_type: Seq<char>,
        aggregate_id: Seq<char>,
    )
        requires
            pre.wf(),
            post.strategy == pre.strategy,
            st.wf(pre.strategy),
            st.is_for(aggregate_type, aggregate_id),
            0 <= i <= pre.streams@.len(),
            i < pre.streams@.len() ==> post.streams@ == pre.streams@.update(i, st)
                && pre.streams@[i].is_for(aggregate_type, aggregate_id),
            i == pre.streams@.len() ==> post.streams@ == pre.streams@.push(st)
                && !pre.has(aggregate_type, aggregate_id),
        ensures
            post.wf(),
            post.stream(aggregate_type, aggregate_id) == st.data(),
            post.snapshot_of(aggregate_type, aggregate_id) == st.snapshot_view(),
            forall|t: Seq<char>, a: Seq<char>|
                !(t == aggregate_type && a == aggregate_id) ==> {
                    &&& #[trigger] post.stream(t, a) == pre.stream(t, a)
                    &&& post.snapshot_of(t, a) == pre.snapshot_of(t, a)
                },
    {
        assert forall|j: int|
            #![trigger post.streams@[j]]
            0 <= j < post.streams@.len() && j != i ==> post.streams@[j] == pre.streams@[j] by {}
        assert forall|j: int, k: int|
            #![trigger post.streams@[j], post.streams@[k]]
            0 <= j < post.streams@.len() && 0 <= k < post.streams@.len() && j != k
                implies !post.streams@[j].is_for(post.streams@[k].aggregate_type@, post.streams@[k].aggregate_id@) by {
            if j == i {
                assert(pre.streams@[k].is_for(post.streams@[k].aggregate_type@, post.streams@[k].aggregate_id@));
                if i == pre.streams@.len() {
                    assert(!pre.has(aggregate_type, aggregate_id));
                }
            } else if k == i {
                assert(pre.streams@[j].is_for(post.streams@[j].aggregate_type@, post.streams@[j].aggregate_id@));
                if i == pre.streams@.len() {
                    assert(!pre.has(aggregate_type, aggregate_id));
                }
            } else {
                assert(pre.streams@[j] == post.streams@[j]);
                assert(pre.streams@[k] == post.streams@[k]);
            }
        }
        assert(post.wf());
        post.lemma_slot(i, aggregate_type, aggregate_id);
        assert forall|t: Seq<char>, a: Seq<char>|
            !(t == aggregate_type && a == aggregate_id) implies {
                &&& #[trigger] post.stream(t, a) == pre.stream(t, a)
                &&& post.snapshot_of(t, a) == pre.snapshot_of(t, a)
            } by {
            if pre.has(t, a) {
                let j = pre.slot(t, a);
                assert(pre.streams@[j].is_for(t, a));
                assert(j != i);
                assert(post.streams@[j] == pre.streams@[j]);
                post.lemma_slot(j, t, a);
            } else if post.has(t, a) {
                let j = post.slot(t, a);
                assert(post.streams@[j].is_for(t, a));
                assert(post.streams@[j] == pre.streams@[j]);
                assert(pre.streams@[j].is_for(t, a));
            }
        }
    }

    proof fn lemma_slot(&self, i: int, aggregate_type: Seq<char>, aggregate_id: Seq<char>)
        requires
            self.wf(),
            0 <= i < self.streams@.len(),
            self.streams@[i].is_for(aggregate_type, aggregate_id),
        ensures
            self.has(aggregate_type, aggregate_id),
            self.slot(aggregate_type, aggregate_id) == i,
            self.stream(aggregate_type, aggregate_id) == self.streams@[i].data(),
            self.snapshot_of(aggregate_type, aggregate_id) == self.streams@[i].snapshot_view(),
    {
        let j = self.slot(aggregate_type, aggregate_id);
        assert(self.streams@[j].is_for(aggregate_type, aggregate_id));
        if j != i {
            assert(!self.streams@[i].is_for(self.streams@[j].aggregate_type@, self.streams@[j].aggregate_id@));
        }
    }
}

/// The records of `new_events` for one aggregate, numbered from `start + 1`.
pub fn stamp_events(aggregate_type: &String, aggregate_id: &String, start: u64, new_events: &Vec<NewEvent>) -> (r: Vec<SerializedEvent>)
    requires
        start + new_events@.len() <= u64::MAX,
    ensures
        numbered_records(r@, aggregate_type@, aggregate_id@, new_events@.map_values(|e: NewEvent| e@), start as nat),
{
    let ghost data = new_events@.map_values(|e: NewEvent| e@);
    let mut r: Vec<SerializedEvent> = Vec::with_capacity(new_events.len());
    let mut i: usize = 0;
    while i < new_events.len()
        invariant
            i <= new_events@.len(),
            start + new_events@.len() <= u64::MAX,
            data == new_events@.map_values(|e: NewEvent| e@),
            numbered_records(r@, aggregate_type@, aggregate_id@, data.subrange(0, i as int), start as nat),
        decreases new_events@.len() - i,
    {
        let e = &new_events[i];
        let record = SerializedEvent {
            aggregate_type: aggregate_type.clone(),
            aggregate_id: aggregate_id.clone(),
            sequence: start + i as u64 + 1,
            event_type: e.event_type.clone(),
            event_version: e.event_version.clone(),
            payload: copy_bytes(&e.payload),
            metadata: copy_bytes(&e.metadata),
        };
        let ghost prev = r@;
        r.push(record);
        i = i + 1;
        assert forall|k: int| 0 <= k < r@.len() implies {
            &&& (#[trigger] r@[k]).belongs_to(aggregate_type@, aggregate_id@)
            &&& r@[k].sequence == start + k + 1
            &&& r@[k].data() == data.subrange(0, i as int)[k]
        } by {
            if k < prev.len() {
                assert(r@[k] == prev[k]);
                assert(prev[k].data() == data.subrange(0, i - 1)[k]);
            }
        }
    }
    assert(data.subrange(0, i as int) =~= data);
    r
}


/// The batches of a commit history joined in commit order.
pub open spec fn concat_batches(batches: Seq<Seq<EventView>>) -> Seq<EventView>
    decreases batches.len(),
{
    if batches.len() == 0 {
        Seq::empty()
    } else {
        concat_batches(batches.drop_last()) + batches.last()
    }
}

/// After any run of successful commits to one aggregate that starts from no
/// events, its stream is exactly the committed batches joined in commit order,
/// and its stored sequence is their total length.
pub proof fn lemma_stream_is_commit_history(
    repos: Seq<EventRepository>,
    batches: Seq<Seq<EventView>>,
    states: Seq<Option<Seq<u8>>>,
    aggregate_type: Seq<char>,
    aggregate_id: Seq<char>,
)
    requires
        repos.len() == batches.len() + 1,
        states.len() == batches.len(),
        repos[0].stream(aggregate_type, aggregate_id) == Seq::<EventView>::empty(),
        forall|k: int|
            0 <= k < batches.len() ==> #[trigger] EventRepository::committed(
                repos[k],
                repos[k + 1],
                aggregate_type,
                aggregate_id,
                batches[k],
                states[k],
            ),
    ensures
        repos.last().stream(aggregate_type, aggregate_id) == concat_batches(batches),
        repos.last().current_sequence(aggregate_type, aggregate_id) == concat_batches(batches).len(),
    decreases batches.len(),
{
    if batches.len() > 0 {
        let n = batches.len() - 1;
        assert(EventRepository::committed(repos[n], repos[n + 1], aggregate_type, aggregate_id, batches[n], states[n]));
        lemma_stream_is_commit_history(repos.drop_last(), batches.drop_last(), states.drop_last(), aggregate_type, aggregate_id);
        assert(repos.drop_last().last() == repos[n]);
    }
}

/// Under periodic snapshots of interval `k`, a load replays fewer than `k`
/// events: the snapshot covers every event up to the last multiple of `k`
/// reached, and never more events than exist.
pub proof fn lemma_snapshot_bounds_replay(repo: EventRepository, aggregate_type: Seq<char>, aggregate_id: Seq<char>, k: usize)
    requires
        repo.wf(),
        repo.storage() == StorageStrategy::Snapshot(k),
    ensures
        repo.replay_start(aggregate_type, aggregate_id) <= repo.current_sequence(aggregate_type, aggregate_id),
        repo.current_sequence(aggregate_type, aggregate_id) - repo.replay_start(aggregate_type, aggregate_id) < k,
        repo.replay_start(aggregate_type, aggregate_id) >= repo.current_sequence(aggregate_type, aggregate_id)
            - repo.current_sequence(aggregate_type, aggregate_id) % (k as nat),
{
    repo.lemma_replay_start(aggregate_type, aggregate_id);
    let s = repo.replay_start(aggregate_type, aggregate_id) as int;
    let n = repo.current_sequence(aggregate_type, aggregate_id) as int;
    let kk = k as int;
    lemma_fundamental_div_mod(s, kk);
    lemma_fundamental_div_mod(n, kk);
    lemma_mod_bound(s, kk);
    lemma_mod_bound(n, kk);
    assert(s / kk == n / kk);
    assert(kk * (n / kk) == n - n % kk);
}

/// Under the aggregate store, each committed aggregate has exactly one
/// current-state record, and it covers every event ever committed to it.
pub proof fn lemma_aggregate_store_record(repo: EventRepository, aggregate_type: Seq<char>, aggregate_id: Seq<char>)
    requires
        repo.wf(),
        repo.storage() == StorageStrategy::AggregateStore,
    ensures
        repo.current_sequence(aggregate_type, aggregate_id) > 0 ==> repo.snapshot_of(aggregate_type, aggregate_id) is Some,
        repo.snapshot_of(aggregate_type, aggregate_id) matches Some(s) ==> s.current_sequence
            == repo.current_sequence(aggregate_type, aggregate_id),
{
    repo.lemma_replay_start(aggregate_type, aggregate_id);
}

} // verus!
