//! Materialized view projections, one versioned record per view id, updated
//! under optimistic concurrency.
use vstd::prelude::*;
use crate::types::{copy_bytes, PersistenceError};

verus! {

/// A view as the contracts see it: its version and its payload.
pub struct ViewState {
    pub version: nat,
    pub payload: Seq<u8>,
}

/// A stored projection.
#[derive(Debug)]
pub struct ViewRecord {
    pub view_id: String,
    pub version: u64,
    pub payload: Vec<u8>,
}

impl View for ViewRecord {
    type V = ViewState;

    open spec fn view(&self) -> ViewState {
        ViewState { version: self.version as nat, payload: self.payload@ }
    }
}

/// The projections of one view type, keyed by view id.
#[derive(Debug)]
pub struct ViewRepository {
    view_name: String,
    records: Vec<ViewRecord>,
}

impl ViewRepository {
    pub closed spec fn wf(&self) -> bool {
        forall|i: int, j: int|
            #![trigger self.records@[i], self.records@[j]]
            0 <= i < self.records@.len() && 0 <= j < self.records@.len() && i != j
                ==> self.records@[i].view_id@ != self.records@[j].view_id@
    }

    /// The name of the view type.
    pub closed spec fn name(&self) -> Seq<char> {
        self.view_name@
    }

    closed spec fn has(&self, view_id: Seq<char>) -> bool {
        exists|i: int| 0 <= i < self.records@.len() && (#[trigger] self.records@[i]).view_id@ == view_id
    }

    closed spec fn slot(&self, view_id: Seq<char>) -> int {
        choose|i: int| 0 <= i < self.records@.len() && (#[trigger] self.records@[i]).view_id@ == view_id
    }

    /// The stored projection with this id, if there is one.
    pub closed spec fn view_of(&self, view_id: Seq<char>) -> Option<ViewState> {
        if self.has(view_id) {
            Some(self.records@[self.slot(view_id)]@)
        } else {
            None
        }
    }

    /// The stored version of a projection; 0 when it is absent.
    pub open spec fn current_version(&self, view_id: Seq<char>) -> nat {
        match self.view_of(view_id) {
            Some(v) => v.version,
            None => 0,
        }
    }

    /// The error an update expecting `expected` fails with, if any: a version
    /// other than the stored one, or a version that cannot be incremented.
    pub open spec fn update_error(&self, view_id: Seq<char>, expected: Option<u64>) -> Option<PersistenceError> {
        let expected_version: nat = match expected {
            Some(v) => v as nat,
            None => 0,
        };
        if expected_version != self.current_version(view_id) {
            Some(PersistenceError::OptimisticLock)
        } else if self.current_version(view_id) >= u64::MAX {
            Some(PersistenceError::Storage)
        } else {
            None
        }
    }

    proof fn lemma_slot(&self, i: int, view_id: Seq<char>)
        requires
            self.wf(),
            0 <= i < self.records@.len(),
            self.records@[i].view_id@ == view_id,
        ensures
            self.has(view_id),
            self.slot(view_id) == i,
            self.view_of(view_id) == Some(self.records@[i]@),
    {
        let j = self.slot(view_id);
        assert(self.records@[j].view_id@ == view_id);
    }

    /// An empty repository for the view type `view_name`.
    pub fn new(view_name: &str) -> (r: ViewRepository)
        ensures
            r.wf(),
            r.name() == view_name@,
            forall|id: Seq<char>| #[trigger] r.view_of(id) is None,
    {
        let r = ViewRepository { view_name: view_name.to_owned(), records: Vec::new() };
        assert forall|id: Seq<char>| #[trigger] r.view_of(id) is None by {
            assert(!r.has(id));
        }
        r
    }

    /// The name of the view type.
    pub fn view_name(&self) -> (r: &String)
        ensures
            r@ == self.name(),
    {
        &self.view_name
    }

    fn find_slot(&self, view_id: &String) -> (r: Option<usize>)
        ensures
            r matches Some(i) ==> i < self.records@.len() && self.records@[i as int].view_id@ == view_id@,
            r is None ==> !self.has(view_id@),
    {
        let mut i: usize = 0;
        while i < self.records.len()
            invariant
                i <= self.records@.len(),
                forall|k: int| 0 <= k < i ==> (#[trigger] self.records@[k]).view_id@ != view_id@,
            decreases self.records@.len() - i,
        {
            if self.records[i].view_id == *view_id {
                return Some(i);
            }
            i = i + 1;
        }
        None
    }

    /// The projection with this id and its version, copied; `None` when absent.
    pub fn load(&self, view_id: &String) -> (r: Option<ViewRecord>)
        requires
            self.wf(),
        ensures
            r matches Some(v) ==> v.view_id@ == view_id@ && self.view_of(view_id@) == Some(v@),
            r is None ==> self.view_of(view_id@) is None,
    {
        match self.find_slot(view_id) {
            Some(i) => {
                proof {
                    self.lemma_slot(i as int, view_id@);
                }
                let rec = &self.records[i];
                Some(ViewRecord { view_id: rec.view_id.clone(), version: rec.version, payload: copy_bytes(&rec.payload) })
            },
            None => None,
        }
    }

    /// Reads the projection `view_id`, derives its new payload with `mutator`
    /// from the stored payload (`None` when absent), and writes it as
    /// `update` does: only if the stored version is still `expected_version`.
    pub fn update_with<F: Fn(Option<Vec<u8>>) -> Vec<u8>>(
        &mut self,
        view_id: &String,
        mutator: F,
        expected_version: Option<u64>,
    ) -> (r: Result<u64, PersistenceError>)
        requires
            old(self).wf(),
            forall|p: Option<Vec<u8>>| #[trigger] mutator.requires((p,)),
        ensures
            final(self).wf(),
            final(self).name() == old(self).name(),
            match old(self).update_error(view_id@, expected_version) {
                Some(e) => r == Err::<u64, PersistenceError>(e) && *final(self) == *old(self),
                None => {
                    &&& r == Ok::<u64, PersistenceError>((old(self).current_version(view_id@) + 1) as u64)
                    &&& exists|prev: Option<Vec<u8>>, out: Vec<u8>|
                        {
                            &&& #[trigger] mutator.ensures((prev,), out)
                            &&& match prev {
                                Some(p) => old(self).view_of(view_id@) matches Some(v) && v.payload == p@,
                                None => old(self).view_of(view_id@) is None,
                            }
                            &&& final(self).view_of(view_id@) == Some(
                                ViewState { version: old(self).current_version(view_id@) + 1, payload: out@ },
                            )
                        }
                    &&& forall|other: Seq<char>|
                        other != view_id@ ==> #[trigger] final(self).view_of(other) == old(self).view_of(other)
                },
            },
    {
        let prev: Option<Vec<u8>> = match self.load(view_id) {
            Some(record) => Some(record.payload),
            None => None,
        };
        let ghost prev_copy = prev;
        let out = mutator(prev);
        let ghost out_copy = out;
        let r = self.update(view_id, out, expected_version);
        assert(mutator.ensures((prev_copy,), out_copy));
        r
    }

    /// Writes `payload` as the projection `view_id`, provided its stored
    /// version (0 when absent) is still `expected_version` (0 when `None`).
    /// Returns the new version, one more than the stored one. On any error
    /// nothing is written.
    pub fn update(&mut self, view_id: &String, payload: Vec<u8>, expected_version: Option<u64>) -> (r: Result<u64, PersistenceError>)
        requires
            old(self).wf(),
        ensures
            final(self).wf(),
            final(self).name() == old(self).name(),
            match old(self).update_error(view_id@, expected_version) {
                Some(e) => r == Err::<u64, PersistenceError>(e) && *final(self) == *old(self),
                None => {
                    &&& r == Ok::<u64, PersistenceError>((old(self).current_version(view_id@) + 1) as u64)
                    &&& final(self).view_of(view_id@) == Some(
                        ViewState { version: old(self).current_version(view_id@) + 1, payload: payload@ },
                    )
                    &&& forall|other: Seq<char>|
                        other != view_id@ ==> #[trigger] final(self).view_of(other) == old(self).view_of(other)
                },
            },
    {
        let ghost pre = *self;
        let slot = self.find_slot(view_id);
        let current: u64 = match slot {
            Some(i) => {
                proof {
                    self.lemma_slot(i as int, view_id@);
                }
                self.records[i].version
            },
            None => 0,
        };
        let expected: u64 = match expected_version {
            Some(v) => v,
            None => 0,
        };
        if expected != current {
            return Err(PersistenceError::OptimisticLock);
        }
        if current == u64::MAX {
            return Err(PersistenceError::Storage);
        }
        let rec = ViewRecord { view_id: view_id.clone(), version: current + 1, payload };
        let ghost i_slot: int = match slot { Some(i) => i as int, None => self.records@.len() as int };
        match slot {
            Some(i) => {
                self.records.set(i, rec);
            },
            None => {
                self.records.push(rec);
            },
        }
        proof {
            assert forall|j: int|
                #![trigger self.records@[j]]
                0 <= j < self.records@.len() && j != i_slot ==> self.records@[j] == pre.records@[j] by {}
            assert forall|j: int, k: int|
                #![trigger self.records@[j], self.records@[k]]
                0 <= j < self.records@.len() && 0 <= k < self.records@.len() && j != k
                    implies self.records@[j].view_id@ != self.records@[k].view_id@ by {
                if j == i_slot {
                    assert(pre.records@[k] == self.records@[k]);
                } else if k == i_slot {
                    assert(pre.records@[j] == self.records@[j]);
                } else {
                    assert(pre.records@[j] == self.records@[j]);
                    assert(pre.records@[k] == self.records@[k]);
                }
            }
            assert(self.wf());
            self.lemma_slot(i_slot, view_id@);
            assert forall|other: Seq<char>|
                other != view_id@ implies #[trigger] self.view_of(other) == pre.view_of(other) by {
                if pre.has(other) {
                    let j = pre.slot(other);
                    assert(pre.records@[j].view_id@ == other);
                    assert(self.records@[j] == pre.records@[j]);
                    self.lemma_slot(j, other);
                } else if self.has(other) {
                    let j = self.slot(other);
                    assert(self.records@[j].view_id@ == other);
                    assert(self.records@[j] == pre.records@[j]);
                }
            }
        }
        Ok(current + 1)
    }
}

} // verus!
