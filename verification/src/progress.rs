//! Durable progress is written in batches: updates are coalesced per job,
//! the latest one winning, and flushed together.
use vstd::prelude::*;
use crate::models::ProgressSnapshot;

verus! {

/// A batch is flushed once it holds updates for this many jobs.
pub const FLUSH_THRESHOLD: usize = 128;

/// Progress updates waiting to be persisted, at most one per job.
pub struct PendingProgress {
    entries: Vec<ProgressSnapshot>,
    latest: Ghost<Map<u128, ProgressSnapshot>>,
}

pub open spec fn job_ids(s: Seq<ProgressSnapshot>) -> Seq<u128> {
    s.map_values(|p: ProgressSnapshot| p.job_id)
}

impl PendingProgress {
    #[verifier::type_invariant]
    closed spec fn consistent(self) -> bool {
        &&& job_ids(self.entries@).no_duplicates()
        &&& forall|i: int| 0 <= i < self.entries@.len() ==> #[trigger] self.latest@.dom().contains(self.entries@[i].job_id)
            && self.latest@[self.entries@[i].job_id] == self.entries@[i]
        &&& forall|id: u128| #[trigger] self.latest@.dom().contains(id) ==> job_ids(self.entries@).contains(id)
    }

    /// The latest pending update of each job.
    pub closed spec fn latest(&self) -> Map<u128, ProgressSnapshot> {
        self.latest@
    }

    pub fn new() -> (p: Self)
        ensures
            p.latest() == Map::<u128, ProgressSnapshot>::empty(),
    {
        let p = PendingProgress { entries: Vec::new(), latest: Ghost(Map::empty()) };
        proof {
            assert(job_ids(p.entries@) =~= Seq::<u128>::empty());
        }
        p
    }

    /// Records an update; it replaces any pending update of the same job.
    pub fn insert(&mut self, snapshot: ProgressSnapshot)
        ensures
            final(self).latest() == old(self).latest().insert(snapshot.job_id, snapshot),
    {
        proof {
            use_type_invariant(&*self);
        }
        let mut taken = PendingProgress::new();
        std::mem::swap(&mut taken, self);
        let PendingProgress { entries: mut entries, latest } = taken;
        let ghost before = entries@;
        let ghost old_ids = job_ids(before);
        let mut found: Option<usize> = None;
        let mut i: usize = 0;
        while i < entries.len()
            invariant
                i <= entries@.len(),
                entries@ == before,
                match found {
                    Some(k) => k < i && before[k as int].job_id == snapshot.job_id,
                    None => forall|j: int| 0 <= j < i ==> (#[trigger] before[j]).job_id != snapshot.job_id,
                },
            decreases entries@.len() - i,
        {
            if found.is_none() && entries[i].job_id == snapshot.job_id {
                found = Some(i);
            }
            i = i + 1;
        }
        let ghost new_map = latest@.insert(snapshot.job_id, snapshot);
        match found {
            Some(k) => {
                entries.set(k, snapshot);
                proof {
                    assert(old_ids[k as int] == snapshot.job_id);
                    assert(job_ids(entries@) =~= old_ids);
                    assert forall|q: int| 0 <= q < entries@.len() implies #[trigger] new_map.dom().contains(entries@[q].job_id)
                        && new_map[entries@[q].job_id] == entries@[q] by {
                        if q != k {
                            assert(old_ids[q] != old_ids[k as int]);
                            assert(entries@[q] == before[q]);
                        }
                    }
                    assert forall|id: u128| #[trigger] new_map.dom().contains(id) implies job_ids(entries@).contains(id) by {
                        if id == snapshot.job_id {
                            assert(job_ids(entries@)[k as int] == id);
                        }
                    }
                }
            },
            None => {
                entries.push(snapshot);
                proof {
                    assert(job_ids(entries@) =~= old_ids.push(snapshot.job_id));
                    assert(!old_ids.contains(snapshot.job_id)) by {
                        if old_ids.contains(snapshot.job_id) {
                            let q = choose|q: int| 0 <= q < old_ids.len() && old_ids[q] == snapshot.job_id;
                            assert(before[q].job_id == snapshot.job_id);
                        }
                    }
                    assert forall|a: int, b: int| 0 <= a < b < job_ids(entries@).len() implies job_ids(entries@)[a]
                        != job_ids(entries@)[b] by {
                        if b == old_ids.len() {
                            assert(old_ids[a] != snapshot.job_id);
                        }
                    }
                    assert forall|q: int| 0 <= q < entries@.len() implies #[trigger] new_map.dom().contains(entries@[q].job_id)
                        && new_map[entries@[q].job_id] == entries@[q] by {
                        if q < before.len() {
                            assert(entries@[q] == before[q]);
                            assert(before[q].job_id != snapshot.job_id);
                        }
                    }
                    assert forall|id: u128| #[trigger] new_map.dom().contains(id) implies job_ids(entries@).contains(id) by {
                        if id == snapshot.job_id {
                            assert(job_ids(entries@)[before.len() as int] == id);
                        } else {
                            assert(old_ids.contains(id));
                            let q = choose|q: int| 0 <= q < old_ids.len() && old_ids[q] == id;
                            assert(job_ids(entries@)[q] == id);
                        }
                    }
                }
            },
        }
        *self = PendingProgress { entries, latest: Ghost(new_map) };
    }

    /// How many jobs have a pending update.
    pub fn len(&self) -> (n: usize)
        ensures
            n == self.latest().len(),
    {
        proof {
            use_type_invariant(self);
            let ids = job_ids(self.entries@);
            ids.unique_seq_to_set();
            assert(self.latest@.dom() =~= ids.to_set()) by {
                assert forall|id: u128| #[trigger] ids.to_set().contains(id) implies self.latest@.dom().contains(id) by {
                    let k = choose|k: int| 0 <= k < ids.len() && ids[k] == id;
                    assert(self.latest@.dom().contains(self.entries@[k].job_id));
                }
            }
        }
        self.entries.len()
    }

    /// Whether the batch is due to be flushed.
    pub fn should_flush(&self) -> (b: bool)
        ensures
            b == (self.latest().len() >= FLUSH_THRESHOLD),
    {
        self.len() >= FLUSH_THRESHOLD
    }

    /// Takes every pending update, one per job, leaving nothing pending.
    pub fn drain(&mut self) -> (updates: Vec<ProgressSnapshot>)
        ensures
            final(self).latest() == Map::<u128, ProgressSnapshot>::empty(),
            job_ids(updates@).no_duplicates(),
            forall|i: int| 0 <= i < updates@.len() ==> #[trigger] old(self).latest().dom().contains(updates@[i].job_id)
                && old(self).latest()[updates@[i].job_id] == updates@[i],
            forall|id: u128| #[trigger] old(self).latest().dom().contains(id) ==> job_ids(updates@).contains(id),
    {
        proof {
            use_type_invariant(&*self);
        }
        let mut taken = PendingProgress::new();
        std::mem::swap(&mut taken, self);
        let PendingProgress { entries, latest } = taken;
        entries
    }
}

} // verus!
