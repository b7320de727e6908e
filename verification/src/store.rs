//! The correlation store: a bounded map from task identifier to the
//! pending start timestamp of a call, owned by the kernel-resident
//! component. An entry-side probe records the start time here; the
//! matching exit-side probe consumes it to compute the call's duration.

use vstd::prelude::*;
use vstd::hash_map::HashMapWithView;

verus! {

/// Bounded map from task identifier to pending start timestamp.
///
/// Holds at most `capacity` simultaneously pending calls. An insert
/// for a task that is already pending overwrites the earlier start
/// time; an insert for a fresh task at capacity fails and changes
/// nothing.
pub struct CorrelationStore {
    pending: HashMapWithView<u64, u64>,
    capacity: usize,
}

impl View for CorrelationStore {
    type V = Map<u64, u64>;

    closed spec fn view(&self) -> Map<u64, u64> {
        self.pending@
    }
}

impl CorrelationStore {
    /// The configured upper bound on simultaneously pending entries.
    pub closed spec fn spec_capacity(&self) -> usize {
        self.capacity
    }

    /// Well-formedness: the set of pending entries is finite and never
    /// exceeds the configured capacity.
    pub closed spec fn inv(&self) -> bool {
        &&& self@.dom().finite()
        &&& self@.len() <= self.capacity
    }

    /// The store never holds more than its configured capacity of
    /// pending entries.
    pub proof fn lemma_bounded(&self)
        requires
            self.inv(),
        ensures
            self@.dom().finite(),
            self@.len() <= self.spec_capacity(),
    {
    }

    /// Creates an empty store with the given capacity.
    pub fn new(capacity: usize) -> (s: Self)
        ensures
            s.inv(),
            s@ == Map::<u64, u64>::empty(),
            s.spec_capacity() == capacity,
    {
        let s = Self { pending: HashMapWithView::new(), capacity };
        proof {
            broadcast use vstd::set::group_set_axioms;

            assert(s@.dom() =~= Set::<u64>::empty());
        }
        s
    }

    /// Number of currently pending entries.
    pub fn len(&self) -> (n: usize)
        ensures
            n == self@.len(),
    {
        self.pending.len()
    }

    /// The configured capacity.
    pub fn capacity(&self) -> (n: usize)
        ensures
            n == self.spec_capacity(),
    {
        self.capacity
    }

    /// Records `ts` as the pending start time of `task`.
    ///
    /// Overwrites if the task is already pending. Fails, changing
    /// nothing, when a fresh task arrives with the store at capacity:
    /// no unrelated entry is ever evicted to make room.
    pub fn insert(&mut self, task: u64, ts: u64) -> (ok: bool)
        requires
            old(self).inv(),
        ensures
            final(self).inv(),
            final(self).spec_capacity() == old(self).spec_capacity(),
            ok == (old(self)@.contains_key(task) || old(self)@.len() < old(self).spec_capacity()),
            ok ==> final(self)@ == old(self)@.insert(task, ts),
            !ok ==> final(self)@ == old(self)@,
    {
        if self.pending.contains_key(&task) || self.pending.len() < self.capacity {
            let ghost before = self.pending@;
            self.pending.insert(task, ts);
            proof {
                broadcast use vstd::set::group_set_axioms;

                assert(self.pending@.dom() =~= before.dom().insert(task));
            }
            true
        } else {
            false
        }
    }

    /// Returns the pending start time of `task`, if any.
    pub fn lookup(&self, task: u64) -> (r: Option<u64>)
        ensures
            r == if self@.contains_key(task) {
                Some(self@[task])
            } else {
                None::<u64>
            },
    {
        match self.pending.get(&task) {
            Some(ts) => Some(*ts),
            None => None,
        }
    }

    /// Removes the pending entry of `task`, returning its start time.
    ///
    /// Fails, changing nothing, when the task has no pending entry.
    pub fn remove(&mut self, task: u64) -> (r: Option<u64>)
        requires
            old(self).inv(),
        ensures
            final(self).inv(),
            final(self).spec_capacity() == old(self).spec_capacity(),
            old(self)@.contains_key(task) ==> r == Some(old(self)@[task])
                && final(self)@ == old(self)@.remove(task),
            !old(self)@.contains_key(task) ==> r == None::<u64> && final(self)@ == old(self)@,
    {
        let ghost before = self.pending@;
        let r = self.pending.remove(&task);
        proof {
            broadcast use vstd::set::group_set_axioms;

            if before.contains_key(task) {
                assert(self.pending@.dom() =~= before.dom().remove(task));
            }
        }
        r
    }
}

} // verus!
