//! Monotonic transaction-id allocation on the root leader.
//!
//! The leader holds a reserved range `[next_txn_id, max_txn_id)`. Ids are
//! handed out from the front in O(1); a periodic bump persists a new
//! maximum — at least the wall clock plus a five-second reservation — so
//! allocation survives a short bumper stall and stays monotonic across
//! leader handoffs. `max_txn_id == 0` means "not leader" and aborts
//! pending allocators.

use vstd::prelude::*;

verus! {

/// Nanoseconds of headroom persisted ahead of the clock on each bump.
pub const TXN_ID_RESERVATION: u64 = 5000000000;

/// Outcome of one allocation attempt.
#[derive(Debug, Clone, Copy, PartialEq, Eq, Structural)]
pub enum AllocDecision {
    /// The range `[id, id + num_required)` now belongs to the caller.
    Allocated(u64),
    /// The reservation is exhausted; retry after the next bump.
    Exhausted,
    /// This replica stopped being the root leader.
    NotLeader,
}

/// The allocator state of the current root leader.
#[derive(Debug, Clone, Copy, PartialEq, Eq, Structural)]
pub struct RootCore {
    pub next_txn_id: u64,
    pub max_txn_id: u64,
}

/// One successful allocation step: `id` is handed out and the cursor
/// advances past the range.
pub open spec fn spec_alloc(c: RootCore, num: u64, c2: RootCore, id: u64) -> bool {
    &&& c.max_txn_id != 0
    &&& c.next_txn_id + num <= c.max_txn_id
    &&& id == c.next_txn_id
    &&& c2 == (RootCore { next_txn_id: (c.next_txn_id + num) as u64, max_txn_id: c.max_txn_id })
}

impl RootCore {
    /// The leader's cursors never run past the reservation.
    pub open spec fn wf(self) -> bool {
        self.max_txn_id != 0 ==> self.next_txn_id <= self.max_txn_id
    }

    /// A fresh leader's core: both cursors at the persisted maximum.
    pub fn new(persisted_max: u64) -> (r: RootCore)
        ensures
            r == (RootCore { next_txn_id: persisted_max, max_txn_id: persisted_max }),
            r.wf(),
    {
        RootCore { next_txn_id: persisted_max, max_txn_id: persisted_max }
    }

    /// Advances the reservation: the new maximum is the wall clock or the
    /// old maximum, whichever is later, plus the reservation. Returns the
    /// value the caller must persist before publishing it.
    pub fn bump_txn_id(&mut self, now_nanos: u64) -> (r: u64)
        requires
            old(self).wf(),
            old(self).max_txn_id <= u64::MAX - TXN_ID_RESERVATION,
            now_nanos <= u64::MAX - TXN_ID_RESERVATION,
        ensures
            r == (if old(self).max_txn_id >= now_nanos {
                old(self).max_txn_id + TXN_ID_RESERVATION
            } else {
                now_nanos + TXN_ID_RESERVATION
            }),
            final(self).max_txn_id == r,
            final(self).next_txn_id == old(self).next_txn_id,
            final(self).max_txn_id > old(self).max_txn_id,
            final(self).max_txn_id >= now_nanos,
            old(self).next_txn_id <= old(self).max_txn_id ==> final(self).wf(),
    {
        let base = if self.max_txn_id >= now_nanos {
            self.max_txn_id
        } else {
            now_nanos
        };
        let next = base + TXN_ID_RESERVATION;
        self.max_txn_id = next;
        next
    }

    /// One allocation attempt for `num_required` consecutive ids.
    ///
    /// `NotLeader` exactly when the core was invalidated; `Exhausted`
    /// exactly when the reservation cannot cover the range (the caller
    /// yields and retries); otherwise the old cursor is returned and
    /// advanced past the range.
    pub fn alloc_txn_id(&mut self, num_required: u64) -> (r: AllocDecision)
        requires
            old(self).wf(),
        ensures
            final(self).wf(),
            old(self).max_txn_id == 0 ==> (r == AllocDecision::NotLeader && *final(self) == *old(
                self,
            )),
            old(self).max_txn_id != 0 && old(self).next_txn_id + num_required > old(
                self,
            ).max_txn_id ==> (r == AllocDecision::Exhausted && *final(self) == *old(self)),
            old(self).max_txn_id != 0 && old(self).next_txn_id + num_required <= old(
                self,
            ).max_txn_id ==> (r == AllocDecision::Allocated(old(self).next_txn_id) && spec_alloc(
                *old(self),
                num_required,
                *final(self),
                old(self).next_txn_id,
            )),
    {
        if self.max_txn_id == 0 {
            return AllocDecision::NotLeader;
        }
        if num_required > self.max_txn_id - self.next_txn_id {
            return AllocDecision::Exhausted;
        }
        let id = self.next_txn_id;
        self.next_txn_id = self.next_txn_id + num_required;
        AllocDecision::Allocated(id)
    }

    /// Invalidates the core on leadership loss: pending allocators
    /// observe `max_txn_id == 0` and abort.
    pub fn invalidate(&mut self)
        ensures
            final(self).max_txn_id == 0,
            final(self).next_txn_id == old(self).next_txn_id,
            final(self).wf(),
    {
        self.max_txn_id = 0;
    }
}

/// Successive allocations hand out strictly increasing, non-overlapping
/// ranges: the second range starts at or after the end of the first.
pub proof fn lemma_alloc_ranges_disjoint(
    c0: RootCore,
    c1: RootCore,
    c2: RootCore,
    n1: u64,
    n2: u64,
    a: u64,
    b: u64,
)
    requires
        spec_alloc(c0, n1, c1, a),
        spec_alloc(c1, n2, c2, b),
    ensures
        a + n1 <= b,
        n1 > 0 ==> a < b,
{
}

/// Every id of an allocated range stays below the reservation maximum.
pub proof fn lemma_alloc_below_max(c: RootCore, num: u64, c2: RootCore, id: u64)
    requires
        spec_alloc(c, num, c2, id),
    ensures
        id + num <= c.max_txn_id,
{
}

/// Across a leader handoff, the new leader's first issued id is strictly
/// greater than every id the previous leader allocated.
///
/// The previous leader's ids lie below its reservation maximum, the
/// persisted marker is at least that maximum (each bump persists before
/// publishing), and the new leader starts its cursor at the persisted
/// marker — so anything it hands out starts strictly above any previously
/// issued id (ranges of at least one id).
pub proof fn lemma_handoff_monotonic(
    c_old: RootCore,
    c_old2: RootCore,
    n_old: u64,
    id_old: u64,
    persisted: u64,
    c_new: RootCore,
    c_new2: RootCore,
    n_new: u64,
    id_new: u64,
)
    requires
        spec_alloc(c_old, n_old, c_old2, id_old),
        n_old > 0,
        persisted >= c_old.max_txn_id,
        c_new.next_txn_id >= persisted,
        spec_alloc(c_new, n_new, c_new2, id_new),
    ensures
        id_new > id_old,
{
}

} // verus!
