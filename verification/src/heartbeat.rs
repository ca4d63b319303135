//! The heartbeat queue: a delay queue keyed by node id.
//!
//! The root leader schedules one pending heartbeat per node. Scheduling
//! coalesces: a later request may only move a node's deadline earlier,
//! never later. Polling drains every entry whose deadline has passed.
//! Timers and wakeups live outside the crate; deadlines are plain
//! nanosecond values and the poller hands in the current instant.

use vstd::prelude::*;

use crate::assoc::{
    find_key, lemma_lookup_absent, lemma_lookup_at, lemma_lookup_push, lemma_lookup_update,
    spec_has_key, spec_lookup, spec_unique_keys,
};

verus! {

/// A heartbeat to send to one node.
#[derive(Debug, Clone, Copy, PartialEq, Eq, Structural)]
pub struct HeartbeatTask {
    pub node_id: u64,
}

/// Whether some task in the list addresses the node.
pub open spec fn spec_tasks_contain(tasks: Seq<HeartbeatTask>, node: u64) -> bool {
    exists|i: int| 0 <= i < tasks.len() && (#[trigger] tasks[i]).node_id == node
}

/// The deadline a node ends up with after scheduling at `when`: an
/// existing earlier deadline wins, otherwise `when`.
pub open spec fn spec_coalesced(old_when: Option<u64>, when: u64) -> Option<u64> {
    match old_when {
        Some(w) => if w <= when {
            Some(w)
        } else {
            Some(when)
        },
        None => Some(when),
    }
}

/// The per-node schedule of pending heartbeats.
#[derive(Debug, Clone, PartialEq, Eq)]
pub struct HeartbeatQueue {
    pub enabled: bool,
    pub node_scheduled: Vec<(u64, u64)>,
}

impl HeartbeatQueue {
    /// Each node has at most one pending heartbeat.
    pub open spec fn wf(self) -> bool {
        spec_unique_keys(self.node_scheduled@)
    }

    /// The pending deadline of a node, if any.
    pub open spec fn spec_deadline(self, node: u64) -> Option<u64> {
        spec_lookup(self.node_scheduled@, node)
    }

    /// A disabled, empty queue.
    pub fn new() -> (r: HeartbeatQueue)
        ensures
            r.wf(),
            !r.enabled,
            forall|n: u64| r.spec_deadline(n) is None,
    {
        let r = HeartbeatQueue { enabled: false, node_scheduled: Vec::new() };
        proof {
            assert forall|n: u64| r.spec_deadline(n) is None by {
                lemma_lookup_absent(r.node_scheduled@, n);
            }
        }
        r
    }

    /// Schedules a heartbeat at `when` for each listed node.
    ///
    /// A no-op while disabled. Otherwise every listed node ends up
    /// scheduled at its coalesced deadline — moved earlier when `when`
    /// precedes its current deadline, left alone otherwise — and no other
    /// node's schedule changes.
    pub fn try_schedule(&mut self, tasks: Vec<HeartbeatTask>, when: u64)
        requires
            old(self).wf(),
        ensures
            final(self).wf(),
            final(self).enabled == old(self).enabled,
            !old(self).enabled ==> *final(self) == *old(self),
            old(self).enabled ==> (forall|n: u64|
                #[trigger] final(self).spec_deadline(n) == (if spec_tasks_contain(tasks@, n) {
                    spec_coalesced(old(self).spec_deadline(n), when)
                } else {
                    old(self).spec_deadline(n)
                })),
    {
        if !self.enabled {
            return;
        }
        let n = tasks.len();
        let mut i: usize = 0;
        while i < n
            invariant
                i <= n,
                n == tasks@.len(),
                self.wf(),
                self.enabled == old(self).enabled,
                forall|node: u64|
                    #[trigger] spec_lookup(self.node_scheduled@, node) == (if spec_tasks_contain(
                        tasks@.take(i as int),
                        node,
                    ) {
                        spec_coalesced(spec_lookup(old(self).node_scheduled@, node), when)
                    } else {
                        spec_lookup(old(self).node_scheduled@, node)
                    }),
            decreases n - i,
        {
            let node = tasks[i].node_id;
            let ghost pre = self.node_scheduled@;
            match find_key(&self.node_scheduled, node) {
                Some(idx) => {
                    let old_when = self.node_scheduled[idx].1;
                    proof {
                        lemma_lookup_at(pre, node, idx as int);
                    }
                    if when < old_when {
                        self.node_scheduled.set(idx, (node, when));
                        proof {
                            assert(self.node_scheduled@ == pre.update(idx as int, (node, when)));
                            assert forall|m: u64| true implies #[trigger] spec_lookup(
                                self.node_scheduled@,
                                m,
                            ) == (if m == node {
                                Some(when)
                            } else {
                                spec_lookup(pre, m)
                            }) by {
                                lemma_lookup_update(pre, idx as int, node, when, m);
                            }
                        }
                    }
                },
                None => {
                    proof {
                        lemma_lookup_absent(pre, node);
                    }
                    self.node_scheduled.push((node, when));
                    proof {
                        assert forall|m: u64| true implies #[trigger] spec_lookup(
                            self.node_scheduled@,
                            m,
                        ) == (if m == node {
                            Some(when)
                        } else {
                            spec_lookup(pre, m)
                        }) by {
                            lemma_lookup_push(pre, node, when, m);
                        }
                        assert(spec_unique_keys(self.node_scheduled@)) by {
                            assert forall|a: int, b: int|
                                0 <= a < self.node_scheduled@.len() && 0 <= b
                                    < self.node_scheduled@.len() && a != b implies (
                            #[trigger] self.node_scheduled@[a]).0 != (
                            #[trigger] self.node_scheduled@[b]).0 by {
                                if a == pre.len() as int {
                                    assert(pre[b].0 != node);
                                } else if b == pre.len() as int {
                                    assert(pre[a].0 != node);
                                }
                            }
                        }
                    }
                },
            }
            i = i + 1;
            proof {
                assert(tasks@.take(i as int) =~= tasks@.take(i - 1).push(tasks@[i - 1]));
                assert(tasks@.take(i as int)[i - 1].node_id == node);
                assert(spec_tasks_contain(tasks@.take(i as int), node));
                assert forall|m: u64| true implies #[trigger] spec_lookup(
                    self.node_scheduled@,
                    m,
                ) == (if spec_tasks_contain(tasks@.take(i as int), m) {
                    spec_coalesced(spec_lookup(old(self).node_scheduled@, m), when)
                } else {
                    spec_lookup(old(self).node_scheduled@, m)
                }) by {
                    if spec_tasks_contain(tasks@.take(i as int), m) {
                        if m != node {
                            let wi = choose|j: int|
                                0 <= j < i && (#[trigger] tasks@.take(i as int)[j]).node_id == m;
                            assert(wi < i - 1 && tasks@.take(i - 1)[wi].node_id == m);
                            assert(spec_tasks_contain(tasks@.take(i - 1), m));
                        }
                    } else {
                        assert(!spec_tasks_contain(tasks@.take(i - 1), m)) by {
                            if spec_tasks_contain(tasks@.take(i - 1), m) {
                                let wi = choose|j: int|
                                    0 <= j < i - 1 && (#[trigger] tasks@.take(i - 1)[j]).node_id
                                        == m;
                                assert(tasks@.take(i as int)[wi].node_id == m);
                            }
                        }
                        assert(m != node);
                    }
                }
            }
        }
        proof {
            assert(tasks@.take(n as int) =~= tasks@);
        }
    }

    /// Drains every heartbeat whose deadline lies at or before `now`.
    ///
    /// While disabled nothing is pending and nothing is returned. The
    /// returned tasks are exactly the expired nodes, each once; expired
    /// nodes leave the schedule and the rest keep their deadlines.
    pub fn try_poll(&mut self, now: u64) -> (r: Vec<HeartbeatTask>)
        requires
            old(self).wf(),
        ensures
            final(self).wf(),
            final(self).enabled == old(self).enabled,
            !old(self).enabled ==> (*final(self) == *old(self) && r@.len() == 0),
            old(self).enabled ==> {
                &&& (forall|n: u64|
                    #[trigger] final(self).spec_deadline(n) == (match old(self).spec_deadline(n) {
                        Some(w) => if w <= now {
                            None
                        } else {
                            Some(w)
                        },
                        None => None::<u64>,
                    }))
                &&& (forall|j: int|
                    0 <= j < r@.len() ==> (old(self).spec_deadline((#[trigger] r@[j]).node_id)
                        matches Some(w) && w <= now))
                &&& (forall|n: u64|
                    (old(self).spec_deadline(n) matches Some(w) && w <= now)
                        ==> spec_tasks_contain(r@, n))
                &&& (forall|a: int, b: int|
                    0 <= a < r@.len() && 0 <= b < r@.len() && a != b ==> (#[trigger] r@[a]).node_id
                        != (#[trigger] r@[b]).node_id)
            },
    {
        if !self.enabled {
            return Vec::new();
        }
        let ghost pre = self.node_scheduled@;
        let n = self.node_scheduled.len();
        let mut kept: Vec<(u64, u64)> = Vec::new();
        let mut out: Vec<HeartbeatTask> = Vec::new();
        let mut i: usize = 0;
        while i < n
            invariant
                i <= n,
                n == pre.len(),
                self.node_scheduled@ == pre,
                spec_unique_keys(pre),
                forall|m: u64|
                    #[trigger] spec_lookup(kept@, m) == (match spec_lookup(pre.take(i as int), m) {
                        Some(w) => if w <= now {
                            None
                        } else {
                            Some(w)
                        },
                        None => None::<u64>,
                    }),
                forall|j: int|
                    0 <= j < out@.len() ==> (spec_lookup(pre, (#[trigger] out@[j]).node_id)
                        matches Some(w) && w <= now),
                forall|m: u64|
                    (spec_lookup(pre.take(i as int), m) matches Some(w) && w <= now)
                        ==> spec_tasks_contain(out@, m),
                forall|j: int|
                    0 <= j < out@.len() ==> spec_has_key(pre.take(i as int), (#[trigger] out@[j]).node_id),
                forall|a: int, b: int|
                    0 <= a < out@.len() && 0 <= b < out@.len() && a != b ==> (
                    #[trigger] out@[a]).node_id != (#[trigger] out@[b]).node_id,
                spec_unique_keys(kept@),
                forall|j: int|
                    0 <= j < kept@.len() ==> spec_has_key(pre.take(i as int), (#[trigger] kept@[j]).0),
            decreases n - i,
        {
            let (node, when) = self.node_scheduled[i];
            let ghost kept_pre = kept@;
            let ghost out_pre = out@;
            proof {
                assert(pre[i as int] == (node, when));
                assert(!spec_has_key(pre.take(i as int), node)) by {
                    if spec_has_key(pre.take(i as int), node) {
                        let j = choose|j: int|
                            0 <= j < i && (#[trigger] pre.take(i as int)[j]).0 == node;
                        assert(pre[j].0 == node);
                    }
                }
                lemma_lookup_absent_from_no_key(pre.take(i as int), node);
            }
            if when <= now {
                out.push(HeartbeatTask { node_id: node });
                proof {
                    assert forall|j: int| 0 <= j < i implies (#[trigger] pre[j]).0 != node by {}
                    lemma_lookup_at(pre, node, i as int);
                }
            } else {
                kept.push((node, when));
            }
            i = i + 1;
            proof {
                assert(pre.take(i as int) =~= pre.take(i - 1).push(pre[i - 1]));
                assert(pre.take(i as int)[i - 1].0 == node);
                assert(spec_has_key(pre.take(i as int), node));
                assert forall|x: u64| spec_has_key(pre.take(i - 1), x) implies spec_has_key(
                    pre.take(i as int),
                    x,
                ) by {
                    let j = choose|j: int|
                        0 <= j < i - 1 && (#[trigger] pre.take(i - 1)[j]).0 == x;
                    assert(pre.take(i as int)[j].0 == x);
                }
                assert forall|m: u64| true implies #[trigger] spec_lookup(pre.take(i as int), m)
                    == (if m == node {
                    Some(when)
                } else {
                    spec_lookup(pre.take(i - 1), m)
                }) by {
                    lemma_lookup_push(pre.take(i - 1), node, when, m);
                }
                if when > now {
                    assert forall|m: u64| true implies #[trigger] spec_lookup(kept@, m) == (
                    if m == node {
                        Some(when)
                    } else {
                        spec_lookup(kept_pre, m)
                    }) by {
                        lemma_lookup_push(kept_pre, node, when, m);
                        if m == node {
                            assert(!spec_has_key(kept_pre, node)) by {
                                if spec_has_key(kept_pre, node) {
                                    let j = choose|j: int|
                                        0 <= j < kept_pre.len() && (#[trigger] kept_pre[j]).0
                                            == node;
                                    assert(spec_has_key(pre.take(i - 1), node));
                                }
                            }
                        }
                    }
                    assert(spec_unique_keys(kept@)) by {
                        assert forall|a: int, b: int|
                            0 <= a < kept@.len() && 0 <= b < kept@.len() && a != b implies (
                        #[trigger] kept@[a]).0 != (#[trigger] kept@[b]).0 by {
                            if a == kept_pre.len() as int {
                                assert(spec_has_key(pre.take(i - 1), kept_pre[b].0));
                                assert(kept_pre[b].0 != node);
                            } else if b == kept_pre.len() as int {
                                assert(spec_has_key(pre.take(i - 1), kept_pre[a].0));
                                assert(kept_pre[a].0 != node);
                            }
                        }
                    }
                } else {
                    assert forall|a: int, b: int|
                        0 <= a < out@.len() && 0 <= b < out@.len() && a != b implies (
                    #[trigger] out@[a]).node_id != (#[trigger] out@[b]).node_id by {
                        if a == out_pre.len() as int {
                            assert(spec_has_key(pre.take(i - 1), out_pre[b].node_id));
                            assert(out_pre[b].node_id != node);
                        } else if b == out_pre.len() as int {
                            assert(spec_has_key(pre.take(i - 1), out_pre[a].node_id));
                            assert(out_pre[a].node_id != node);
                        }
                    }
                    assert forall|m: u64|
                        (spec_lookup(pre.take(i as int), m) matches Some(w) && w
                            <= now) implies spec_tasks_contain(out@, m) by {
                        if m == node {
                            assert(out@[out@.len() - 1].node_id == node);
                        } else {
                            if spec_lookup(pre.take(i - 1), m) matches Some(w) && w <= now {
                                assert(spec_tasks_contain(out_pre, m));
                                let j = choose|j: int|
                                    0 <= j < out_pre.len() && (#[trigger] out_pre[j]).node_id == m;
                                assert(out@[j].node_id == m);
                            }
                        }
                    }
                }
            }
        }
        self.node_scheduled = kept;
        proof {
            assert(pre.take(n as int) =~= pre);
        }
        out
    }

    /// Toggles the queue; any toggle clears every pending entry.
    pub fn enable(&mut self, enable: bool)
        requires
            old(self).wf(),
        ensures
            final(self).wf(),
            final(self).enabled == enable,
            old(self).enabled == enable ==> *final(self) == *old(self),
            old(self).enabled != enable ==> (forall|n: u64| final(self).spec_deadline(n) is None),
    {
        if self.enabled != enable {
            self.node_scheduled = Vec::new();
            self.enabled = enable;
            proof {
                assert forall|n: u64| self.spec_deadline(n) is None by {
                    lemma_lookup_absent(self.node_scheduled@, n);
                }
            }
        }
    }
}

/// A key outside the table looks up to nothing.
proof fn lemma_lookup_absent_from_no_key(m: Seq<(u64, u64)>, key: u64)
    requires
        !spec_has_key(m, key),
    ensures
        spec_lookup(m, key) is None,
{
    assert(forall|j: int| 0 <= j < m.len() ==> (#[trigger] m[j]).0 != key);
    lemma_lookup_absent(m, key);
}

} // verus!
