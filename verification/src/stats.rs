//! Ongoing-delta accounting for in-flight replica moves.
//!
//! Two independent projections are merged at query time: per-group
//! schedule deltas reported by group leaders (an update replaces an entry
//! only with a strictly greater epoch) and a node-delta map set atomically
//! by job progress. `get_node_delta` sums both so the allocator avoids
//! over-scheduling onto a node with pending moves.

use vstd::prelude::*;

use crate::assoc::{
    find_key, lemma_lookup_absent, lemma_lookup_at, lemma_lookup_update, lemma_set_at,
    spec_lookup, spec_set, spec_unique_keys,
};
use crate::meta::{ReplicaDesc, ScheduleState};
use vstd::wrapping::i64_specs;

verus! {

/// Net change of replica count pending on one node.
#[derive(Debug, Clone, Copy, PartialEq, Eq, Structural)]
pub struct NodeDelta {
    pub replica_count: i64,
}

/// In-flight delta of one group: its epoch and the replicas moving in and
/// out.
#[derive(Debug, Clone, PartialEq, Eq)]
#[verifier::ext_equal]
pub struct GroupDelta {
    pub epoch: u64,
    pub incoming: Vec<ReplicaDesc>,
    pub outgoing: Vec<ReplicaDesc>,
}

/// Per-group schedule deltas, keyed by group id.
#[derive(Debug, Clone, PartialEq, Eq)]
#[verifier::ext_equal]
pub struct SchedStats {
    pub raw_group_delta: Vec<(u64, GroupDelta)>,
}

/// Node deltas reported by background jobs.
#[derive(Debug, Clone, PartialEq, Eq)]
#[verifier::ext_equal]
pub struct JobStats {
    pub node_delta: Vec<(u64, NodeDelta)>,
}

/// Both projections together.
#[derive(Debug, Clone, PartialEq, Eq)]
#[verifier::ext_equal]
pub struct OngoingStats {
    pub sched_stats: SchedStats,
    pub job_stats: JobStats,
}

/// One schedule update folded into the table: ignored unless its epoch is
/// strictly greater than the stored one (or the group is new).
pub open spec fn spec_apply_state(
    m: Seq<(u64, GroupDelta)>,
    s: ScheduleState,
) -> Seq<(u64, GroupDelta)> {
    let fresh = GroupDelta {
        epoch: s.epoch,
        incoming: s.incoming_replicas,
        outgoing: s.outgoing_replicas,
    };
    match spec_lookup(m, s.group_id) {
        Some(d) => if d.epoch < s.epoch {
            spec_set(m, s.group_id, fresh)
        } else {
            m
        },
        None => m.push((s.group_id, fresh)),
    }
}

/// Whether one update changes the table.
pub open spec fn spec_state_changes(m: Seq<(u64, GroupDelta)>, s: ScheduleState) -> bool {
    match spec_lookup(m, s.group_id) {
        Some(d) => d.epoch < s.epoch,
        None => true,
    }
}

/// The first `i` updates folded into the table, in order.
pub open spec fn spec_apply_states(
    m: Seq<(u64, GroupDelta)>,
    updates: Seq<ScheduleState>,
    i: int,
) -> Seq<(u64, GroupDelta)>
    decreases i,
{
    if i <= 0 {
        m
    } else {
        spec_apply_state(spec_apply_states(m, updates, i - 1), updates[i - 1])
    }
}

/// Whether any of the first `i` updates changes the table.
pub open spec fn spec_states_change(
    m: Seq<(u64, GroupDelta)>,
    updates: Seq<ScheduleState>,
    i: int,
) -> bool
    decreases i,
{
    if i <= 0 {
        false
    } else {
        spec_states_change(m, updates, i - 1) || spec_state_changes(
            spec_apply_states(m, updates, i - 1),
            updates[i - 1],
        )
    }
}

/// Folding depends only on the updates before `i`.
pub proof fn lemma_apply_states_prefix(
    m: Seq<(u64, GroupDelta)>,
    a: Seq<ScheduleState>,
    b: Seq<ScheduleState>,
    i: int,
)
    requires
        i <= a.len(),
        i <= b.len(),
        forall|j: int| 0 <= j < i ==> a[j] == b[j],
    ensures
        spec_apply_states(m, a, i) == spec_apply_states(m, b, i),
    decreases i,
{
    if i > 0 {
        lemma_apply_states_prefix(m, a, b, i - 1);
    }
}

/// Accumulates +1 for every listed replica on `node` (wrapping).
pub open spec fn spec_acc_incoming(rs: Seq<ReplicaDesc>, node: u64, acc: i64) -> i64
    decreases rs.len(),
{
    if rs.len() == 0 {
        acc
    } else {
        let a = spec_acc_incoming(rs.drop_last(), node, acc);
        if rs.last().node_id == node {
            i64_specs::wrapping_add(a, 1)
        } else {
            a
        }
    }
}

/// Accumulates −1 for every listed replica on `node` (wrapping).
pub open spec fn spec_acc_outgoing(rs: Seq<ReplicaDesc>, node: u64, acc: i64) -> i64
    decreases rs.len(),
{
    if rs.len() == 0 {
        acc
    } else {
        let a = spec_acc_outgoing(rs.drop_last(), node, acc);
        if rs.last().node_id == node {
            i64_specs::wrapping_sub(a, 1)
        } else {
            a
        }
    }
}

/// The schedule projection of one node: +1 per incoming, −1 per outgoing
/// replica over all groups.
pub open spec fn spec_sched_delta(m: Seq<(u64, GroupDelta)>, node: u64, acc: i64) -> i64
    decreases m.len(),
{
    if m.len() == 0 {
        acc
    } else {
        spec_acc_outgoing(
            m.last().1.outgoing@,
            node,
            spec_acc_incoming(m.last().1.incoming@, node, spec_sched_delta(m.drop_last(), node, acc)),
        )
    }
}

/// The job projection of one node.
pub open spec fn spec_job_delta(m: Seq<(u64, NodeDelta)>, node: u64) -> i64 {
    match spec_lookup(m, node) {
        Some(d) => d.replica_count,
        None => 0,
    }
}

impl SchedStats {
    /// Group ids are unique.
    pub open spec fn wf(self) -> bool {
        spec_unique_keys(self.raw_group_delta@)
    }

    /// An empty projection.
    pub fn new() -> (r: SchedStats)
        ensures
            r.wf(),
            r.raw_group_delta@.len() == 0,
    {
        SchedStats { raw_group_delta: Vec::new() }
    }

    /// Folds reported schedule states into the table; an entry is
    /// replaced only by a strictly greater epoch. Returns whether
    /// anything changed.
    pub fn replace_state(&mut self, updates: Vec<ScheduleState>) -> (r: bool)
        requires
            old(self).wf(),
        ensures
            final(self).wf(),
            final(self).raw_group_delta@ == spec_apply_states(
                old(self).raw_group_delta@,
                updates@,
                updates@.len() as int,
            ),
            r == spec_states_change(old(self).raw_group_delta@, updates@, updates@.len() as int),
    {
        let ghost m0 = self.raw_group_delta@;
        let ghost u0 = updates@;
        let mut rest = updates;
        let mut updated = false;
        let ghost n = u0.len() as int;
        let ghost i: int = 0;
        while rest.len() > 0
            invariant
                0 <= i <= n,
                n == u0.len(),
                rest@ == u0.skip(i),
                self.wf(),
                self.raw_group_delta@ == spec_apply_states(m0, u0, i),
                updated == spec_states_change(m0, u0, i),
            decreases rest@.len(),
        {
            let state = rest.remove(0);
            proof {
                assert(state == u0[i]);
                assert(rest@ =~= u0.skip(i + 1));
            }
            let ghost pre = self.raw_group_delta@;
            let group_id = state.group_id;
            let epoch = state.epoch;
            let fresh = GroupDelta {
                epoch: state.epoch,
                incoming: state.incoming_replicas,
                outgoing: state.outgoing_replicas,
            };
            match find_key(&self.raw_group_delta, group_id) {
                Some(idx) => {
                    proof {
                        lemma_lookup_at(pre, group_id, idx as int);
                    }
                    let current_epoch = self.raw_group_delta[idx].1.epoch;
                    if current_epoch < epoch {
                        proof {
                            lemma_set_at(pre, group_id, fresh, idx as int);
                            lemma_lookup_update(pre, idx as int, group_id, fresh, 0);
                        }
                        self.raw_group_delta.set(idx, (group_id, fresh));
                        updated = true;
                    }
                },
                None => {
                    proof {
                        lemma_lookup_absent(pre, group_id);
                    }
                    self.raw_group_delta.push((group_id, fresh));
                    updated = true;
                    proof {
                        assert(spec_unique_keys(self.raw_group_delta@)) by {
                            assert forall|a: int, b: int|
                                0 <= a < self.raw_group_delta@.len() && 0 <= b
                                    < self.raw_group_delta@.len() && a != b implies (
                            #[trigger] self.raw_group_delta@[a]).0 != (
                            #[trigger] self.raw_group_delta@[b]).0 by {
                                if a == pre.len() as int {
                                    assert(pre[b].0 != group_id);
                                } else if b == pre.len() as int {
                                    assert(pre[a].0 != group_id);
                                }
                            }
                        }
                    }
                },
            }
            proof {
                i = i + 1;
            }
        }
        proof {
            assert(u0.skip(n) =~= Seq::<ScheduleState>::empty());
            assert(i == n);
        }
        updated
    }
}

impl OngoingStats {
    /// Both tables keep unique keys.
    pub open spec fn wf(self) -> bool {
        self.sched_stats.wf() && spec_unique_keys(self.job_stats.node_delta@)
    }

    /// Empty accounting.
    pub fn new() -> (r: OngoingStats)
        ensures
            r.wf(),
            r.sched_stats.raw_group_delta@.len() == 0,
            r.job_stats.node_delta@.len() == 0,
    {
        OngoingStats {
            sched_stats: SchedStats::new(),
            job_stats: JobStats { node_delta: Vec::new() },
        }
    }

    /// Folds schedule updates into the schedule projection and, when
    /// given, replaces the job projection wholesale.
    pub fn handle_update(
        &mut self,
        state_updates: Vec<ScheduleState>,
        job_updates: Option<Vec<(u64, NodeDelta)>>,
    )
        requires
            old(self).wf(),
            job_updates matches Some(v) ==> spec_unique_keys(v@),
        ensures
            final(self).wf(),
            final(self).sched_stats.raw_group_delta@ == spec_apply_states(
                old(self).sched_stats.raw_group_delta@,
                state_updates@,
                state_updates@.len() as int,
            ),
            final(self).job_stats.node_delta@ == (match job_updates {
                Some(v) => v@,
                None => old(self).job_stats.node_delta@,
            }),
    {
        if state_updates.len() > 0 {
            let _ = self.sched_stats.replace_state(state_updates);
        }
        match job_updates {
            Some(v) => {
                self.job_stats.node_delta = v;
            },
            None => {},
        }
    }

    /// The pending delta of one node: the schedule projection (+1 per
    /// incoming, −1 per outgoing replica across all groups) plus the job
    /// projection, wrapping on overflow.
    pub fn get_node_delta(&self, node: u64) -> (r: NodeDelta)
        ensures
            r.replica_count == i64_specs::wrapping_add(
                spec_sched_delta(self.sched_stats.raw_group_delta@, node, 0),
                spec_job_delta(self.job_stats.node_delta@, node),
            ),
    {
        let ghost m = self.sched_stats.raw_group_delta@;
        let mut acc: i64 = 0;
        let gn = self.sched_stats.raw_group_delta.len();
        let mut g: usize = 0;
        while g < gn
            invariant
                g <= gn,
                gn == m.len(),
                m == self.sched_stats.raw_group_delta@,
                acc == spec_sched_delta(m.take(g as int), node, 0),
            decreases gn - g,
        {
            let entry = &self.sched_stats.raw_group_delta[g];
            let inc_n = entry.1.incoming.len();
            let mut j: usize = 0;
            while j < inc_n
                invariant
                    j <= inc_n,
                    inc_n == entry.1.incoming@.len(),
                    acc == spec_acc_incoming(
                        entry.1.incoming@.take(j as int),
                        node,
                        spec_sched_delta(m.take(g as int), node, 0),
                    ),
                decreases inc_n - j,
            {
                if entry.1.incoming[j].node_id == node {
                    acc = acc.wrapping_add(1);
                }
                j = j + 1;
                proof {
                    assert(entry.1.incoming@.take(j as int).drop_last() =~= entry.1.incoming@.take(
                        j - 1,
                    ));
                    assert(entry.1.incoming@.take(j as int).last() == entry.1.incoming@[j - 1]);
                }
            }
            proof {
                assert(entry.1.incoming@.take(inc_n as int) =~= entry.1.incoming@);
            }
            let out_n = entry.1.outgoing.len();
            let mut j: usize = 0;
            while j < out_n
                invariant
                    j <= out_n,
                    out_n == entry.1.outgoing@.len(),
                    acc == spec_acc_outgoing(
                        entry.1.outgoing@.take(j as int),
                        node,
                        spec_acc_incoming(
                            entry.1.incoming@,
                            node,
                            spec_sched_delta(m.take(g as int), node, 0),
                        ),
                    ),
                decreases out_n - j,
            {
                if entry.1.outgoing[j].node_id == node {
                    acc = acc.wrapping_sub(1);
                }
                j = j + 1;
                proof {
                    assert(entry.1.outgoing@.take(j as int).drop_last() =~= entry.1.outgoing@.take(
                        j - 1,
                    ));
                    assert(entry.1.outgoing@.take(j as int).last() == entry.1.outgoing@[j - 1]);
                }
            }
            g = g + 1;
            proof {
                assert(entry.1.outgoing@.take(out_n as int) =~= entry.1.outgoing@);
                assert(m.take(g as int).drop_last() =~= m.take(g - 1));
                assert(m.take(g as int).last() == m[g - 1]);
            }
        }
        proof {
            assert(m.take(gn as int) =~= m);
        }
        let job_part = match find_key(&self.job_stats.node_delta, node) {
            Some(i) => {
                proof {
                    lemma_lookup_at(self.job_stats.node_delta@, node, i as int);
                }
                self.job_stats.node_delta[i].1.replica_count
            },
            None => {
                proof {
                    lemma_lookup_absent(self.job_stats.node_delta@, node);
                }
                0
            },
        };
        NodeDelta { replica_count: acc.wrapping_add(job_part) }
    }

    /// Clears both projections, as leadership changes do.
    pub fn reset(&mut self)
        ensures
            final(self).wf(),
            final(self).sched_stats.raw_group_delta@.len() == 0,
            final(self).job_stats.node_delta@.len() == 0,
    {
        self.sched_stats.raw_group_delta = Vec::new();
        self.job_stats.node_delta = Vec::new();
    }
}

} // verus!
