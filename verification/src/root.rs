//! The root coordination plane.
//!
//! One elected replica of the root group owns the cluster metadata at a
//! time: it allocates transaction ids, drives node lifecycle, merges node
//! reports by epoch and term, submits background jobs and emits
//! reconcile tasks. The model keeps the leader's state — schema plus
//! allocator — in `core`; leadership changes install and clear it.
//! Everything asynchronous around it (the lease loop, timers, the watcher
//! fan-out, RPC) lives outside the crate: emitted tasks and watch events
//! are queued as plain values for the surrounding runtime to deliver.

use vstd::prelude::*;

use crate::error::Error;
use crate::heartbeat::{HeartbeatQueue, HeartbeatTask};
use crate::jobs::{
    CreateCollectionJob, CreateCollectionJobStatus, Job, JobState, PurgeCollectionJob,
    PurgeDatabaseJob, job_state_of, spec_job_state,
};
use crate::meta::{
    CollectionDesc, DatabaseDesc, GroupDesc, NodeCapacity, NodeDesc, NodeIdent, NodeStatus,
    RaftRole, RangePartition, ReplicaDesc, ReplicaRole, ReplicaState, RootDesc, ShardDesc,
    FIRST_USER_COLLECTION_ID, SYSTEM_DATABASE_ID,
};
use crate::schema::{clone_node, Schema};
use crate::stats::OngoingStats;
use crate::txn_alloc::{AllocDecision, RootCore, TXN_ID_RESERVATION};

verus! {

/// A placement task emitted for the reconcile loop.
#[derive(Debug, Clone, Copy, PartialEq, Eq, Structural)]
pub enum ReconcileTask {
    AddReplica { group_id: u64, node_id: u64 },
    RemoveReplica { group_id: u64, replica_id: u64 },
    TransferLeader { group_id: u64, node_id: u64 },
    ShedLeader { node_id: u64 },
    ShedRoot { node_id: u64 },
    SplitShard { shard_id: u64 },
    MoveShard { shard_id: u64, src_node: u64, dest_node: u64 },
    PromoteLearner { group_id: u64, replica_id: u64 },
}

/// A change queued for the watcher hub to fan out.
#[derive(Debug, Clone, PartialEq, Eq)]
#[verifier::ext_equal]
pub enum WatchEvent {
    UpdateDatabase(DatabaseDesc),
    DeleteDatabase(u64),
    UpdateCollection(CollectionDesc),
    DeleteCollection(u64),
    UpdateNode(NodeDesc),
    UpdateGroup(GroupDesc),
    UpdateGroupState(ReplicaState),
}

/// What the current root leader owns: the schema and the id allocator.
#[derive(Debug, Clone, PartialEq, Eq)]
#[verifier::ext_equal]
pub struct RootCoreState {
    pub schema: Schema,
    pub alloc: RootCore,
}

/// The root service of one node.
#[derive(Debug, Clone, PartialEq, Eq)]
#[verifier::ext_equal]
pub struct Root {
    pub node_ident: NodeIdent,
    pub local_addr: String,
    pub cfg_cpu_nums: u64,
    pub core: Option<RootCoreState>,
    pub heartbeat_queue: HeartbeatQueue,
    pub ongoing_stats: OngoingStats,
    pub pending_tasks: Vec<ReconcileTask>,
    pub pending_events: Vec<WatchEvent>,
}

impl Root {
    /// The leader's state, where there is one.
    pub open spec fn spec_core(self) -> RootCoreState
        recommends
            self.core is Some,
    {
        self.core.unwrap()
    }

    /// Whether this node currently holds root leadership.
    pub open spec fn spec_is_root(self) -> bool {
        self.core is Some
    }

    /// Leader state (when held), queue and stats are well-formed.
    pub open spec fn wf(self) -> bool {
        &&& (self.core matches Some(c) ==> (c.schema.wf() && c.alloc.next_txn_id
            <= c.alloc.max_txn_id))
        &&& self.heartbeat_queue.wf()
        &&& self.ongoing_stats.wf()
    }

    /// A follower root service: no leader state, empty queues.
    pub fn new(node_ident: NodeIdent, local_addr: String, cfg_cpu_nums: u64) -> (r: Root)
        ensures
            r.wf(),
            !r.spec_is_root(),
            r.node_ident == node_ident,
            r.local_addr@ == local_addr@,
            r.cfg_cpu_nums == cfg_cpu_nums,
            r.pending_tasks@.len() == 0,
            r.pending_events@.len() == 0,
    {
        Root {
            node_ident,
            local_addr,
            cfg_cpu_nums,
            core: None,
            heartbeat_queue: HeartbeatQueue::new(),
            ongoing_stats: OngoingStats::new(),
            pending_tasks: Vec::new(),
            pending_events: Vec::new(),
        }
    }

    /// Whether this node currently holds root leadership.
    pub fn is_root(&self) -> (r: bool)
        ensures
            r == self.spec_is_root(),
    {
        self.core.is_some()
    }

    /// This node's id.
    pub fn current_node_id(&self) -> (r: u64)
        ensures
            r == self.node_ident.node_id,
    {
        self.node_ident.node_id
    }

    /// The leader's schema; `NotRootLeader` on a follower.
    pub fn schema(&self) -> (r: Result<&Schema, Error>)
        ensures
            self.spec_is_root() ==> (r matches Ok(s) && *s == self.spec_core().schema),
            !self.spec_is_root() ==> (r matches Err(err) && crate::error::spec_not_root_leader(err)),
    {
        match &self.core {
            Some(c) => Ok(&c.schema),
            None => Err(
                Error::NotRootLeader(RootDesc { epoch: 0, root_nodes: Vec::new() }, 0, None),
            ),
        }
    }

    /// Becoming leader: install the schema, seed the allocator from the
    /// persisted marker, bump the reservation once, clear the stats,
    /// enable the heartbeat queue and schedule a full round of heartbeats
    /// right away.
    pub fn step_leader(&mut self, schema: Schema, now_nanos: u64)
        requires
            old(self).wf(),
            schema.wf(),
            schema.max_txn_id <= u64::MAX - TXN_ID_RESERVATION,
            now_nanos <= u64::MAX - TXN_ID_RESERVATION,
        ensures
            final(self).wf(),
            final(self).spec_is_root(),
            ({
                let c = final(self).spec_core();
                &&& c.alloc.next_txn_id == schema.max_txn_id
                &&& c.alloc.max_txn_id == c.schema.max_txn_id
                &&& c.alloc.max_txn_id > schema.max_txn_id
                &&& c.alloc.max_txn_id >= now_nanos
                &&& crate::schema::spec_same_but_counters(schema, c.schema)
            }),
            final(self).heartbeat_queue.enabled,
            forall|n: u64|
                (exists|i: int|
                    0 <= i < schema.nodes@.len() && (#[trigger] schema.nodes@[i]).id == n)
                    ==> final(self).heartbeat_queue.spec_deadline(n) is Some,
            final(self).ongoing_stats.sched_stats.raw_group_delta@.len() == 0,
            final(self).ongoing_stats.job_stats.node_delta@.len() == 0,
            final(self).node_ident == old(self).node_ident,
            final(self).pending_tasks@ == old(self).pending_tasks@,
            final(self).pending_events@ == old(self).pending_events@,
    {
        let mut schema = schema;
        let mut alloc = RootCore::new(schema.max_txn_id());
        let persisted = alloc.bump_txn_id(now_nanos);
        schema.set_txn_id(persisted);
        self.ongoing_stats.reset();
        self.heartbeat_queue.enable(true);
        let nodes = schema.list_node();
        let mut tasks: Vec<HeartbeatTask> = Vec::new();
        let n = nodes.len();
        let mut i: usize = 0;
        while i < n
            invariant
                i <= n,
                n == nodes@.len(),
                tasks@.len() == i,
                forall|j: int|
                    0 <= j < i ==> (#[trigger] tasks@[j]).node_id == nodes@[j].id,
            decreases n - i,
        {
            tasks.push(HeartbeatTask { node_id: nodes[i].id });
            i = i + 1;
        }
        proof {
            assert forall|m: u64|
                (exists|i: int| 0 <= i < nodes@.len() && (#[trigger] nodes@[i]).id == m)
                    implies crate::heartbeat::spec_tasks_contain(tasks@, m) by {
                let wi = choose|i: int| 0 <= i < nodes@.len() && (#[trigger] nodes@[i]).id == m;
                assert(tasks@[wi].node_id == m);
            }
        }
        self.heartbeat_queue.try_schedule(tasks, now_nanos);
        self.core = Some(RootCoreState { schema, alloc });
    }

    /// Losing leadership: invalidate the allocator (pending allocators
    /// observe it and abort), disable the heartbeat queue, clear the
    /// stats and drop the leader state.
    pub fn drop_leader(&mut self)
        requires
            old(self).wf(),
        ensures
            final(self).wf(),
            !final(self).spec_is_root(),
            !final(self).heartbeat_queue.enabled,
            final(self).ongoing_stats.sched_stats.raw_group_delta@.len() == 0,
            final(self).ongoing_stats.job_stats.node_delta@.len() == 0,
            final(self).node_ident == old(self).node_ident,
    {
        match self.core.take() {
            Some(mut c) => {
                c.alloc.invalidate();
            },
            None => {},
        }
        self.heartbeat_queue.enable(false);
        self.ongoing_stats.reset();
    }

    /// Advances the transaction-id reservation, persisting the new
    /// maximum into the schema before publishing it to the allocator.
    pub fn bump_txn_id(&mut self, now_nanos: u64) -> (r: Result<(), Error>)
        requires
            old(self).wf(),
            now_nanos <= u64::MAX - TXN_ID_RESERVATION,
            old(self).spec_is_root() ==> old(self).spec_core().alloc.max_txn_id <= u64::MAX
                - TXN_ID_RESERVATION,
        ensures
            final(self).wf(),
            !old(self).spec_is_root() ==> (r matches Err(err) && crate::error::spec_not_root_leader(err) && *final(self) == *old(self)),
            old(self).spec_is_root() ==> (r is Ok && final(self).spec_is_root() && {
                let c0 = old(self).spec_core();
                let c = final(self).spec_core();
                &&& c.alloc.max_txn_id == (if c0.alloc.max_txn_id >= now_nanos {
                    c0.alloc.max_txn_id + TXN_ID_RESERVATION
                } else {
                    now_nanos + TXN_ID_RESERVATION
                })
                &&& c.alloc.max_txn_id > c0.alloc.max_txn_id
                &&& c.alloc.next_txn_id == c0.alloc.next_txn_id
                &&& c.schema.max_txn_id == c.alloc.max_txn_id
                &&& crate::schema::spec_same_but_counters(c0.schema, c.schema)
            }),
    {
        let mut c = match self.core.take() {
            Some(c) => c,
            None => {
                return Err(
                    Error::NotRootLeader(RootDesc { epoch: 0, root_nodes: Vec::new() }, 0, None),
                );
            },
        };
        let persisted = c.alloc.bump_txn_id(now_nanos);
        c.schema.set_txn_id(persisted);
        self.core = Some(c);
        Ok(())
    }

    /// One allocation attempt for `num_required` consecutive ids.
    ///
    /// `Ok(Some(id))` hands out `[id, id + num_required)`; `Ok(None)`
    /// means the reservation is exhausted and the caller should yield and
    /// retry after the next bump; `NotLeader` reports an invalidated
    /// allocator and `NotRootLeader` a follower.
    pub fn alloc_txn_id(&mut self, num_required: u64) -> (r: Result<Option<u64>, Error>)
        requires
            old(self).wf(),
        ensures
            final(self).wf(),
            !old(self).spec_is_root() ==> (r matches Err(err) && crate::error::spec_not_root_leader(err) && *final(self) == *old(self)),
            old(self).spec_is_root() ==> {
                let a0 = old(self).spec_core().alloc;
                &&& (a0.max_txn_id == 0 ==> (r matches Err(err) && crate::error::spec_not_leader_lost(err) && *final(self) == *old(self)))
                &&& (a0.max_txn_id != 0 && a0.next_txn_id + num_required > a0.max_txn_id ==> (
                r matches Ok(o) && o is None && *final(self) == *old(self)))
                &&& (a0.max_txn_id != 0 && a0.next_txn_id + num_required <= a0.max_txn_id ==> (
                r matches Ok(o) && o == Some(a0.next_txn_id) && final(self).spec_is_root()
                    && crate::txn_alloc::spec_alloc(
                    a0,
                    num_required,
                    final(self).spec_core().alloc,
                    a0.next_txn_id,
                ) && final(self).spec_core().schema == old(self).spec_core().schema))
            },
    {
        let mut c = match self.core.take() {
            Some(c) => c,
            None => {
                return Err(
                    Error::NotRootLeader(RootDesc { epoch: 0, root_nodes: Vec::new() }, 0, None),
                );
            },
        };
        let decision = c.alloc.alloc_txn_id(num_required);
        let r = match decision {
            AllocDecision::NotLeader => {
                self.core = Some(c);
                proof {
                    assert(*self =~= *old(self));
                }
                return Err(Error::NotLeader(0, 0, None));
            },
            AllocDecision::Exhausted => {
                self.core = Some(c);
                proof {
                    assert(*self =~= *old(self));
                }
                return Ok(None);
            },
            AllocDecision::Allocated(id) => {
                self.core = Some(c);
                Ok(Some(id))
            },
        };
        r
    }

    /// Cordon a node: only an `Active` node can be cordoned.
    pub fn cordon_node(&mut self, node_id: u64) -> (r: Result<(), Error>)
        requires
            old(self).wf(),
        ensures
            final(self).wf(),
            !old(self).spec_is_root() ==> (r matches Err(err) && crate::error::spec_not_root_leader(err) && *final(self) == *old(self)),
            old(self).spec_is_root() ==> {
                let nodes0 = old(self).spec_core().schema.nodes@;
                &&& ((forall|i: int|
                    0 <= i < nodes0.len() ==> (#[trigger] nodes0[i]).id != node_id) ==> (
                r matches Err(Error::InvalidArgument(_)) && *final(self) == *old(self)))
                &&& ((exists|i: int|
                    0 <= i < nodes0.len() && (#[trigger] nodes0[i]).id == node_id && nodes0[i].status
                        != NodeStatus::Active) ==> (r matches Err(Error::InvalidArgument(_))
                    && *final(self) == *old(self)))
                &&& ((exists|i: int|
                    0 <= i < nodes0.len() && (#[trigger] nodes0[i]).id == node_id && nodes0[i].status
                        == NodeStatus::Active) ==> (r is Ok && final(self).spec_is_root()
                    && exists|i: int|
                    0 <= i < nodes0.len() && (#[trigger] nodes0[i]).id == node_id && final(self).spec_core().schema.nodes@ == nodes0.update(
                        i,
                        (NodeDesc {
                            status: NodeStatus::Cordoned,
                            ..nodes0[i]
                        }),
                    ) && crate::schema::spec_same_but_nodes(
                        old(self).spec_core().schema,
                        final(self).spec_core().schema,
                    ) && final(self).spec_core().alloc == old(self).spec_core().alloc))
            },
    {
        let mut c = match self.core.take() {
            Some(c) => c,
            None => {
                return Err(
                    Error::NotRootLeader(RootDesc { epoch: 0, root_nodes: Vec::new() }, 0, None),
                );
            },
        };
        let node_desc = match c.schema.get_node(node_id) {
            Some(d) => d,
            None => {
                self.core = Some(c);
                proof {
                    assert(*self =~= *old(self));
                }
                return Err(Error::InvalidArgument("node not found".to_string()));
            },
        };
        if !matches!(node_desc.status, NodeStatus::Active) {
            self.core = Some(c);
            proof {
                assert(*self =~= *old(self));
            }
            return Err(Error::InvalidArgument("node already cordoned".to_string()));
        }
        let updated = NodeDesc {
            id: node_desc.id,
            addr: node_desc.addr,
            capacity: node_desc.capacity,
            status: NodeStatus::Cordoned,
        };
        let res = c.schema.update_node(updated);
        self.core = Some(c);
        proof {
            let nodes0 = old(self).spec_core().schema.nodes@;
            let wi = choose|i: int|
                0 <= i < nodes0.len() && (#[trigger] nodes0[i]).id == node_id;
            assert(res is Ok);
            assert(final(self).spec_core().schema.nodes@ == nodes0.update(wi, updated));
            assert(updated =~= (NodeDesc { status: NodeStatus::Cordoned, ..nodes0[wi] }));
        }
        Ok(())
    }
}

/// One group's portion of a node report.
#[derive(Debug, Clone, PartialEq, Eq)]
#[verifier::ext_equal]
pub struct GroupUpdates {
    pub group_id: u64,
    pub group_desc: Option<GroupDesc>,
    pub replica_state: Option<ReplicaState>,
    pub schedule_state: Option<crate::meta::ScheduleState>,
}

/// The group descriptor a report update installs: only one with a
/// strictly greater epoch than the stored one.
pub open spec fn spec_accepted_group(groups: Seq<GroupDesc>, u: GroupUpdates) -> Option<GroupDesc> {
    match u.group_desc {
        Some(g) => match crate::schema::spec_group_epoch_of(groups, u.group_id) {
            Some(e) => if e >= g.epoch {
                None
            } else {
                Some(g)
            },
            None => Some(g),
        },
        None => None,
    }
}

/// The replica state a report update installs: rejected when the stored
/// state has a greater term, or the same term and role.
pub open spec fn spec_accepted_state(
    states: Seq<ReplicaState>,
    u: GroupUpdates,
) -> Option<ReplicaState> {
    match u.replica_state {
        Some(rs) => match crate::schema::spec_state_of(states, u.group_id, rs.replica_id) {
            Some(pre) => if pre.term > rs.term || (pre.term == rs.term && pre.role == rs.role) {
                None
            } else {
                Some(rs)
            },
            None => Some(rs),
        },
        None => None,
    }
}

/// The groups, replica states and emitted events after merging the first
/// `i` report updates, in order.
pub open spec fn spec_report_merge(
    groups: Seq<GroupDesc>,
    states: Seq<ReplicaState>,
    updates: Seq<GroupUpdates>,
    i: int,
) -> (Seq<GroupDesc>, Seq<ReplicaState>, Seq<WatchEvent>)
    decreases i,
{
    if i <= 0 {
        (groups, states, Seq::<WatchEvent>::empty())
    } else {
        let prev = spec_report_merge(groups, states, updates, i - 1);
        let u = updates[i - 1];
        let (g2, ev1) = match spec_accepted_group(prev.0, u) {
            Some(g) => (
                crate::schema::spec_upsert_group(prev.0, g),
                prev.2.push(WatchEvent::UpdateGroup(g)),
            ),
            None => (prev.0, prev.2),
        };
        match spec_accepted_state(prev.1, u) {
            Some(rs) => (
                g2,
                crate::schema::spec_upsert_state(prev.1, rs),
                ev1.push(WatchEvent::UpdateGroupState(rs)),
            ),
            None => (g2, prev.1, ev1),
        }
    }
}

/// The schedule states carried by the first `i` report updates.
pub open spec fn spec_sched_states_of(updates: Seq<GroupUpdates>, i: int) -> Seq<
    crate::meta::ScheduleState,
>
    decreases i,
{
    if i <= 0 {
        Seq::<crate::meta::ScheduleState>::empty()
    } else {
        match updates[i - 1].schedule_state {
            Some(ss) => spec_sched_states_of(updates, i - 1).push(ss),
            None => spec_sched_states_of(updates, i - 1),
        }
    }
}

/// The collections belonging to one database, in stored order.
pub open spec fn spec_colls_of_db(colls: Seq<CollectionDesc>, db: u64) -> Seq<CollectionDesc>
    decreases colls.len(),
{
    if colls.len() == 0 {
        colls
    } else {
        let rest = spec_colls_of_db(colls.drop_last(), db);
        if colls.last().db == db {
            rest.push(colls.last())
        } else {
            rest
        }
    }
}

/// Queues the durable creation job of a fresh collection: one shard
/// covering the whole key space, in the `Creating` state.
pub fn do_create_collection(schema: &mut Schema, collection: CollectionDesc)
    requires
        old(schema).wf(),
        old(schema).next_shard_id < u64::MAX,
        old(schema).next_job_id < u64::MAX,
    ensures
        final(schema).wf(),
        final(schema).databases@ == old(schema).databases@,
        final(schema).collections@ == old(schema).collections@,
        final(schema).nodes@ == old(schema).nodes@,
        final(schema).groups@ == old(schema).groups@,
        final(schema).replica_states@ == old(schema).replica_states@,
        final(schema).history_jobs@ == old(schema).history_jobs@,
        final(schema).root_desc == old(schema).root_desc,
        final(schema).max_txn_id == old(schema).max_txn_id,
        final(schema).next_database_id == old(schema).next_database_id,
        final(schema).next_collection_id == old(schema).next_collection_id,
        final(schema).next_replica_id == old(schema).next_replica_id,
        final(schema).next_node_id == old(schema).next_node_id,
        final(schema).next_shard_id == old(schema).next_shard_id + 1,
        final(schema).next_job_id == old(schema).next_job_id + 1,
        final(schema).jobs@.len() == old(schema).jobs@.len() + 1,
        final(schema).jobs@.subrange(0, old(schema).jobs@.len() as int) == old(schema).jobs@,
        (final(schema).jobs@.last().job matches Some(Job::CreateCollection(cj)) && cj.database
            == collection.db && cj.collection_name@ == collection.name@ && cj.status
            == CreateCollectionJobStatus::Creating && cj.wait_create@.len() == 1
            && cj.wait_create@[0].id == old(schema).next_shard_id
            && cj.wait_create@[0].collection_id == collection.id
            && (cj.wait_create@[0].range matches Some(rp) && rp.start@.len() == 0
                && rp.end@.len() == 0) && cj.wait_cleanup@.len() == 0
            && cj.desc == Some(collection)),
{
    let range = RangePartition { start: Vec::new(), end: Vec::new() };
    let shard_id = schema.next_shard_id();
    let shard = ShardDesc { id: shard_id, collection_id: collection.id, range: Some(range) };
    let mut wait_create: Vec<ShardDesc> = Vec::new();
    wait_create.push(shard);
    let job = Job::CreateCollection(
        CreateCollectionJob {
            database: collection.db,
            collection_name: collection.name.clone(),
            wait_create,
            wait_cleanup: Vec::new(),
            status: CreateCollectionJobStatus::Creating,
            desc: Some(collection),
        },
    );
    let _ = schema.submit_job(job);
    proof {
        assert(final(schema).jobs@.subrange(0, old(schema).jobs@.len() as int) =~= old(
            schema,
        ).jobs@);
    }
}

impl Root {
    /// Uncordon a node: restores `Active` from `Cordoned`, `Drained` or
    /// `Decommissioned`.
    pub fn uncordon_node(&mut self, node_id: u64) -> (r: Result<(), Error>)
        requires
            old(self).wf(),
        ensures
            final(self).wf(),
            !old(self).spec_is_root() ==> (r matches Err(err) && crate::error::spec_not_root_leader(err) && *final(self) == *old(self)),
            old(self).spec_is_root() ==> {
                let nodes0 = old(self).spec_core().schema.nodes@;
                &&& ((forall|i: int|
                    0 <= i < nodes0.len() ==> (#[trigger] nodes0[i]).id != node_id) ==> (
                r matches Err(Error::InvalidArgument(_)) && *final(self) == *old(self)))
                &&& ((exists|i: int|
                    0 <= i < nodes0.len() && (#[trigger] nodes0[i]).id == node_id && !(
                    nodes0[i].status == NodeStatus::Cordoned || nodes0[i].status
                        == NodeStatus::Drained || nodes0[i].status == NodeStatus::Decommissioned))
                    ==> (r matches Err(Error::InvalidArgument(_)) && *final(self) == *old(self)))
                &&& ((exists|i: int|
                    0 <= i < nodes0.len() && (#[trigger] nodes0[i]).id == node_id && (
                    nodes0[i].status == NodeStatus::Cordoned || nodes0[i].status
                        == NodeStatus::Drained || nodes0[i].status == NodeStatus::Decommissioned))
                    ==> (r is Ok && final(self).spec_is_root() && exists|i: int|
                    0 <= i < nodes0.len() && (#[trigger] nodes0[i]).id == node_id && final(self).spec_core().schema.nodes@ == nodes0.update(
                        i,
                        (NodeDesc { status: NodeStatus::Active, ..nodes0[i] }),
                    ) && crate::schema::spec_same_but_nodes(
                        old(self).spec_core().schema,
                        final(self).spec_core().schema,
                    )))
            },
    {
        let mut c = match self.core.take() {
            Some(c) => c,
            None => {
                return Err(
                    Error::NotRootLeader(RootDesc { epoch: 0, root_nodes: Vec::new() }, 0, None),
                );
            },
        };
        let node_desc = match c.schema.get_node(node_id) {
            Some(d) => d,
            None => {
                self.core = Some(c);
                proof {
                    assert(*self =~= *old(self));
                }
                return Err(Error::InvalidArgument("node not found".to_string()));
            },
        };
        if !(matches!(node_desc.status, NodeStatus::Cordoned) || matches!(
            node_desc.status,
            NodeStatus::Drained,
        ) || matches!(node_desc.status, NodeStatus::Decommissioned)) {
            self.core = Some(c);
            proof {
                assert(*self =~= *old(self));
            }
            return Err(Error::InvalidArgument("node status unsupport uncordon".to_string()));
        }
        let updated = NodeDesc {
            id: node_desc.id,
            addr: node_desc.addr,
            capacity: node_desc.capacity,
            status: NodeStatus::Active,
        };
        let res = c.schema.update_node(updated);
        self.core = Some(c);
        proof {
            let nodes0 = old(self).spec_core().schema.nodes@;
            let wi = choose|i: int| 0 <= i < nodes0.len() && (#[trigger] nodes0[i]).id == node_id;
            assert(res is Ok);
            assert(final(self).spec_core().schema.nodes@ == nodes0.update(wi, updated));
            assert(updated =~= (NodeDesc { status: NodeStatus::Active, ..nodes0[wi] }));
        }
        Ok(())
    }

    /// Begin draining a node: only from `Cordoned`. Draining the root
    /// leader itself is refused; a `ShedRoot` task is queued first so the
    /// operator can retry once leadership has moved. On success the node
    /// turns `Draining` and a `ShedLeader` task is queued.
    pub fn begin_drain(&mut self, node_id: u64) -> (r: Result<(), Error>)
        requires
            old(self).wf(),
        ensures
            final(self).wf(),
            !old(self).spec_is_root() ==> (r matches Err(err) && crate::error::spec_not_root_leader(err) && *final(self) == *old(self)),
            old(self).spec_is_root() && node_id == old(self).node_ident.node_id ==> (r matches Err(
                Error::InvalidArgument(_),
            ) && final(self).pending_tasks@ == old(self).pending_tasks@.push(
                ReconcileTask::ShedRoot { node_id },
            ) && final(self).core == old(self).core),
            old(self).spec_is_root() && node_id != old(self).node_ident.node_id ==> {
                let nodes0 = old(self).spec_core().schema.nodes@;
                &&& ((forall|i: int|
                    0 <= i < nodes0.len() ==> (#[trigger] nodes0[i]).id != node_id) ==> (
                r matches Err(Error::InvalidArgument(_)) && *final(self) == *old(self)))
                &&& ((exists|i: int|
                    0 <= i < nodes0.len() && (#[trigger] nodes0[i]).id == node_id && nodes0[i].status
                        != NodeStatus::Cordoned) ==> (r matches Err(Error::InvalidArgument(_))
                    && *final(self) == *old(self)))
                &&& ((exists|i: int|
                    0 <= i < nodes0.len() && (#[trigger] nodes0[i]).id == node_id && nodes0[i].status
                        == NodeStatus::Cordoned) ==> (r is Ok && final(self).spec_is_root()
                    && final(self).pending_tasks@ == old(self).pending_tasks@.push(
                    ReconcileTask::ShedLeader { node_id },
                ) && exists|i: int|
                    0 <= i < nodes0.len() && (#[trigger] nodes0[i]).id == node_id && final(self).spec_core().schema.nodes@ == nodes0.update(
                        i,
                        (NodeDesc { status: NodeStatus::Draining, ..nodes0[i] }),
                    ) && crate::schema::spec_same_but_nodes(
                        old(self).spec_core().schema,
                        final(self).spec_core().schema,
                    )))
            },
    {
        let mut c = match self.core.take() {
            Some(c) => c,
            None => {
                return Err(
                    Error::NotRootLeader(RootDesc { epoch: 0, root_nodes: Vec::new() }, 0, None),
                );
            },
        };
        if self.node_ident.node_id == node_id {
            self.pending_tasks.push(ReconcileTask::ShedRoot { node_id });
            self.core = Some(c);
            return Err(
                Error::InvalidArgument("node is root leader, try again later".to_string()),
            );
        }
        let node_desc = match c.schema.get_node(node_id) {
            Some(d) => d,
            None => {
                self.core = Some(c);
                proof {
                    assert(*self =~= *old(self));
                }
                return Err(Error::InvalidArgument("node not found".to_string()));
            },
        };
        if !matches!(node_desc.status, NodeStatus::Cordoned) {
            self.core = Some(c);
            proof {
                assert(*self =~= *old(self));
            }
            return Err(
                Error::InvalidArgument("only in cordoned status node can be drain".to_string()),
            );
        }
        let updated = NodeDesc {
            id: node_desc.id,
            addr: node_desc.addr,
            capacity: node_desc.capacity,
            status: NodeStatus::Draining,
        };
        let res = c.schema.update_node(updated);
        self.core = Some(c);
        self.pending_tasks.push(ReconcileTask::ShedLeader { node_id });
        proof {
            let nodes0 = old(self).spec_core().schema.nodes@;
            let wi = choose|i: int| 0 <= i < nodes0.len() && (#[trigger] nodes0[i]).id == node_id;
            assert(res is Ok);
            assert(final(self).spec_core().schema.nodes@ == nodes0.update(wi, updated));
            assert(updated =~= (NodeDesc { status: NodeStatus::Draining, ..nodes0[wi] }));
        }
        Ok(())
    }

    /// The lifecycle status of a node.
    pub fn node_status(&self, node_id: u64) -> (r: Result<NodeStatus, Error>)
        ensures
            !self.spec_is_root() ==> (r matches Err(err) && crate::error::spec_not_root_leader(err)),
            self.spec_is_root() ==> {
                let nodes0 = self.spec_core().schema.nodes@;
                &&& ((forall|i: int|
                    0 <= i < nodes0.len() ==> (#[trigger] nodes0[i]).id != node_id) ==> r matches Err(
                    Error::InvalidArgument(_),
                ))
                &&& ((exists|i: int|
                    0 <= i < nodes0.len() && (#[trigger] nodes0[i]).id == node_id) ==> (
                r matches Ok(st) && exists|i: int|
                    0 <= i < nodes0.len() && (#[trigger] nodes0[i]).id == node_id && nodes0[i].status
                        == st))
            },
    {
        let c = match &self.core {
            Some(c) => c,
            None => {
                return Err(
                    Error::NotRootLeader(RootDesc { epoch: 0, root_nodes: Vec::new() }, 0, None),
                );
            },
        };
        match c.schema.get_node(node_id) {
            Some(d) => Ok(d.status),
            None => Err(Error::InvalidArgument("node not found".to_string())),
        }
    }

    /// How many nodes the cluster has, while this node leads.
    pub fn nodes(&self) -> (r: Option<u64>)
        ensures
            !self.spec_is_root() ==> r is None,
            self.spec_is_root() ==> r == Some(self.spec_core().schema.nodes@.len() as u64),
    {
        match &self.core {
            Some(c) => Some(c.schema.nodes.len() as u64),
            None => None,
        }
    }

    /// Summaries of the ongoing and finished background jobs, in order:
    /// ongoing first, then history.
    pub fn job_state(&self) -> (r: Result<Vec<JobState>, Error>)
        ensures
            !self.spec_is_root() ==> (r matches Err(err) && crate::error::spec_not_root_leader(err)),
            self.spec_is_root() ==> (r matches Ok(out) && {
                let jobs = self.spec_core().schema.jobs@;
                let history = self.spec_core().schema.history_jobs@;
                &&& out@.len() == jobs.len() + history.len()
                &&& (forall|i: int|
                    0 <= i < jobs.len() ==> out@[i] == spec_job_state(#[trigger] jobs[i]))
                &&& (forall|i: int|
                    0 <= i < history.len() ==> out@[jobs.len() + i] == spec_job_state(
                        #[trigger] history[i],
                    ))
            }),
    {
        let c = match &self.core {
            Some(c) => c,
            None => {
                return Err(
                    Error::NotRootLeader(RootDesc { epoch: 0, root_nodes: Vec::new() }, 0, None),
                );
            },
        };
        let mut out: Vec<JobState> = Vec::new();
        let jn = c.schema.jobs.len();
        let mut i: usize = 0;
        while i < jn
            invariant
                i <= jn,
                jn == c.schema.jobs@.len(),
                out@.len() == i,
                forall|j: int|
                    0 <= j < i ==> out@[j] == spec_job_state(#[trigger] c.schema.jobs@[j]),
            decreases jn - i,
        {
            out.push(job_state_of(&c.schema.jobs[i]));
            i = i + 1;
        }
        let hn = c.schema.history_jobs.len();
        let mut i: usize = 0;
        while i < hn
            invariant
                i <= hn,
                jn == c.schema.jobs@.len(),
                hn == c.schema.history_jobs@.len(),
                out@.len() == jn + i,
                forall|j: int|
                    0 <= j < jn ==> out@[j] == spec_job_state(#[trigger] c.schema.jobs@[j]),
                forall|j: int|
                    0 <= j < i ==> out@[jn + j] == spec_job_state(
                        #[trigger] c.schema.history_jobs@[j],
                    ),
            decreases hn - i,
        {
            out.push(job_state_of(&c.schema.history_jobs[i]));
            i = i + 1;
        }
        Ok(out)
    }

    /// Creates a database and queues the update event for watchers.
    pub fn create_database(&mut self, name: String) -> (r: Result<DatabaseDesc, Error>)
        requires
            old(self).wf(),
            old(self).spec_is_root() ==> old(self).spec_core().schema.next_database_id < u64::MAX,
        ensures
            final(self).wf(),
            !old(self).spec_is_root() ==> (r matches Err(err) && crate::error::spec_not_root_leader(err) && *final(self) == *old(self)),
            old(self).spec_is_root() ==> {
                let s0 = old(self).spec_core().schema;
                &&& ((exists|i: int|
                    0 <= i < s0.databases@.len() && (#[trigger] s0.databases@[i]).name@ == name@)
                    ==> (r matches Err(Error::AlreadyExists(_)) && *final(self) == *old(self)))
                &&& ((forall|i: int|
                    0 <= i < s0.databases@.len() ==> (#[trigger] s0.databases@[i]).name@ != name@)
                    ==> (r matches Ok(d) && d.id == s0.next_database_id && d.name@ == name@
                    && final(self).spec_is_root() && final(self).spec_core().schema.databases@
                    == s0.databases@.push(d) && crate::schema::spec_same_but_databases(
                    s0,
                    final(self).spec_core().schema,
                ) && final(self).pending_events@ == old(self).pending_events@.push(
                    WatchEvent::UpdateDatabase(d),
                )))
            },
    {
        let mut c = match self.core.take() {
            Some(c) => c,
            None => {
                return Err(
                    Error::NotRootLeader(RootDesc { epoch: 0, root_nodes: Vec::new() }, 0, None),
                );
            },
        };
        match c.schema.create_database(name) {
            Ok(desc) => {
                let out = crate::schema::clone_database(&desc);
                self.pending_events.push(WatchEvent::UpdateDatabase(desc));
                self.core = Some(c);
                Ok(out)
            },
            Err(err) => {
                self.core = Some(c);
                proof {
                    assert(*self =~= *old(self));
                }
                Err(err)
            },
        }
    }

    /// Deletes a database: the system database is refused, a purge job is
    /// queued, the record removed and the delete event queued.
    pub fn delete_database(&mut self, name: &String) -> (r: Result<(), Error>)
        requires
            old(self).wf(),
            old(self).spec_is_root() ==> old(self).spec_core().schema.next_job_id < u64::MAX,
        ensures
            final(self).wf(),
            !old(self).spec_is_root() ==> (r matches Err(err) && crate::error::spec_not_root_leader(err) && *final(self) == *old(self)),
            old(self).spec_is_root() ==> {
                let s0 = old(self).spec_core().schema;
                &&& ((forall|i: int|
                    0 <= i < s0.databases@.len() ==> (#[trigger] s0.databases@[i]).name@ != name@)
                    ==> (r matches Err(Error::DatabaseNotFound(_)) && *final(self) == *old(self)))
                &&& ((exists|i: int|
                    0 <= i < s0.databases@.len() && (#[trigger] s0.databases@[i]).name@ == name@
                        && s0.databases@[i].id == SYSTEM_DATABASE_ID) ==> (r matches Err(
                    Error::InvalidArgument(_),
                ) && *final(self) == *old(self)))
                &&& ((exists|i: int|
                    0 <= i < s0.databases@.len() && (#[trigger] s0.databases@[i]).name@ == name@
                        && s0.databases@[i].id != SYSTEM_DATABASE_ID) ==> (r is Ok && final(self).spec_is_root() && exists|i: int|
                    0 <= i < s0.databases@.len() && (#[trigger] s0.databases@[i]).name@ == name@
                        && {
                        let db = s0.databases@[i];
                        &&& final(self).spec_core().schema.databases@ == s0.databases@.remove(i)
                        &&& final(self).spec_core().schema.jobs@.len() == s0.jobs@.len() + 1
                        &&& (final(self).spec_core().schema.jobs@.last().job matches Some(
                            Job::PurgeDatabase(p),
                        ) && p.database_id == db.id && p.database_name@ == db.name@)
                        &&& final(self).pending_events@ == old(self).pending_events@.push(
                            WatchEvent::DeleteDatabase(db.id),
                        )
                    }))
            },
    {
        let mut c = match self.core.take() {
            Some(c) => c,
            None => {
                return Err(
                    Error::NotRootLeader(RootDesc { epoch: 0, root_nodes: Vec::new() }, 0, None),
                );
            },
        };
        let db = match c.schema.get_database(name) {
            Some(db) => db,
            None => {
                self.core = Some(c);
                proof {
                    assert(*self =~= *old(self));
                }
                return Err(Error::DatabaseNotFound(name.clone()));
            },
        };
        if db.id == SYSTEM_DATABASE_ID {
            self.core = Some(c);
            proof {
                assert(*self =~= *old(self));
            }
            return Err(Error::InvalidArgument("not support delete system database".to_string()));
        }
        let job = Job::PurgeDatabase(
            PurgeDatabaseJob { database_id: db.id, database_name: db.name.clone() },
        );
        let _ = c.schema.submit_job(job);
        let _ = c.schema.delete_database(&db);
        self.pending_events.push(WatchEvent::DeleteDatabase(db.id));
        self.core = Some(c);
        Ok(())
    }

    /// Looks a database up by name.
    pub fn get_database(&self, name: &String) -> (r: Result<Option<DatabaseDesc>, Error>)
        ensures
            !self.spec_is_root() ==> (r matches Err(err) && crate::error::spec_not_root_leader(err)),
            self.spec_is_root() ==> (r matches Ok(o) && {
                let s0 = self.spec_core().schema;
                &&& (o matches Some(d) ==> (exists|i: int|
                    0 <= i < s0.databases@.len() && (#[trigger] s0.databases@[i]) == d) && d.name@
                    == name@)
                &&& (o is None ==> (forall|i: int|
                    0 <= i < s0.databases@.len() ==> (#[trigger] s0.databases@[i]).name@ != name@))
            }),
    {
        match &self.core {
            Some(c) => {
                let o = c.schema.get_database(name);
                proof {
                    assert(self.spec_core().schema == c.schema);
                }
                Ok(o)
            },
            None => Err(
                Error::NotRootLeader(RootDesc { epoch: 0, root_nodes: Vec::new() }, 0, None),
            ),
        }
    }

    /// Creates a collection in the named database: the record is
    /// registered, a creation job with the collection's first shard
    /// (covering the whole key space) is queued, and the update event is
    /// queued for watchers.
    pub fn create_collection(&mut self, name: String, database: String) -> (r: Result<
        CollectionDesc,
        Error,
    >)
        requires
            old(self).wf(),
            old(self).spec_is_root() ==> {
                let s0 = old(self).spec_core().schema;
                s0.next_collection_id < u64::MAX && s0.next_shard_id < u64::MAX && s0.next_job_id
                    < u64::MAX
            },
        ensures
            final(self).wf(),
            !old(self).spec_is_root() ==> (r matches Err(err) && crate::error::spec_not_root_leader(err) && *final(self) == *old(self)),
            old(self).spec_is_root() ==> {
                let s0 = old(self).spec_core().schema;
                &&& ((forall|i: int|
                    0 <= i < s0.databases@.len() ==> (#[trigger] s0.databases@[i]).name@
                        != database@) ==> (r matches Err(Error::DatabaseNotFound(_)) && *final(self)
                    == *old(self)))
                &&& ((exists|i: int, j: int|
                    0 <= i < s0.databases@.len() && (#[trigger] s0.databases@[i]).name@ == database@
                        && 0 <= j < s0.collections@.len() && (#[trigger] s0.collections@[j]).db
                        == s0.databases@[i].id && s0.collections@[j].name@ == name@) ==> (
                r matches Err(Error::AlreadyExists(_)) && *final(self) == *old(self)))
                &&& ((exists|i: int|
                    0 <= i < s0.databases@.len() && (#[trigger] s0.databases@[i]).name@ == database@
                        && (forall|j: int|
                        0 <= j < s0.collections@.len() ==> !((#[trigger] s0.collections@[j]).db
                            == s0.databases@[i].id && s0.collections@[j].name@ == name@))) ==> (
                r matches Ok(coll) && final(self).spec_is_root() && coll.id
                    == s0.next_collection_id && coll.name@ == name@ && {
                    let s1 = final(self).spec_core().schema;
                    &&& s1.collections@ == s0.collections@.push(coll)
                    &&& s1.jobs@.len() == s0.jobs@.len() + 1
                    &&& (s1.jobs@.last().job matches Some(Job::CreateCollection(cj))
                        && cj.database == coll.db && cj.collection_name@ == name@
                        && cj.status == CreateCollectionJobStatus::Creating
                        && cj.wait_create@.len() == 1 && cj.wait_create@[0].id == s0.next_shard_id
                        && cj.wait_create@[0].collection_id == coll.id
                        && (cj.wait_create@[0].range matches Some(rp) && rp.start@.len() == 0
                            && rp.end@.len() == 0))
                    &&& final(self).pending_events@ == old(self).pending_events@.push(
                        WatchEvent::UpdateCollection(coll),
                    )
                }))
            },
    {
        let mut c = match self.core.take() {
            Some(c) => c,
            None => {
                return Err(
                    Error::NotRootLeader(RootDesc { epoch: 0, root_nodes: Vec::new() }, 0, None),
                );
            },
        };
        let db = match c.schema.get_database(&database) {
            Some(db) => db,
            None => {
                self.core = Some(c);
                proof {
                    assert(*self =~= *old(self));
                }
                return Err(Error::DatabaseNotFound(database));
            },
        };
        let collection = match c.schema.prepare_create_collection(db.id, name) {
            Ok(coll) => coll,
            Err(err) => {
                self.core = Some(c);
                proof {
                    assert(*self =~= *old(self));
                }
                return Err(err);
            },
        };
        let out = crate::schema::clone_collection(&collection);
        do_create_collection(&mut c.schema, collection);
        let event_copy = crate::schema::clone_collection(&out);
        self.pending_events.push(WatchEvent::UpdateCollection(event_copy));
        self.core = Some(c);
        Ok(out)
    }

    /// Deletes a collection: system collections are refused, a purge job
    /// is queued, the record removed and the delete event queued. A
    /// missing collection is a no-op.
    pub fn delete_collection(&mut self, name: &String, database: &DatabaseDesc) -> (r: Result<
        (),
        Error,
    >)
        requires
            old(self).wf(),
            old(self).spec_is_root() ==> old(self).spec_core().schema.next_job_id < u64::MAX,
        ensures
            final(self).wf(),
            !old(self).spec_is_root() ==> (r matches Err(err) && crate::error::spec_not_root_leader(err) && *final(self) == *old(self)),
            old(self).spec_is_root() ==> {
                let s0 = old(self).spec_core().schema;
                &&& ((forall|i: int|
                    0 <= i < s0.databases@.len() ==> (#[trigger] s0.databases@[i]).name@
                        != database.name@) ==> (r matches Err(Error::DatabaseNotFound(_)) && *final(self) == *old(self)))
                &&& ((exists|i: int|
                    0 <= i < s0.databases@.len() && (#[trigger] s0.databases@[i]).name@
                        == database.name@ && (forall|j: int|
                        0 <= j < s0.collections@.len() ==> !((#[trigger] s0.collections@[j]).db
                            == s0.databases@[i].id && s0.collections@[j].name@ == name@))) ==> (
                r is Ok && *final(self) == *old(self)))
                &&& ((exists|i: int, j: int|
                    0 <= i < s0.databases@.len() && (#[trigger] s0.databases@[i]).name@
                        == database.name@ && 0 <= j < s0.collections@.len() && (
                    #[trigger] s0.collections@[j]).db == s0.databases@[i].id
                        && s0.collections@[j].name@ == name@ && s0.collections@[j].id
                        < FIRST_USER_COLLECTION_ID) ==> (r matches Err(Error::InvalidArgument(_))
                    && *final(self) == *old(self)))
                &&& ((exists|i: int, j: int|
                    0 <= i < s0.databases@.len() && (#[trigger] s0.databases@[i]).name@
                        == database.name@ && 0 <= j < s0.collections@.len() && (
                    #[trigger] s0.collections@[j]).db == s0.databases@[i].id
                        && s0.collections@[j].name@ == name@ && s0.collections@[j].id
                        >= FIRST_USER_COLLECTION_ID) ==> (r is Ok && final(self).spec_is_root()
                    && {
                    let s1 = final(self).spec_core().schema;
                    &&& s1.jobs@.len() == s0.jobs@.len() + 1
                    &&& (s1.jobs@.last().job matches Some(Job::PurgeCollection(pj))
                        && pj.collection_name@ == name@)
                    &&& s1.collections@.len() == s0.collections@.len() - 1
                    &&& final(self).pending_events@.len() == old(self).pending_events@.len() + 1
                }))
            },
    {
        let mut c = match self.core.take() {
            Some(c) => c,
            None => {
                return Err(
                    Error::NotRootLeader(RootDesc { epoch: 0, root_nodes: Vec::new() }, 0, None),
                );
            },
        };
        let db = match c.schema.get_database(&database.name) {
            Some(db) => db,
            None => {
                self.core = Some(c);
                proof {
                    assert(*self =~= *old(self));
                }
                return Err(Error::DatabaseNotFound(database.name.clone()));
            },
        };
        let collection = match c.schema.get_collection(db.id, name) {
            Some(coll) => coll,
            None => {
                self.core = Some(c);
                proof {
                    assert(*self =~= *old(self));
                }
                return Ok(());
            },
        };
        proof {
            let s0 = old(self).spec_core().schema;
            if exists|i: int|
                0 <= i < s0.databases@.len() && (#[trigger] s0.databases@[i]).name@
                    == database.name@ && (forall|j: int|
                    0 <= j < s0.collections@.len() ==> !((#[trigger] s0.collections@[j]).db
                        == s0.databases@[i].id && s0.collections@[j].name@ == name@)) {
                let wi = choose|i: int|
                    0 <= i < s0.databases@.len() && (#[trigger] s0.databases@[i]).name@
                        == database.name@ && (forall|j: int|
                        0 <= j < s0.collections@.len() ==> !((#[trigger] s0.collections@[j]).db
                            == s0.databases@[i].id && s0.collections@[j].name@ == name@));
                let di = choose|i: int|
                    0 <= i < s0.databases@.len() && (#[trigger] s0.databases@[i]) == db;
                assert(s0.databases@[wi].id == db.id);
                let cj = choose|j: int|
                    0 <= j < s0.collections@.len() && (#[trigger] s0.collections@[j]) == collection;
                assert(!(s0.collections@[cj].db == s0.databases@[wi].id
                    && s0.collections@[cj].name@ == name@));
                assert(false);
            }
        }
        if collection.id < FIRST_USER_COLLECTION_ID {
            self.core = Some(c);
            proof {
                assert(*self =~= *old(self));
            }
            return Err(
                Error::InvalidArgument("unsupported delete system collection".to_string()),
            );
        }
        let job = Job::PurgeCollection(
            PurgeCollectionJob {
                database_id: db.id,
                collection_id: collection.id,
                database_name: db.name,
                collection_name: collection.name.clone(),
            },
        );
        let _ = c.schema.submit_job(job);
        let collection_id = collection.id;
        let _ = c.schema.delete_collection(&collection);
        self.pending_events.push(WatchEvent::DeleteCollection(collection_id));
        self.core = Some(c);
        Ok(())
    }

    /// Looks a collection up by name within a database.
    pub fn get_collection(&self, name: &String, database: &DatabaseDesc) -> (r: Result<
        Option<CollectionDesc>,
        Error,
    >)
        ensures
            !self.spec_is_root() ==> (r matches Err(err) && crate::error::spec_not_root_leader(err)),
            self.spec_is_root() ==> {
                let s0 = self.spec_core().schema;
                &&& ((forall|i: int|
                    0 <= i < s0.databases@.len() ==> (#[trigger] s0.databases@[i]).name@
                        != database.name@) ==> r matches Err(Error::DatabaseNotFound(_)))
                &&& ((exists|i: int|
                    0 <= i < s0.databases@.len() && (#[trigger] s0.databases@[i]).name@
                        == database.name@) ==> (r matches Ok(o) && (o matches Some(coll)
                    ==> coll.name@ == name@ && (exists|j: int|
                    0 <= j < s0.collections@.len() && (#[trigger] s0.collections@[j]) == coll))))
            },
    {
        let c = match &self.core {
            Some(c) => c,
            None => {
                return Err(
                    Error::NotRootLeader(RootDesc { epoch: 0, root_nodes: Vec::new() }, 0, None),
                );
            },
        };
        let db = match c.schema.get_database(&database.name) {
            Some(db) => db,
            None => {
                return Err(Error::DatabaseNotFound(database.name.clone()));
            },
        };
        let o = c.schema.get_collection(db.id, name);
        proof {
            assert(self.spec_core().schema == c.schema);
        }
        Ok(o)
    }

    /// All collections of a database, in stored order.
    pub fn list_collection(&self, database: &DatabaseDesc) -> (r: Result<Vec<CollectionDesc>, Error>)
        ensures
            !self.spec_is_root() ==> (r matches Err(err) && crate::error::spec_not_root_leader(err)),
            self.spec_is_root() ==> {
                let s0 = self.spec_core().schema;
                &&& ((forall|i: int|
                    0 <= i < s0.databases@.len() ==> (#[trigger] s0.databases@[i]).name@
                        != database.name@) ==> r matches Err(Error::DatabaseNotFound(_)))
                &&& ((exists|i: int|
                    0 <= i < s0.databases@.len() && (#[trigger] s0.databases@[i]).name@
                        == database.name@) ==> (r matches Ok(l) && exists|i: int|
                    0 <= i < s0.databases@.len() && (#[trigger] s0.databases@[i]).name@
                        == database.name@ && l@ == spec_colls_of_db(
                        s0.collections@,
                        s0.databases@[i].id,
                    )))
            },
    {
        let c = match &self.core {
            Some(c) => c,
            None => {
                return Err(
                    Error::NotRootLeader(RootDesc { epoch: 0, root_nodes: Vec::new() }, 0, None),
                );
            },
        };
        let db = match c.schema.get_database(&database.name) {
            Some(db) => db,
            None => {
                return Err(Error::DatabaseNotFound(database.name.clone()));
            },
        };
        let all = c.schema.list_collection();
        let mut out: Vec<CollectionDesc> = Vec::new();
        let n = all.len();
        let mut i: usize = 0;
        while i < n
            invariant
                i <= n,
                n == all@.len(),
                out@ == spec_colls_of_db(all@.take(i as int), db.id),
            decreases n - i,
        {
            if all[i].db == db.id {
                let coll = crate::schema::clone_collection(&all[i]);
                out.push(coll);
            }
            i = i + 1;
            proof {
                assert(all@.take(i as int).drop_last() =~= all@.take(i - 1));
                assert(all@.take(i as int).last() == all@[i - 1]);
            }
        }
        proof {
            assert(all@.take(n as int) =~= all@);
            assert(self.spec_core().schema == c.schema);
        }
        Ok(out)
    }

    /// A node joins the cluster: it is registered under a fresh id, a
    /// heartbeat is scheduled right away, the update event is queued, and
    /// the node receives the cluster id, its descriptor and the current
    /// root descriptor.
    pub fn join(&mut self, addr: String, capacity: NodeCapacity, now_nanos: u64) -> (r: Result<
        (Vec<u8>, NodeDesc, RootDesc),
        Error,
    >)
        requires
            old(self).wf(),
            old(self).spec_is_root() ==> old(self).spec_core().schema.next_node_id < u64::MAX,
        ensures
            final(self).wf(),
            !old(self).spec_is_root() ==> (r matches Err(err) && crate::error::spec_not_root_leader(err) && *final(self) == *old(self)),
            old(self).spec_is_root() ==> (r matches Ok(t) && final(self).spec_is_root() && {
                let s0 = old(self).spec_core().schema;
                let s1 = final(self).spec_core().schema;
                let node = t.1;
                &&& t.0@ == s0.cluster_id@
                &&& node.id == s0.next_node_id
                &&& node.addr@ == addr@
                &&& node.capacity == Some(capacity)
                &&& node.status == NodeStatus::Active
                &&& s1.nodes@ == s0.nodes@.push(node)
                &&& crate::schema::spec_same_but_nodes(s0, s1)
                &&& t.2.epoch == s0.root_desc.epoch
                &&& t.2.root_nodes@ == s0.root_desc.root_nodes@
                &&& final(self).pending_events@ == old(self).pending_events@.push(
                    WatchEvent::UpdateNode(node),
                )
                &&& (old(self).heartbeat_queue.enabled ==> final(self).heartbeat_queue.spec_deadline(node.id) is Some)
            }),
    {
        let mut c = match self.core.take() {
            Some(c) => c,
            None => {
                return Err(
                    Error::NotRootLeader(RootDesc { epoch: 0, root_nodes: Vec::new() }, 0, None),
                );
            },
        };
        let node = c.schema.add_node(addr, capacity);
        let event_copy = clone_node(&node);
        self.pending_events.push(WatchEvent::UpdateNode(event_copy));
        let cluster_id = c.schema.cluster_id();
        let root = c.schema.get_root_desc();
        let mut tasks: Vec<HeartbeatTask> = Vec::new();
        tasks.push(HeartbeatTask { node_id: node.id });
        proof {
            assert(tasks@[0].node_id == node.id);
            assert(crate::heartbeat::spec_tasks_contain(tasks@, node.id));
        }
        self.heartbeat_queue.try_schedule(tasks, now_nanos);
        let out_node = clone_node(&node);
        self.core = Some(c);
        Ok((cluster_id, out_node, root))
    }

    /// All databases.
    pub fn list_database(&self) -> (r: Result<Vec<DatabaseDesc>, Error>)
        ensures
            !self.spec_is_root() ==> (r matches Err(err) && crate::error::spec_not_root_leader(err)),
            self.spec_is_root() ==> (r matches Ok(l) && l@ == self.spec_core().schema.databases@),
    {
        match &self.core {
            Some(c) => Ok(c.schema.list_database()),
            None => Err(
                Error::NotRootLeader(RootDesc { epoch: 0, root_nodes: Vec::new() }, 0, None),
            ),
        }
    }
}

/// Event equality up to group-descriptor copying: group payloads are
/// compared field for field, everything else by value.
pub open spec fn spec_event_eq(a: WatchEvent, b: WatchEvent) -> bool {
    match (a, b) {
        (WatchEvent::UpdateGroup(x), WatchEvent::UpdateGroup(y)) => crate::schema::spec_group_eq(
            x,
            y,
        ),
        _ => a == b,
    }
}

/// Whether some event announces a new root-group descriptor.
pub open spec fn spec_has_root_group_event(evs: Seq<WatchEvent>) -> bool {
    exists|i: int|
        0 <= i < evs.len() && ((#[trigger] evs[i]) matches WatchEvent::UpdateGroup(g)
            && g.id == crate::meta::ROOT_GROUP_ID)
}

/// Whether the stored descriptor of group `gid` places a replica on `node`.
pub open spec fn spec_group_on_node(groups: Seq<GroupDesc>, gid: u64, node: u64) -> bool {
    exists|i: int, j: int|
        0 <= i < groups.len() && (#[trigger] groups[i]).id == gid && 0 <= j
            < groups[i].replicas@.len() && (#[trigger] groups[i].replicas@[j]).node_id == node
}

/// Whether some reported replica state of group `gid` stands on `node`.
pub open spec fn spec_state_on_node(states: Seq<ReplicaState>, gid: u64, node: u64) -> bool {
    exists|i: int|
        0 <= i < states.len() && (#[trigger] states[i]).group_id == gid && states[i].node_id == node
}

impl Root {
    /// Merges a node report. A group descriptor replaces the stored one
    /// only with a strictly greater epoch; a replica state only when its
    /// term advances, or its role changes within the same term. Accepted
    /// changes are queued as watch events, carried schedule deltas feed
    /// the ongoing-stats projection, and an accepted root-group
    /// descriptor reschedules this node's own heartbeat at once.
    pub fn report(&mut self, updates: Vec<GroupUpdates>, now_nanos: u64) -> (r: Result<(), Error>)
        requires
            old(self).wf(),
        ensures
            final(self).wf(),
            !old(self).spec_is_root() ==> (r matches Err(err) && crate::error::spec_not_root_leader(err) && *final(self) == *old(self)),
            old(self).spec_is_root() ==> (r is Ok && final(self).spec_is_root() && {
                let s0 = old(self).spec_core().schema;
                let merged = spec_report_merge(
                    s0.groups@,
                    s0.replica_states@,
                    updates@,
                    updates@.len() as int,
                );
                let fs = spec_sched_states_of(updates@, updates@.len() as int);
                &&& final(self).spec_core().schema.groups@ == merged.0
                &&& final(self).spec_core().schema.replica_states@ == merged.1
                &&& crate::schema::spec_same_but_groups(s0, final(self).spec_core().schema)
                &&& final(self).spec_core().alloc == old(self).spec_core().alloc
                &&& final(self).pending_events@.len() == old(self).pending_events@.len()
                    + merged.2.len()
                &&& (forall|k: int|
                    0 <= k < merged.2.len() ==> spec_event_eq(
                        #[trigger] final(self).pending_events@[old(self).pending_events@.len() + k],
                        merged.2[k],
                    ))
                &&& (forall|k: int|
                    0 <= k < old(self).pending_events@.len() ==> final(self).pending_events@[k]
                        == #[trigger] old(self).pending_events@[k])
                &&& final(self).ongoing_stats.sched_stats.raw_group_delta@
                    == crate::stats::spec_apply_states(
                    old(self).ongoing_stats.sched_stats.raw_group_delta@,
                    fs,
                    fs.len() as int,
                )
                &&& final(self).ongoing_stats.job_stats.node_delta@ == old(self).ongoing_stats.job_stats.node_delta@
                &&& final(self).pending_tasks@ == old(self).pending_tasks@
                &&& final(self).heartbeat_queue.enabled == old(self).heartbeat_queue.enabled
                &&& (forall|n: u64|
                    n != old(self).node_ident.node_id ==> #[trigger] final(self).heartbeat_queue.spec_deadline(n) == old(self).heartbeat_queue.spec_deadline(
                        n,
                    ))
                &&& (!spec_has_root_group_event(merged.2) ==> final(self).heartbeat_queue == old(self).heartbeat_queue)
                &&& (spec_has_root_group_event(merged.2) && old(self).heartbeat_queue.enabled
                    ==> final(self).heartbeat_queue.spec_deadline(old(self).node_ident.node_id)
                    == crate::heartbeat::spec_coalesced(
                    old(self).heartbeat_queue.spec_deadline(old(self).node_ident.node_id),
                    now_nanos,
                ))
            }),
    {
        let mut c = match self.core.take() {
            Some(c) => c,
            None => {
                return Err(
                    Error::NotRootLeader(RootDesc { epoch: 0, root_nodes: Vec::new() }, 0, None),
                );
            },
        };
        let ghost s0 = c.schema;
        let ghost u0 = updates@;
        let ghost ev0 = self.pending_events@;
        let ghost raw0 = self.ongoing_stats.sched_stats.raw_group_delta@;
        let ghost hb0 = self.heartbeat_queue;
        let ghost me = self.node_ident.node_id;
        let mut rest = updates;
        let ghost n = u0.len() as int;
        let ghost i: int = 0;
        while rest.len() > 0
            invariant
                0 <= i <= n,
                n == u0.len(),
                rest@ == u0.skip(i),
                c.schema.wf(),
                c.alloc == old(self).spec_core().alloc,
                c.alloc.next_txn_id <= c.alloc.max_txn_id,
                self.heartbeat_queue.wf(),
                self.ongoing_stats.wf(),
                self.core is None,
                me == self.node_ident.node_id,
                self.node_ident == old(self).node_ident,
                self.pending_tasks@ == old(self).pending_tasks@,
                self.local_addr == old(self).local_addr,
                self.cfg_cpu_nums == old(self).cfg_cpu_nums,
                s0.wf(),
                hb0 == old(self).heartbeat_queue,
                hb0.wf(),
                ev0 == old(self).pending_events@,
                raw0 == old(self).ongoing_stats.sched_stats.raw_group_delta@,
                c.schema.groups@ == spec_report_merge(s0.groups@, s0.replica_states@, u0, i).0,
                c.schema.replica_states@ == spec_report_merge(
                    s0.groups@,
                    s0.replica_states@,
                    u0,
                    i,
                ).1,
                crate::schema::spec_same_but_groups(s0, c.schema),
                self.pending_events@.len() == ev0.len() + spec_report_merge(
                    s0.groups@,
                    s0.replica_states@,
                    u0,
                    i,
                ).2.len(),
                forall|k: int|
                    0 <= k < spec_report_merge(s0.groups@, s0.replica_states@, u0, i).2.len()
                        ==> spec_event_eq(
                        #[trigger] self.pending_events@[ev0.len() + k],
                        spec_report_merge(s0.groups@, s0.replica_states@, u0, i).2[k],
                    ),
                forall|k: int|
                    0 <= k < ev0.len() ==> self.pending_events@[k] == #[trigger] ev0[k],
                self.ongoing_stats.sched_stats.raw_group_delta@ == crate::stats::spec_apply_states(
                    raw0,
                    spec_sched_states_of(u0, i),
                    spec_sched_states_of(u0, i).len() as int,
                ),
                self.ongoing_stats.job_stats.node_delta@ == old(self).ongoing_stats.job_stats.node_delta@,
                self.heartbeat_queue.enabled == hb0.enabled,
                forall|m: u64|
                    m != me ==> #[trigger] self.heartbeat_queue.spec_deadline(m)
                        == hb0.spec_deadline(m),
                !spec_has_root_group_event(
                    spec_report_merge(s0.groups@, s0.replica_states@, u0, i).2,
                ) ==> self.heartbeat_queue == hb0,
                spec_has_root_group_event(
                    spec_report_merge(s0.groups@, s0.replica_states@, u0, i).2,
                ) && hb0.enabled ==> self.heartbeat_queue.spec_deadline(me)
                    == crate::heartbeat::spec_coalesced(hb0.spec_deadline(me), now_nanos),
            decreases rest@.len(),
        {
            let u = rest.remove(0);
            proof {
                assert(u == u0[i]);
                assert(rest@ =~= u0.skip(i + 1));
            }
            let ghost merged_pre = spec_report_merge(s0.groups@, s0.replica_states@, u0, i);
            let ghost fs_pre = spec_sched_states_of(u0, i);
            let group_id = u.group_id;
            let accepted_group: Option<GroupDesc> = match u.group_desc {
                Some(g) => {
                    match c.schema.group_epoch(group_id) {
                        Some(e) => {
                            if e >= g.epoch {
                                None
                            } else {
                                Some(g)
                            }
                        },
                        None => Some(g),
                    }
                },
                None => None,
            };
            let accepted_state: Option<ReplicaState> = match u.replica_state {
                Some(rs) => {
                    match c.schema.get_replica_state(group_id, rs.replica_id) {
                        Some(pre) => {
                            if pre.term > rs.term || (pre.term == rs.term && pre.role == rs.role) {
                                None
                            } else {
                                Some(rs)
                            }
                        },
                        None => Some(rs),
                    }
                },
                None => None,
            };
            proof {
                assert(accepted_group == spec_accepted_group(c.schema.groups@, u0[i]));
                assert(accepted_state == spec_accepted_state(c.schema.replica_states@, u0[i]));
            }
            let mut is_root_group_update = false;
            match &accepted_group {
                Some(g) => {
                    let copy = crate::schema::clone_group(g);
                    if g.id == crate::meta::ROOT_GROUP_ID {
                        is_root_group_update = true;
                    }
                    self.pending_events.push(WatchEvent::UpdateGroup(copy));
                },
                None => {},
            }
            match &accepted_state {
                Some(rs) => {
                    self.pending_events.push(WatchEvent::UpdateGroupState(*rs));
                },
                None => {},
            }
            c.schema.update_group_replica(accepted_group, accepted_state);
            match u.schedule_state {
                Some(ss) => {
                    let mut one: Vec<crate::meta::ScheduleState> = Vec::new();
                    one.push(ss);
                    proof {
                        assert(one@ =~= seq![u0[i].schedule_state.unwrap()]);
                    }
                    self.ongoing_stats.handle_update(one, None);
                },
                None => {},
            }
            if is_root_group_update {
                let mut tasks: Vec<HeartbeatTask> = Vec::new();
                tasks.push(HeartbeatTask { node_id: self.node_ident.node_id });
                proof {
                    assert(tasks@[0].node_id == me);
                    assert(crate::heartbeat::spec_tasks_contain(tasks@, me));
                    assert(forall|m: u64|
                        m != me ==> !crate::heartbeat::spec_tasks_contain(tasks@, m));
                }
                self.heartbeat_queue.try_schedule(tasks, now_nanos);
            }
            proof {
                i = i + 1;
                let merged = spec_report_merge(s0.groups@, s0.replica_states@, u0, i);
                let fs = spec_sched_states_of(u0, i);
                assert(spec_report_merge(s0.groups@, s0.replica_states@, u0, i - 1) == merged_pre);
                assert forall|x: Option<u64>|
                    crate::heartbeat::spec_coalesced(
                        crate::heartbeat::spec_coalesced(x, now_nanos),
                        now_nanos,
                    ) == #[trigger] crate::heartbeat::spec_coalesced(x, now_nanos) by {}
                if u0[i - 1].schedule_state is Some {
                    let ss = u0[i - 1].schedule_state.unwrap();
                    assert(fs =~= fs_pre.push(ss));
                    crate::stats::lemma_apply_states_prefix(
                        raw0,
                        fs,
                        fs_pre,
                        fs_pre.len() as int,
                    );
                    let mid = crate::stats::spec_apply_states(raw0, fs_pre, fs_pre.len() as int);
                    assert(crate::stats::spec_apply_states(mid, seq![ss], 1)
                        == crate::stats::spec_apply_state(
                        crate::stats::spec_apply_states(mid, seq![ss], 0),
                        ss,
                    ));
                    assert(crate::stats::spec_apply_states(mid, seq![ss], 0) == mid);
                    assert(crate::stats::spec_apply_states(raw0, fs, fs.len() as int)
                        == crate::stats::spec_apply_state(
                        crate::stats::spec_apply_states(raw0, fs, fs.len() - 1),
                        ss,
                    ));
                    crate::stats::lemma_apply_states_prefix(raw0, fs, fs_pre, fs_pre.len() as int);
                } else {
                    assert(fs =~= fs_pre);
                }
                if is_root_group_update {
                    let ag = spec_accepted_group(merged_pre.0, u0[i - 1]);
                    assert(merged.2[merged_pre.2.len() as int] == WatchEvent::UpdateGroup(
                        ag.unwrap(),
                    ));
                    assert(spec_has_root_group_event(merged.2));
                }
                assert(merged.2.len() <= merged_pre.2.len() + 2);
                if spec_has_root_group_event(merged_pre.2) {
                    let w = choose|k: int|
                        0 <= k < merged_pre.2.len() && ((#[trigger] merged_pre.2[k])
                            matches WatchEvent::UpdateGroup(g) && g.id
                            == crate::meta::ROOT_GROUP_ID);
                    assert(merged.2[w] == merged_pre.2[w]);
                    assert(spec_has_root_group_event(merged.2));
                }
                if !spec_has_root_group_event(merged_pre.2) && !is_root_group_update {
                    assert forall|k: int|
                        0 <= k < merged.2.len() implies !((#[trigger] merged.2[k])
                        matches WatchEvent::UpdateGroup(g) && g.id
                        == crate::meta::ROOT_GROUP_ID) by {
                        if k < merged_pre.2.len() {
                            assert(merged.2[k] == merged_pre.2[k]);
                        }
                    }
                }
            }
        }
        proof {
            assert(u0.skip(n) =~= Seq::<GroupUpdates>::empty());
            assert(i == n);
        }
        self.core = Some(c);
        Ok(())
    }

    /// Assigns fresh replica ids on the chosen nodes for a group.
    ///
    /// The group must exist at the reported epoch; the chosen nodes come
    /// from the placement allocator, which hands out only nodes free of
    /// the group's existing replicas — per the stored descriptor and the
    /// reported replica states — and must have satisfied the requested
    /// count: anything short is `ResourceExhausted`. Every new replica
    /// starts as a voter.
    pub fn alloc_replica(
        &mut self,
        group_id: u64,
        epoch: u64,
        requested_cnt: u64,
        chosen_nodes: Vec<u64>,
    ) -> (r: Result<Vec<ReplicaDesc>, Error>)
        requires
            old(self).wf(),
            old(self).spec_is_root() ==> old(self).spec_core().schema.next_replica_id <= u64::MAX
                - chosen_nodes@.len(),
            old(self).spec_is_root() ==> (forall|j: int|
                0 <= j < chosen_nodes@.len() ==> !spec_group_on_node(
                    old(self).spec_core().schema.groups@,
                    group_id,
                    #[trigger] chosen_nodes@[j],
                ) && !spec_state_on_node(
                    old(self).spec_core().schema.replica_states@,
                    group_id,
                    chosen_nodes@[j],
                )),
        ensures
            final(self).wf(),
            !old(self).spec_is_root() ==> (r matches Err(err) && crate::error::spec_not_root_leader(err) && *final(self) == *old(self)),
            old(self).spec_is_root() ==> {
                let s0 = old(self).spec_core().schema;
                &&& (crate::schema::spec_group_epoch_of(s0.groups@, group_id) is None ==> (
                r matches Err(Error::GroupNotFound(gid)) && gid == group_id && *final(self) == *old(self)))
                &&& ((crate::schema::spec_group_epoch_of(s0.groups@, group_id) matches Some(e)
                    && e != epoch) ==> (r matches Err(Error::InvalidArgument(_)) && *final(self)
                    == *old(self)))
                &&& ((crate::schema::spec_group_epoch_of(s0.groups@, group_id) == Some(epoch)
                    && chosen_nodes@.len() != requested_cnt) ==> (r matches Err(
                    Error::ResourceExhausted(_),
                ) && *final(self) == *old(self)))
                &&& ((crate::schema::spec_group_epoch_of(s0.groups@, group_id) == Some(epoch)
                    && chosen_nodes@.len() == requested_cnt) ==> (r matches Ok(replicas)
                    && final(self).spec_is_root() && {
                    let s1 = final(self).spec_core().schema;
                    &&& replicas@.len() == requested_cnt
                    &&& (forall|j: int|
                        0 <= j < replicas@.len() ==> (#[trigger] replicas@[j]) == (ReplicaDesc {
                            id: (s0.next_replica_id + j) as u64,
                            node_id: chosen_nodes@[j],
                            role: ReplicaRole::Voter,
                        }))
                    &&& (forall|j: int|
                        0 <= j < replicas@.len() ==> !spec_group_on_node(
                            s0.groups@,
                            group_id,
                            (#[trigger] replicas@[j]).node_id,
                        ) && !spec_state_on_node(
                            s0.replica_states@,
                            group_id,
                            replicas@[j].node_id,
                        ))
                    &&& s1.next_replica_id == s0.next_replica_id + requested_cnt
                    &&& crate::schema::spec_same_but_counters(s0, s1)
                    &&& s1.next_database_id == s0.next_database_id
                    &&& s1.next_collection_id == s0.next_collection_id
                    &&& s1.next_shard_id == s0.next_shard_id
                    &&& s1.next_node_id == s0.next_node_id
                    &&& s1.next_job_id == s0.next_job_id
                    &&& s1.max_txn_id == s0.max_txn_id
                }))
            },
    {
        let mut c = match self.core.take() {
            Some(c) => c,
            None => {
                return Err(
                    Error::NotRootLeader(RootDesc { epoch: 0, root_nodes: Vec::new() }, 0, None),
                );
            },
        };
        let group_epoch = match c.schema.group_epoch(group_id) {
            Some(e) => e,
            None => {
                self.core = Some(c);
                proof {
                    assert(*self =~= *old(self));
                }
                return Err(Error::GroupNotFound(group_id));
            },
        };
        if group_epoch != epoch {
            self.core = Some(c);
            proof {
                assert(*self =~= *old(self));
            }
            return Err(Error::InvalidArgument("epoch not match".to_string()));
        }
        let cnt = chosen_nodes.len();
        if (cnt as u64) != requested_cnt {
            self.core = Some(c);
            proof {
                assert(*self =~= *old(self));
            }
            return Err(Error::ResourceExhausted("no enough nodes".to_string()));
        }
        let ghost rid0 = c.schema.next_replica_id;
        let mut replicas: Vec<ReplicaDesc> = Vec::new();
        let mut i: usize = 0;
        while i < cnt
            invariant
                i <= cnt,
                cnt == chosen_nodes@.len(),
                c.schema.wf(),
                c.alloc == old(self).spec_core().alloc,
                c.alloc.next_txn_id <= c.alloc.max_txn_id,
                self.core is None,
                self.heartbeat_queue == old(self).heartbeat_queue,
                self.ongoing_stats == old(self).ongoing_stats,
                self.pending_tasks@ == old(self).pending_tasks@,
                self.pending_events@ == old(self).pending_events@,
                self.node_ident == old(self).node_ident,
                old(self).wf(),
                old(self).spec_is_root(),
                c.schema.next_replica_id == rid0 + i,
                rid0 + cnt <= u64::MAX,
                crate::schema::spec_same_but_counters(old(self).spec_core().schema, c.schema),
                c.schema.next_database_id == old(self).spec_core().schema.next_database_id,
                c.schema.next_collection_id == old(self).spec_core().schema.next_collection_id,
                c.schema.next_shard_id == old(self).spec_core().schema.next_shard_id,
                c.schema.next_node_id == old(self).spec_core().schema.next_node_id,
                c.schema.next_job_id == old(self).spec_core().schema.next_job_id,
                c.schema.max_txn_id == old(self).spec_core().schema.max_txn_id,
                replicas@.len() == i,
                forall|j: int|
                    0 <= j < i ==> (#[trigger] replicas@[j]) == (ReplicaDesc {
                        id: (rid0 + j) as u64,
                        node_id: chosen_nodes@[j],
                        role: ReplicaRole::Voter,
                    }),
            decreases cnt - i,
        {
            let replica_id = c.schema.next_replica_id();
            replicas.push(
                ReplicaDesc { id: replica_id, node_id: chosen_nodes[i], role: ReplicaRole::Voter },
            );
            i = i + 1;
        }
        self.core = Some(c);
        Ok(replicas)
    }
}

/// Operator-facing snapshot of one collection.
#[derive(Debug, Clone, PartialEq, Eq)]
#[verifier::ext_equal]
pub struct Collection {
    pub id: u64,
    pub name: String,
}

/// Operator-facing snapshot of one database with its collections.
#[derive(Debug, Clone, PartialEq, Eq)]
#[verifier::ext_equal]
pub struct Database {
    pub id: u64,
    pub name: String,
    pub collections: Vec<Collection>,
}

/// One replica as seen from its node.
#[derive(Debug, Clone, Copy, PartialEq, Eq, Structural)]
pub struct NodeReplica {
    pub id: u64,
    pub group: u64,
    pub replica_role: ReplicaRole,
    pub raft_role: Option<RaftRole>,
}

/// Operator-facing snapshot of one node with its replicas and leaders.
#[derive(Debug, Clone, PartialEq, Eq)]
#[verifier::ext_equal]
pub struct Node {
    pub id: u64,
    pub addr: String,
    pub replicas: Vec<NodeReplica>,
    pub leaders: Vec<NodeReplica>,
    pub status: NodeStatus,
}

/// One replica as seen from its group, joined with its raft progress.
#[derive(Debug, Clone, Copy, PartialEq, Eq, Structural)]
pub struct GroupReplica {
    pub id: u64,
    pub node: u64,
    pub replica_role: ReplicaRole,
    pub raft_role: Option<RaftRole>,
    pub term: u64,
}

/// One shard as seen from its group.
#[derive(Debug, Clone, PartialEq, Eq)]
#[verifier::ext_equal]
pub struct GroupShard {
    pub id: u64,
    pub collection: u64,
    pub start: Vec<u8>,
    pub end: Vec<u8>,
}

/// Operator-facing snapshot of one group.
#[derive(Debug, Clone, PartialEq, Eq)]
#[verifier::ext_equal]
pub struct Group {
    pub id: u64,
    pub epoch: u64,
    pub replicas: Vec<GroupReplica>,
    pub shards: Vec<GroupShard>,
}

/// The whole diagnosis snapshot.
#[derive(Debug, Clone, PartialEq, Eq)]
#[verifier::ext_equal]
pub struct Metadata {
    pub databases: Vec<Database>,
    pub nodes: Vec<Node>,
    pub groups: Vec<Group>,
    pub balanced: bool,
}

/// The first reported state of a replica id.
pub open spec fn spec_state_by_replica(states: Seq<ReplicaState>, replica_id: u64) -> Option<
    ReplicaState,
>
    decreases states.len(),
{
    if states.len() == 0 {
        None
    } else if states[0].replica_id == replica_id {
        Some(states[0])
    } else {
        spec_state_by_replica(states.drop_first(), replica_id)
    }
}

/// One group replica joined with its raft progress.
pub open spec fn spec_group_replica_view(r: ReplicaDesc, states: Seq<ReplicaState>) -> GroupReplica {
    match spec_state_by_replica(states, r.id) {
        Some(s) => GroupReplica {
            id: r.id,
            node: r.node_id,
            replica_role: r.role,
            raft_role: Some(s.role),
            term: s.term,
        },
        None => GroupReplica {
            id: r.id,
            node: r.node_id,
            replica_role: r.role,
            raft_role: None,
            term: 0,
        },
    }
}

/// All replicas of a group, joined with raft progress, in order.
pub open spec fn spec_group_replicas(rs: Seq<ReplicaDesc>, states: Seq<ReplicaState>) -> Seq<
    GroupReplica,
>
    decreases rs.len(),
{
    if rs.len() == 0 {
        Seq::<GroupReplica>::empty()
    } else {
        spec_group_replicas(rs.drop_last(), states).push(
            spec_group_replica_view(rs.last(), states),
        )
    }
}

/// Whether one reported shard matches the stored descriptor; a missing
/// range reads as empty bounds.
pub open spec fn spec_gshard_matches(gs: GroupShard, sd: ShardDesc) -> bool {
    &&& gs.id == sd.id
    &&& gs.collection == sd.collection_id
    &&& (match sd.range {
        Some(r) => gs.start@ == r.start@ && gs.end@ == r.end@,
        None => gs.start@.len() == 0 && gs.end@.len() == 0,
    })
}

/// One node replica joined with its raft progress.
pub open spec fn spec_node_replica_view(
    r: ReplicaDesc,
    group: u64,
    states: Seq<ReplicaState>,
) -> NodeReplica {
    match spec_state_by_replica(states, r.id) {
        Some(s) => NodeReplica {
            id: r.id,
            group,
            replica_role: r.role,
            raft_role: Some(s.role),
        },
        None => NodeReplica { id: r.id, group, replica_role: r.role, raft_role: None },
    }
}

/// The replicas of one group placed on a node, in order.
pub open spec fn spec_group_node_replicas(
    rs: Seq<ReplicaDesc>,
    group: u64,
    states: Seq<ReplicaState>,
    node: u64,
) -> Seq<NodeReplica>
    decreases rs.len(),
{
    if rs.len() == 0 {
        Seq::<NodeReplica>::empty()
    } else {
        let rest = spec_group_node_replicas(rs.drop_last(), group, states, node);
        if rs.last().node_id == node {
            rest.push(spec_node_replica_view(rs.last(), group, states))
        } else {
            rest
        }
    }
}

/// All replicas placed on a node across non-root groups, in order.
pub open spec fn spec_node_replicas(
    groups: Seq<GroupDesc>,
    states: Seq<ReplicaState>,
    node: u64,
) -> Seq<NodeReplica>
    decreases groups.len(),
{
    if groups.len() == 0 {
        Seq::<NodeReplica>::empty()
    } else {
        let rest = spec_node_replicas(groups.drop_last(), states, node);
        if groups.last().id != crate::meta::ROOT_GROUP_ID {
            rest + spec_group_node_replicas(groups.last().replicas@, groups.last().id, states, node)
        } else {
            rest
        }
    }
}

/// The replicas that currently lead their raft group.
pub open spec fn spec_leaders(rs: Seq<NodeReplica>) -> Seq<NodeReplica>
    decreases rs.len(),
{
    if rs.len() == 0 {
        rs
    } else {
        let rest = spec_leaders(rs.drop_last());
        if rs.last().raft_role == Some(RaftRole::Leader) {
            rest.push(rs.last())
        } else {
            rest
        }
    }
}

/// The `Collection` briefs of one database, in stored order.
pub open spec fn spec_brief_colls(colls: Seq<CollectionDesc>, db: u64) -> Seq<Collection>
    decreases colls.len(),
{
    if colls.len() == 0 {
        Seq::<Collection>::empty()
    } else {
        let rest = spec_brief_colls(colls.drop_last(), db);
        if colls.last().db == db {
            rest.push(Collection { id: colls.last().id, name: colls.last().name })
        } else {
            rest
        }
    }
}

/// Looks a replica's raft progress up by replica id.
fn lookup_raft_state(states: &Vec<ReplicaState>, replica_id: u64) -> (r: Option<ReplicaState>)
    ensures
        r == spec_state_by_replica(states@, replica_id),
{
    let n = states.len();
    let mut i: usize = 0;
    while i < n
        invariant
            i <= n,
            n == states@.len(),
            forall|j: int| 0 <= j < i ==> (#[trigger] states@[j]).replica_id != replica_id,
        decreases n - i,
    {
        if states[i].replica_id == replica_id {
            proof {
                lemma_state_by_replica_at(states@, replica_id, i as int);
            }
            return Some(states[i]);
        }
        i = i + 1;
    }
    proof {
        lemma_state_by_replica_absent(states@, replica_id);
    }
    None
}

proof fn lemma_state_by_replica_at(states: Seq<ReplicaState>, replica_id: u64, idx: int)
    requires
        0 <= idx < states.len(),
        states[idx].replica_id == replica_id,
        forall|j: int| 0 <= j < idx ==> (#[trigger] states[j]).replica_id != replica_id,
    ensures
        spec_state_by_replica(states, replica_id) == Some(states[idx]),
    decreases idx,
{
    if idx > 0 {
        lemma_state_by_replica_at(states.drop_first(), replica_id, idx - 1);
    }
}

proof fn lemma_state_by_replica_absent(states: Seq<ReplicaState>, replica_id: u64)
    requires
        forall|j: int| 0 <= j < states.len() ==> (#[trigger] states[j]).replica_id != replica_id,
    ensures
        spec_state_by_replica(states, replica_id) is None,
    decreases states.len(),
{
    if states.len() > 0 {
        lemma_state_by_replica_absent(states.drop_first(), replica_id);
    }
}

impl Root {
    /// Assembles the operator diagnosis snapshot: every database with its
    /// collections, every node with the replicas and leaders placed on it
    /// (root group excluded), and every group with its replicas (joined
    /// with raft progress) and shards. `balanced` reports whether the
    /// reconcile scheduler found nothing to move.
    pub fn info(&self, balanced: bool) -> (r: Result<Metadata, Error>)
        ensures
            !self.spec_is_root() ==> (r matches Err(err) && crate::error::spec_not_root_leader(err)),
            self.spec_is_root() ==> (r matches Ok(m) && {
                let s = self.spec_core().schema;
                &&& m.balanced == balanced
                &&& m.databases@.len() == s.databases@.len()
                &&& (forall|i: int|
                    0 <= i < s.databases@.len() ==> {
                        let d = #[trigger] m.databases@[i];
                        &&& d.id == s.databases@[i].id
                        &&& d.name@ == s.databases@[i].name@
                        &&& d.collections@ == spec_brief_colls(s.collections@, s.databases@[i].id)
                    })
                &&& m.nodes@.len() == s.nodes@.len()
                &&& (forall|i: int|
                    0 <= i < s.nodes@.len() ==> {
                        let nd = #[trigger] m.nodes@[i];
                        &&& nd.id == s.nodes@[i].id
                        &&& nd.addr@ == s.nodes@[i].addr@
                        &&& nd.status == s.nodes@[i].status
                        &&& nd.replicas@ == spec_node_replicas(
                            s.groups@,
                            s.replica_states@,
                            s.nodes@[i].id,
                        )
                        &&& nd.leaders@ == spec_leaders(nd.replicas@)
                    })
                &&& m.groups@.len() == s.groups@.len()
                &&& (forall|i: int|
                    0 <= i < s.groups@.len() ==> {
                        let g = #[trigger] m.groups@[i];
                        &&& g.id == s.groups@[i].id
                        &&& g.epoch == s.groups@[i].epoch
                        &&& g.replicas@ == spec_group_replicas(
                            s.groups@[i].replicas@,
                            s.replica_states@,
                        )
                        &&& g.shards@.len() == s.groups@[i].shards@.len()
                        &&& (forall|j: int|
                            0 <= j < g.shards@.len() ==> spec_gshard_matches(
                                #[trigger] g.shards@[j],
                                s.groups@[i].shards@[j],
                            ))
                    })
            }),
    {
        let c = match &self.core {
            Some(c) => c,
            None => {
                return Err(
                    Error::NotRootLeader(RootDesc { epoch: 0, root_nodes: Vec::new() }, 0, None),
                );
            },
        };
        let s = &c.schema;
        // Databases with their collections.
        let mut databases: Vec<Database> = Vec::new();
        let dn = s.databases.len();
        let mut i: usize = 0;
        while i < dn
            invariant
                i <= dn,
                dn == s.databases@.len(),
                databases@.len() == i,
                forall|k: int|
                    0 <= k < i ==> {
                        let d = #[trigger] databases@[k];
                        &&& d.id == s.databases@[k].id
                        &&& d.name@ == s.databases@[k].name@
                        &&& d.collections@ == spec_brief_colls(s.collections@, s.databases@[k].id)
                    },
            decreases dn - i,
        {
            let db = &s.databases[i];
            let mut collections: Vec<Collection> = Vec::new();
            let cn = s.collections.len();
            let mut j: usize = 0;
            while j < cn
                invariant
                    j <= cn,
                    cn == s.collections@.len(),
                    collections@ == spec_brief_colls(s.collections@.take(j as int), db.id),
                decreases cn - j,
            {
                if s.collections[j].db == db.id {
                    collections.push(
                        Collection { id: s.collections[j].id, name: s.collections[j].name.clone() },
                    );
                    proof {
                        assert(collections@.last() =~= (Collection {
                            id: s.collections@[j as int].id,
                            name: s.collections@[j as int].name,
                        }));
                    }
                }
                j = j + 1;
                proof {
                    assert(s.collections@.take(j as int).drop_last() =~= s.collections@.take(
                        j - 1,
                    ));
                    assert(s.collections@.take(j as int).last() == s.collections@[j - 1]);
                    assert(collections@ =~= spec_brief_colls(
                        s.collections@.take(j as int),
                        db.id,
                    ));
                }
            }
            proof {
                assert(s.collections@.take(cn as int) =~= s.collections@);
            }
            databases.push(Database { id: db.id, name: db.name.clone(), collections });
            i = i + 1;
        }
        // Nodes with the replicas and leaders placed on them.
        let mut nodes: Vec<Node> = Vec::new();
        let nn = s.nodes.len();
        let mut i: usize = 0;
        while i < nn
            invariant
                i <= nn,
                nn == s.nodes@.len(),
                nodes@.len() == i,
                forall|k: int|
                    0 <= k < i ==> {
                        let nd = #[trigger] nodes@[k];
                        &&& nd.id == s.nodes@[k].id
                        &&& nd.addr@ == s.nodes@[k].addr@
                        &&& nd.status == s.nodes@[k].status
                        &&& nd.replicas@ == spec_node_replicas(
                            s.groups@,
                            s.replica_states@,
                            s.nodes@[k].id,
                        )
                        &&& nd.leaders@ == spec_leaders(nd.replicas@)
                    },
            decreases nn - i,
        {
            let node = &s.nodes[i];
            let mut replicas: Vec<NodeReplica> = Vec::new();
            let gn = s.groups.len();
            let mut g: usize = 0;
            while g < gn
                invariant
                    g <= gn,
                    gn == s.groups@.len(),
                    replicas@ == spec_node_replicas(
                        s.groups@.take(g as int),
                        s.replica_states@,
                        node.id,
                    ),
                decreases gn - g,
            {
                let group = &s.groups[g];
                if group.id != crate::meta::ROOT_GROUP_ID {
                    let rn = group.replicas.len();
                    let mut j: usize = 0;
                    while j < rn
                        invariant
                            j <= rn,
                            rn == group.replicas@.len(),
                            replicas@ == spec_node_replicas(
                                s.groups@.take(g as int),
                                s.replica_states@,
                                node.id,
                            ) + spec_group_node_replicas(
                                group.replicas@.take(j as int),
                                group.id,
                                s.replica_states@,
                                node.id,
                            ),
                        decreases rn - j,
                    {
                        let rep = &group.replicas[j];
                        if rep.node_id == node.id {
                            let entry = match lookup_raft_state(&s.replica_states, rep.id) {
                                Some(st) => NodeReplica {
                                    id: rep.id,
                                    group: group.id,
                                    replica_role: rep.role,
                                    raft_role: Some(st.role),
                                },
                                None => NodeReplica {
                                    id: rep.id,
                                    group: group.id,
                                    replica_role: rep.role,
                                    raft_role: None,
                                },
                            };
                            proof {
                                assert(entry == spec_node_replica_view(
                                    group.replicas@[j as int],
                                    group.id,
                                    s.replica_states@,
                                ));
                            }
                            replicas.push(entry);
                        }
                        j = j + 1;
                        proof {
                            assert(group.replicas@.take(j as int).drop_last()
                                =~= group.replicas@.take(j - 1));
                            assert(group.replicas@.take(j as int).last()
                                == group.replicas@[j - 1]);
                        }
                    }
                    proof {
                        assert(group.replicas@.take(rn as int) =~= group.replicas@);
                    }
                }
                g = g + 1;
                proof {
                    assert(s.groups@.take(g as int).drop_last() =~= s.groups@.take(g - 1));
                    assert(s.groups@.take(g as int).last() == s.groups@[g - 1]);
                    if s.groups@[g - 1].id == crate::meta::ROOT_GROUP_ID {
                    } else {
                        assert(replicas@ =~= spec_node_replicas(
                            s.groups@.take(g as int),
                            s.replica_states@,
                            node.id,
                        ));
                    }
                }
            }
            proof {
                assert(s.groups@.take(gn as int) =~= s.groups@);
            }
            let mut leaders: Vec<NodeReplica> = Vec::new();
            let rn = replicas.len();
            let mut j: usize = 0;
            while j < rn
                invariant
                    j <= rn,
                    rn == replicas@.len(),
                    leaders@ == spec_leaders(replicas@.take(j as int)),
                decreases rn - j,
            {
                let rep = replicas[j];
                let is_leader = match rep.raft_role {
                    Some(RaftRole::Leader) => true,
                    _ => false,
                };
                if is_leader {
                    leaders.push(rep);
                }
                j = j + 1;
                proof {
                    assert(replicas@.take(j as int).drop_last() =~= replicas@.take(j - 1));
                    assert(replicas@.take(j as int).last() == replicas@[j - 1]);
                }
            }
            proof {
                assert(replicas@.take(rn as int) =~= replicas@);
            }
            nodes.push(
                Node {
                    id: node.id,
                    addr: node.addr.clone(),
                    replicas,
                    leaders,
                    status: node.status,
                },
            );
            i = i + 1;
        }
        // Groups with their replicas and shards.
        let mut groups: Vec<Group> = Vec::new();
        let gn = s.groups.len();
        let mut i: usize = 0;
        while i < gn
            invariant
                i <= gn,
                gn == s.groups@.len(),
                groups@.len() == i,
                forall|k: int|
                    0 <= k < i ==> {
                        let g = #[trigger] groups@[k];
                        &&& g.id == s.groups@[k].id
                        &&& g.epoch == s.groups@[k].epoch
                        &&& g.replicas@ == spec_group_replicas(
                            s.groups@[k].replicas@,
                            s.replica_states@,
                        )
                        &&& g.shards@.len() == s.groups@[k].shards@.len()
                        &&& (forall|j: int|
                            0 <= j < g.shards@.len() ==> spec_gshard_matches(
                                #[trigger] g.shards@[j],
                                s.groups@[k].shards@[j],
                            ))
                    },
            decreases gn - i,
        {
            let group = &s.groups[i];
            let mut replicas: Vec<GroupReplica> = Vec::new();
            let rn = group.replicas.len();
            let mut j: usize = 0;
            while j < rn
                invariant
                    j <= rn,
                    rn == group.replicas@.len(),
                    replicas@ == spec_group_replicas(
                        group.replicas@.take(j as int),
                        s.replica_states@,
                    ),
                decreases rn - j,
            {
                let rep = &group.replicas[j];
                let entry = match lookup_raft_state(&s.replica_states, rep.id) {
                    Some(st) => GroupReplica {
                        id: rep.id,
                        node: rep.node_id,
                        replica_role: rep.role,
                        raft_role: Some(st.role),
                        term: st.term,
                    },
                    None => GroupReplica {
                        id: rep.id,
                        node: rep.node_id,
                        replica_role: rep.role,
                        raft_role: None,
                        term: 0,
                    },
                };
                proof {
                    assert(entry == spec_group_replica_view(
                        group.replicas@[j as int],
                        s.replica_states@,
                    ));
                }
                replicas.push(entry);
                j = j + 1;
                proof {
                    assert(group.replicas@.take(j as int).drop_last() =~= group.replicas@.take(
                        j - 1,
                    ));
                    assert(group.replicas@.take(j as int).last() == group.replicas@[j - 1]);
                }
            }
            proof {
                assert(group.replicas@.take(rn as int) =~= group.replicas@);
            }
            let mut shards: Vec<GroupShard> = Vec::new();
            let sn = group.shards.len();
            let mut j: usize = 0;
            while j < sn
                invariant
                    j <= sn,
                    sn == group.shards@.len(),
                    shards@.len() == j,
                    forall|k: int|
                        0 <= k < j ==> spec_gshard_matches(
                            #[trigger] shards@[k],
                            group.shards@[k],
                        ),
                decreases sn - j,
            {
                let sd = &group.shards[j];
                let (start, end) = match &sd.range {
                    Some(rp) => (
                        crate::bytes::clone_bytes(&rp.start),
                        crate::bytes::clone_bytes(&rp.end),
                    ),
                    None => (Vec::new(), Vec::new()),
                };
                shards.push(GroupShard { id: sd.id, collection: sd.collection_id, start, end });
                j = j + 1;
            }
            groups.push(Group { id: group.id, epoch: group.epoch, replicas, shards });
            i = i + 1;
        }
        proof {
            assert(self.spec_core().schema == c.schema);
        }
        Ok(Metadata { databases, nodes, groups, balanced })
    }
}

} // verus!
