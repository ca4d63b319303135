//! The cluster schema: the metadata the root group persists.
//!
//! Databases, collections, nodes, groups and replica states live here,
//! together with the id counters and the persisted transaction-id marker.
//! The storage engine beneath is an external collaborator; this model
//! keeps the records as plain values and gives every mutation an exact
//! contract. All lookups go by the unique ids (or names) that
//! well-formedness guarantees.

use vstd::prelude::*;

use crate::bytes::clone_bytes;
use crate::error::Error;
use crate::jobs::{BackgroundJob, Job};
use crate::meta::{
    CollectionDesc, DatabaseDesc, GroupDesc, NodeCapacity, NodeDesc, NodeStatus, RangePartition,
    ReplicaDesc, ReplicaState, RootDesc, ShardDesc,
};

verus! {

/// A fresh copy of a database descriptor.
pub fn clone_database(d: &DatabaseDesc) -> (r: DatabaseDesc)
    ensures
        r == *d,
{
    let r = DatabaseDesc { id: d.id, name: d.name.clone() };
    proof {
        assert(r =~= *d);
    }
    r
}

/// A fresh copy of a collection descriptor.
pub fn clone_collection(c: &CollectionDesc) -> (r: CollectionDesc)
    ensures
        r == *c,
{
    let r = CollectionDesc { id: c.id, db: c.db, name: c.name.clone() };
    proof {
        assert(r =~= *c);
    }
    r
}

/// A fresh copy of a node descriptor.
pub fn clone_node(n: &NodeDesc) -> (r: NodeDesc)
    ensures
        r == *n,
{
    let r = NodeDesc { id: n.id, addr: n.addr.clone(), capacity: n.capacity, status: n.status };
    proof {
        assert(r =~= *n);
    }
    r
}

/// The same shard, field for field (ranges compared by their bytes).
pub open spec fn spec_shard_eq(a: ShardDesc, b: ShardDesc) -> bool {
    &&& a.id == b.id
    &&& a.collection_id == b.collection_id
    &&& (match (a.range, b.range) {
        (Some(x), Some(y)) => x.start@ == y.start@ && x.end@ == y.end@,
        (None, None) => true,
        _ => false,
    })
}

/// The same group, field for field (shards compared by [`spec_shard_eq`]).
pub open spec fn spec_group_eq(a: GroupDesc, b: GroupDesc) -> bool {
    &&& a.id == b.id
    &&& a.epoch == b.epoch
    &&& a.replicas@ == b.replicas@
    &&& a.shards@.len() == b.shards@.len()
    &&& (forall|j: int|
        0 <= j < a.shards@.len() ==> spec_shard_eq(#[trigger] a.shards@[j], b.shards@[j]))
}

/// A fresh copy of a shard descriptor.
pub fn clone_shard(s: &ShardDesc) -> (r: ShardDesc)
    ensures
        spec_shard_eq(r, *s),
{
    let range = match &s.range {
        Some(rp) => Some(RangePartition { start: clone_bytes(&rp.start), end: clone_bytes(&rp.end) }),
        None => None,
    };
    ShardDesc { id: s.id, collection_id: s.collection_id, range }
}

/// A fresh copy of a group descriptor.
pub fn clone_group(g: &GroupDesc) -> (r: GroupDesc)
    ensures
        spec_group_eq(r, *g),
{
    let mut shards: Vec<ShardDesc> = Vec::new();
    let sn = g.shards.len();
    let mut i: usize = 0;
    while i < sn
        invariant
            i <= sn,
            sn == g.shards@.len(),
            shards@.len() == i,
            forall|j: int| 0 <= j < i ==> spec_shard_eq(#[trigger] shards@[j], g.shards@[j]),
        decreases sn - i,
    {
        shards.push(clone_shard(&g.shards[i]));
        i = i + 1;
    }
    let mut replicas: Vec<ReplicaDesc> = Vec::new();
    let rn = g.replicas.len();
    let mut i: usize = 0;
    while i < rn
        invariant
            i <= rn,
            rn == g.replicas@.len(),
            replicas@ == g.replicas@.subrange(0, i as int),
        decreases rn - i,
    {
        replicas.push(g.replicas[i]);
        i = i + 1;
        assert(g.replicas@.subrange(0, i as int) =~= g.replicas@.subrange(0, i - 1).push(
            g.replicas@[i - 1],
        ));
    }
    assert(g.replicas@.subrange(0, rn as int) =~= g.replicas@);
    GroupDesc { id: g.id, epoch: g.epoch, shards, replicas }
}

/// A fresh copy of the root descriptor.
pub fn clone_root_desc(d: &RootDesc) -> (r: RootDesc)
    ensures
        r.epoch == d.epoch,
        r.root_nodes@ == d.root_nodes@,
{
    let mut root_nodes: Vec<NodeDesc> = Vec::new();
    let n = d.root_nodes.len();
    let mut i: usize = 0;
    while i < n
        invariant
            i <= n,
            n == d.root_nodes@.len(),
            root_nodes@ == d.root_nodes@.subrange(0, i as int),
        decreases n - i,
    {
        root_nodes.push(clone_node(&d.root_nodes[i]));
        i = i + 1;
        assert(d.root_nodes@.subrange(0, i as int) =~= d.root_nodes@.subrange(0, i - 1).push(
            d.root_nodes@[i - 1],
        ));
    }
    assert(d.root_nodes@.subrange(0, n as int) =~= d.root_nodes@);
    RootDesc { epoch: d.epoch, root_nodes }
}

/// The epoch of the first group with the id.
pub open spec fn spec_group_epoch_of(groups: Seq<GroupDesc>, id: u64) -> Option<u64>
    decreases groups.len(),
{
    if groups.len() == 0 {
        None
    } else if groups[0].id == id {
        Some(groups[0].epoch)
    } else {
        spec_group_epoch_of(groups.drop_first(), id)
    }
}

/// Replaces the first group with the same id, or appends.
pub open spec fn spec_upsert_group(groups: Seq<GroupDesc>, g: GroupDesc) -> Seq<GroupDesc>
    decreases groups.len(),
{
    if groups.len() == 0 {
        seq![g]
    } else if groups[0].id == g.id {
        seq![g] + groups.drop_first()
    } else {
        seq![groups[0]] + spec_upsert_group(groups.drop_first(), g)
    }
}

/// The first state of the `(group, replica)` pair.
pub open spec fn spec_state_of(
    states: Seq<ReplicaState>,
    group_id: u64,
    replica_id: u64,
) -> Option<ReplicaState>
    decreases states.len(),
{
    if states.len() == 0 {
        None
    } else if states[0].group_id == group_id && states[0].replica_id == replica_id {
        Some(states[0])
    } else {
        spec_state_of(states.drop_first(), group_id, replica_id)
    }
}

/// Replaces the first state of the same `(group, replica)` pair, or
/// appends.
pub open spec fn spec_upsert_state(states: Seq<ReplicaState>, s: ReplicaState) -> Seq<ReplicaState>
    decreases states.len(),
{
    if states.len() == 0 {
        seq![s]
    } else if states[0].group_id == s.group_id && states[0].replica_id == s.replica_id {
        seq![s] + states.drop_first()
    } else {
        seq![states[0]] + spec_upsert_state(states.drop_first(), s)
    }
}

/// Where `idx` is the first group with the id, the epoch lookup returns
/// its epoch and the upsert updates it in place.
pub proof fn lemma_group_at(groups: Seq<GroupDesc>, g: GroupDesc, idx: int)
    requires
        0 <= idx < groups.len(),
        groups[idx].id == g.id,
        forall|j: int| 0 <= j < idx ==> (#[trigger] groups[j]).id != g.id,
    ensures
        spec_group_epoch_of(groups, g.id) == Some(groups[idx].epoch),
        spec_upsert_group(groups, g) == groups.update(idx, g),
    decreases idx,
{
    if idx == 0 {
        assert(spec_upsert_group(groups, g) =~= groups.update(0, g));
    } else {
        lemma_group_at(groups.drop_first(), g, idx - 1);
        assert(spec_upsert_group(groups, g) =~= groups.update(idx, g)) by {
            assert(seq![groups[0]] + groups.drop_first().update(idx - 1, g) =~= groups.update(
                idx,
                g,
            ));
        }
    }
}

/// Where no group has the id, the epoch lookup is empty and the upsert
/// appends.
pub proof fn lemma_group_absent(groups: Seq<GroupDesc>, g: GroupDesc)
    requires
        forall|j: int| 0 <= j < groups.len() ==> (#[trigger] groups[j]).id != g.id,
    ensures
        spec_group_epoch_of(groups, g.id) is None,
        spec_upsert_group(groups, g) == groups.push(g),
    decreases groups.len(),
{
    if groups.len() == 0 {
        assert(spec_upsert_group(groups, g) =~= groups.push(g));
    } else {
        lemma_group_absent(groups.drop_first(), g);
        assert(spec_upsert_group(groups, g) =~= groups.push(g));
    }
}

/// Where `idx` is the first state of the pair, the lookup returns it and
/// the upsert updates it in place.
pub proof fn lemma_state_at(states: Seq<ReplicaState>, s: ReplicaState, idx: int)
    requires
        0 <= idx < states.len(),
        states[idx].group_id == s.group_id && states[idx].replica_id == s.replica_id,
        forall|j: int|
            0 <= j < idx ==> !((#[trigger] states[j]).group_id == s.group_id && states[j].replica_id
                == s.replica_id),
    ensures
        spec_state_of(states, s.group_id, s.replica_id) == Some(states[idx]),
        spec_upsert_state(states, s) == states.update(idx, s),
    decreases idx,
{
    if idx == 0 {
        assert(spec_upsert_state(states, s) =~= states.update(0, s));
    } else {
        lemma_state_at(states.drop_first(), s, idx - 1);
        assert(spec_upsert_state(states, s) =~= states.update(idx, s)) by {
            assert(seq![states[0]] + states.drop_first().update(idx - 1, s) =~= states.update(
                idx,
                s,
            ));
        }
    }
}

/// Where no state matches the pair, the lookup is empty and the upsert
/// appends.
pub proof fn lemma_state_absent(states: Seq<ReplicaState>, s: ReplicaState)
    requires
        forall|j: int|
            0 <= j < states.len() ==> !((#[trigger] states[j]).group_id == s.group_id
                && states[j].replica_id == s.replica_id),
    ensures
        spec_state_of(states, s.group_id, s.replica_id) is None,
        spec_upsert_state(states, s) == states.push(s),
    decreases states.len(),
{
    if states.len() == 0 {
        assert(spec_upsert_state(states, s) =~= states.push(s));
    } else {
        lemma_state_absent(states.drop_first(), s);
        assert(spec_upsert_state(states, s) =~= states.push(s));
    }
}

/// Where `idx` is the first group with the id, the epoch lookup returns
/// its epoch.
pub proof fn lemma_group_epoch_at(groups: Seq<GroupDesc>, id: u64, idx: int)
    requires
        0 <= idx < groups.len(),
        groups[idx].id == id,
        forall|j: int| 0 <= j < idx ==> (#[trigger] groups[j]).id != id,
    ensures
        spec_group_epoch_of(groups, id) == Some(groups[idx].epoch),
    decreases idx,
{
    if idx > 0 {
        lemma_group_epoch_at(groups.drop_first(), id, idx - 1);
    }
}

/// Where no group has the id, the epoch lookup is empty.
pub proof fn lemma_group_epoch_absent(groups: Seq<GroupDesc>, id: u64)
    requires
        forall|j: int| 0 <= j < groups.len() ==> (#[trigger] groups[j]).id != id,
    ensures
        spec_group_epoch_of(groups, id) is None,
    decreases groups.len(),
{
    if groups.len() > 0 {
        lemma_group_epoch_absent(groups.drop_first(), id);
    }
}

/// Where `idx` is the first state of the pair, the lookup returns it.
pub proof fn lemma_state_of_at(states: Seq<ReplicaState>, group_id: u64, replica_id: u64, idx: int)
    requires
        0 <= idx < states.len(),
        states[idx].group_id == group_id && states[idx].replica_id == replica_id,
        forall|j: int|
            0 <= j < idx ==> !((#[trigger] states[j]).group_id == group_id && states[j].replica_id
                == replica_id),
    ensures
        spec_state_of(states, group_id, replica_id) == Some(states[idx]),
    decreases idx,
{
    if idx > 0 {
        lemma_state_of_at(states.drop_first(), group_id, replica_id, idx - 1);
    }
}

/// Where no state matches the pair, the lookup is empty.
pub proof fn lemma_state_of_absent(states: Seq<ReplicaState>, group_id: u64, replica_id: u64)
    requires
        forall|j: int|
            0 <= j < states.len() ==> !((#[trigger] states[j]).group_id == group_id
                && states[j].replica_id == replica_id),
    ensures
        spec_state_of(states, group_id, replica_id) is None,
    decreases states.len(),
{
    if states.len() > 0 {
        lemma_state_of_absent(states.drop_first(), group_id, replica_id);
    }
}

/// The replica states belonging to one group, in stored order.
pub open spec fn spec_states_of_group(states: Seq<ReplicaState>, group_id: u64) -> Seq<ReplicaState>
    decreases states.len(),
{
    if states.len() == 0 {
        states
    } else {
        let rest = spec_states_of_group(states.drop_last(), group_id);
        if states.last().group_id == group_id {
            rest.push(states.last())
        } else {
            rest
        }
    }
}

/// The durable cluster metadata.
#[derive(Debug, Clone, PartialEq, Eq)]
#[verifier::ext_equal]
pub struct Schema {
    pub cluster_id: Vec<u8>,
    pub databases: Vec<DatabaseDesc>,
    pub collections: Vec<CollectionDesc>,
    pub nodes: Vec<NodeDesc>,
    pub groups: Vec<GroupDesc>,
    pub replica_states: Vec<ReplicaState>,
    pub jobs: Vec<BackgroundJob>,
    pub history_jobs: Vec<BackgroundJob>,
    pub root_desc: RootDesc,
    pub next_database_id: u64,
    pub next_collection_id: u64,
    pub next_shard_id: u64,
    pub next_replica_id: u64,
    pub next_node_id: u64,
    pub next_job_id: u64,
    pub max_txn_id: u64,
}

/// All fields of `b` equal those of `a`, apart from the databases and
/// their id counter.
pub open spec fn spec_same_but_databases(a: Schema, b: Schema) -> bool {
    &&& a.cluster_id == b.cluster_id
    &&& a.collections == b.collections
    &&& a.nodes == b.nodes
    &&& a.groups == b.groups
    &&& a.replica_states == b.replica_states
    &&& a.jobs == b.jobs
    &&& a.history_jobs == b.history_jobs
    &&& a.root_desc == b.root_desc
    &&& a.next_collection_id == b.next_collection_id
    &&& a.next_shard_id == b.next_shard_id
    &&& a.next_replica_id == b.next_replica_id
    &&& a.next_node_id == b.next_node_id
    &&& a.next_job_id == b.next_job_id
    &&& a.max_txn_id == b.max_txn_id
}

/// All fields equal apart from the collections and their id counter.
pub open spec fn spec_same_but_collections(a: Schema, b: Schema) -> bool {
    &&& a.cluster_id == b.cluster_id
    &&& a.databases == b.databases
    &&& a.nodes == b.nodes
    &&& a.groups == b.groups
    &&& a.replica_states == b.replica_states
    &&& a.jobs == b.jobs
    &&& a.history_jobs == b.history_jobs
    &&& a.root_desc == b.root_desc
    &&& a.next_database_id == b.next_database_id
    &&& a.next_shard_id == b.next_shard_id
    &&& a.next_replica_id == b.next_replica_id
    &&& a.next_node_id == b.next_node_id
    &&& a.next_job_id == b.next_job_id
    &&& a.max_txn_id == b.max_txn_id
}

/// All fields equal apart from the nodes and their id counter.
pub open spec fn spec_same_but_nodes(a: Schema, b: Schema) -> bool {
    &&& a.cluster_id == b.cluster_id
    &&& a.databases == b.databases
    &&& a.collections == b.collections
    &&& a.groups == b.groups
    &&& a.replica_states == b.replica_states
    &&& a.jobs == b.jobs
    &&& a.history_jobs == b.history_jobs
    &&& a.root_desc == b.root_desc
    &&& a.next_database_id == b.next_database_id
    &&& a.next_collection_id == b.next_collection_id
    &&& a.next_shard_id == b.next_shard_id
    &&& a.next_replica_id == b.next_replica_id
    &&& a.next_job_id == b.next_job_id
    &&& a.max_txn_id == b.max_txn_id
}

/// All fields equal apart from groups and replica states.
pub open spec fn spec_same_but_groups(a: Schema, b: Schema) -> bool {
    &&& a.cluster_id == b.cluster_id
    &&& a.databases == b.databases
    &&& a.collections == b.collections
    &&& a.nodes == b.nodes
    &&& a.jobs == b.jobs
    &&& a.history_jobs == b.history_jobs
    &&& a.root_desc == b.root_desc
    &&& a.next_database_id == b.next_database_id
    &&& a.next_collection_id == b.next_collection_id
    &&& a.next_shard_id == b.next_shard_id
    &&& a.next_replica_id == b.next_replica_id
    &&& a.next_node_id == b.next_node_id
    &&& a.next_job_id == b.next_job_id
    &&& a.max_txn_id == b.max_txn_id
}

/// All fields equal apart from the job lists and their id counter.
pub open spec fn spec_same_but_jobs(a: Schema, b: Schema) -> bool {
    &&& a.cluster_id == b.cluster_id
    &&& a.databases == b.databases
    &&& a.collections == b.collections
    &&& a.nodes == b.nodes
    &&& a.groups == b.groups
    &&& a.replica_states == b.replica_states
    &&& a.root_desc == b.root_desc
    &&& a.next_database_id == b.next_database_id
    &&& a.next_collection_id == b.next_collection_id
    &&& a.next_shard_id == b.next_shard_id
    &&& a.next_replica_id == b.next_replica_id
    &&& a.next_node_id == b.next_node_id
    &&& a.max_txn_id == b.max_txn_id
}

/// All fields equal apart from one id counter or marker.
pub open spec fn spec_same_but_counters(a: Schema, b: Schema) -> bool {
    &&& a.cluster_id == b.cluster_id
    &&& a.databases == b.databases
    &&& a.collections == b.collections
    &&& a.nodes == b.nodes
    &&& a.groups == b.groups
    &&& a.replica_states == b.replica_states
    &&& a.jobs == b.jobs
    &&& a.history_jobs == b.history_jobs
    &&& a.root_desc == b.root_desc
}

impl Schema {
    /// Ids and names are unique, and every id lies below its counter.
    pub open spec fn wf(self) -> bool {
        &&& (forall|i: int, j: int|
            0 <= i < self.databases@.len() && 0 <= j < self.databases@.len() && i != j ==> (
            #[trigger] self.databases@[i]).id != (#[trigger] self.databases@[j]).id
                && self.databases@[i].name@ != self.databases@[j].name@)
        &&& (forall|i: int|
            0 <= i < self.databases@.len() ==> (#[trigger] self.databases@[i]).id
                < self.next_database_id)
        &&& (forall|i: int, j: int|
            0 <= i < self.collections@.len() && 0 <= j < self.collections@.len() && i != j ==> (
            #[trigger] self.collections@[i]).id != (#[trigger] self.collections@[j]).id && !(
            self.collections@[i].db == self.collections@[j].db && self.collections@[i].name@
                == self.collections@[j].name@))
        &&& (forall|i: int|
            0 <= i < self.collections@.len() ==> (#[trigger] self.collections@[i]).id
                < self.next_collection_id)
        &&& (forall|i: int, j: int|
            0 <= i < self.nodes@.len() && 0 <= j < self.nodes@.len() && i != j ==> (
            #[trigger] self.nodes@[i]).id != (#[trigger] self.nodes@[j]).id)
        &&& (forall|i: int|
            0 <= i < self.nodes@.len() ==> (#[trigger] self.nodes@[i]).id < self.next_node_id)
        &&& (forall|i: int, j: int|
            0 <= i < self.groups@.len() && 0 <= j < self.groups@.len() && i != j ==> (
            #[trigger] self.groups@[i]).id != (#[trigger] self.groups@[j]).id)
        &&& (forall|i: int, j: int|
            0 <= i < self.replica_states@.len() && 0 <= j < self.replica_states@.len() && i != j
                ==> !((#[trigger] self.replica_states@[i]).group_id == (
            #[trigger] self.replica_states@[j]).group_id && self.replica_states@[i].replica_id
                == self.replica_states@[j].replica_id))
    }

    /// An empty schema for a fresh cluster, counters starting above the
    /// reserved system ids.
    pub fn empty(cluster_id: Vec<u8>) -> (r: Schema)
        ensures
            r.wf(),
            r.cluster_id@ == cluster_id@,
            r.databases@.len() == 0,
            r.collections@.len() == 0,
            r.nodes@.len() == 0,
            r.groups@.len() == 0,
            r.jobs@.len() == 0,
            r.max_txn_id == 0,
            r.next_database_id == crate::meta::SYSTEM_DATABASE_ID + 1,
            r.next_collection_id == crate::meta::FIRST_USER_COLLECTION_ID,
    {
        Schema {
            cluster_id,
            databases: Vec::new(),
            collections: Vec::new(),
            nodes: Vec::new(),
            groups: Vec::new(),
            replica_states: Vec::new(),
            jobs: Vec::new(),
            history_jobs: Vec::new(),
            root_desc: RootDesc { epoch: crate::meta::INITIAL_EPOCH, root_nodes: Vec::new() },
            next_database_id: crate::meta::SYSTEM_DATABASE_ID + 1,
            next_collection_id: crate::meta::FIRST_USER_COLLECTION_ID,
            next_shard_id: 1,
            next_replica_id: crate::meta::INIT_USER_REPLICA_ID + 1,
            next_node_id: crate::meta::FIRST_NODE_ID + 1,
            next_job_id: 1,
            max_txn_id: 0,
        }
    }

    /// The cluster id this schema was bootstrapped with.
    pub fn cluster_id(&self) -> (r: Vec<u8>)
        ensures
            r@ == self.cluster_id@,
    {
        clone_bytes(&self.cluster_id)
    }

    /// Looks a database up by name.
    pub fn get_database(&self, name: &String) -> (r: Option<DatabaseDesc>)
        ensures
            r matches Some(d) ==> (exists|i: int|
                0 <= i < self.databases@.len() && (#[trigger] self.databases@[i]) == d) && d.name@
                == name@,
            r is None ==> (forall|i: int|
                0 <= i < self.databases@.len() ==> (#[trigger] self.databases@[i]).name@ != name@),
    {
        let n = self.databases.len();
        let mut i: usize = 0;
        while i < n
            invariant
                i <= n,
                n == self.databases@.len(),
                forall|j: int| 0 <= j < i ==> (#[trigger] self.databases@[j]).name@ != name@,
            decreases n - i,
        {
            if self.databases[i].name == *name {
                return Some(clone_database(&self.databases[i]));
            }
            i = i + 1;
        }
        None
    }

    /// All databases, in stored order.
    pub fn list_database(&self) -> (r: Vec<DatabaseDesc>)
        ensures
            r@ == self.databases@,
    {
        let mut out: Vec<DatabaseDesc> = Vec::new();
        let n = self.databases.len();
        let mut i: usize = 0;
        while i < n
            invariant
                i <= n,
                n == self.databases@.len(),
                out@ == self.databases@.subrange(0, i as int),
            decreases n - i,
        {
            out.push(clone_database(&self.databases[i]));
            i = i + 1;
            assert(self.databases@.subrange(0, i as int) =~= self.databases@.subrange(0, i - 1).push(
                self.databases@[i - 1],
            ));
        }
        assert(self.databases@.subrange(0, n as int) =~= self.databases@);
        out
    }

    /// Creates a database under a fresh id; the name must be unused.
    pub fn create_database(&mut self, name: String) -> (r: Result<DatabaseDesc, Error>)
        requires
            old(self).wf(),
            old(self).next_database_id < u64::MAX,
        ensures
            final(self).wf(),
            (exists|i: int|
                0 <= i < old(self).databases@.len() && (#[trigger] old(self).databases@[i]).name@
                    == name@) ==> (r matches Err(Error::AlreadyExists(_)) && *final(self) == *old(self)),
            (forall|i: int|
                0 <= i < old(self).databases@.len() ==> (#[trigger] old(self).databases@[i]).name@
                    != name@) ==> (r matches Ok(d) && d.id == old(self).next_database_id && d.name@
                == name@ && final(self).databases@ == old(self).databases@.push(d) && final(self).next_database_id == old(self).next_database_id + 1 && spec_same_but_databases(
                *old(self),
                *final(self),
            )),
    {
        let n = self.databases.len();
        let mut i: usize = 0;
        while i < n
            invariant
                i <= n,
                n == self.databases@.len(),
                *self == *old(self),
                self.wf(),
                forall|j: int| 0 <= j < i ==> (#[trigger] self.databases@[j]).name@ != name@,
            decreases n - i,
        {
            if self.databases[i].name == name {
                return Err(Error::AlreadyExists(name));
            }
            i = i + 1;
        }
        let d = DatabaseDesc { id: self.next_database_id, name };
        let out = clone_database(&d);
        self.databases.push(d);
        self.next_database_id = self.next_database_id + 1;
        Ok(out)
    }

    /// Removes the database record with `db`'s id; an absent id is a
    /// no-op, so replaying a delete is harmless.
    pub fn delete_database(&mut self, db: &DatabaseDesc) -> (r: Result<u64, Error>)
        requires
            old(self).wf(),
        ensures
            final(self).wf(),
            r matches Ok(id) && id == db.id,
            spec_same_but_databases(*old(self), *final(self)),
            final(self).next_database_id == old(self).next_database_id,
            (exists|i: int|
                0 <= i < old(self).databases@.len() && (#[trigger] old(self).databases@[i]).id
                    == db.id) ==> (exists|i: int|
                0 <= i < old(self).databases@.len() && (#[trigger] old(self).databases@[i]).id
                    == db.id && final(self).databases@ == old(self).databases@.remove(i)),
            (forall|i: int|
                0 <= i < old(self).databases@.len() ==> (#[trigger] old(self).databases@[i]).id
                    != db.id) ==> final(self).databases@ == old(self).databases@,
    {
        let n = self.databases.len();
        let mut i: usize = 0;
        while i < n
            invariant
                i <= n,
                n == self.databases@.len(),
                *self == *old(self),
                self.wf(),
                forall|j: int| 0 <= j < i ==> (#[trigger] self.databases@[j]).id != db.id,
            decreases n - i,
        {
            if self.databases[i].id == db.id {
                let ghost pre = self.databases@;
                self.databases.remove(i);
                proof {
                    assert forall|a: int, b: int|
                        0 <= a < self.databases@.len() && 0 <= b < self.databases@.len() && a
                            != b implies (#[trigger] self.databases@[a]).id != (
                    #[trigger] self.databases@[b]).id && self.databases@[a].name@
                        != self.databases@[b].name@ by {
                        let pa = if a < i as int { a } else { a + 1 };
                        let pb = if b < i as int { b } else { b + 1 };
                        assert(self.databases@[a] == pre[pa]);
                        assert(self.databases@[b] == pre[pb]);
                    }
                    assert forall|a: int| 0 <= a < self.databases@.len() implies (
                    #[trigger] self.databases@[a]).id < self.next_database_id by {
                        let pa = if a < i as int { a } else { a + 1 };
                        assert(self.databases@[a] == pre[pa]);
                    }
                }
                return Ok(db.id);
            }
            i = i + 1;
        }
        Ok(db.id)
    }

    /// Looks a collection up by database id and name.
    pub fn get_collection(&self, db: u64, name: &String) -> (r: Option<CollectionDesc>)
        ensures
            r matches Some(c) ==> (exists|i: int|
                0 <= i < self.collections@.len() && (#[trigger] self.collections@[i]) == c)
                && c.name@ == name@ && c.db == db,
            r is None ==> (forall|i: int|
                0 <= i < self.collections@.len() ==> !((#[trigger] self.collections@[i]).db == db
                    && self.collections@[i].name@ == name@)),
    {
        let n = self.collections.len();
        let mut i: usize = 0;
        while i < n
            invariant
                i <= n,
                n == self.collections@.len(),
                forall|j: int|
                    0 <= j < i ==> !((#[trigger] self.collections@[j]).db == db
                        && self.collections@[j].name@ == name@),
            decreases n - i,
        {
            if self.collections[i].db == db && self.collections[i].name == *name {
                return Some(clone_collection(&self.collections[i]));
            }
            i = i + 1;
        }
        None
    }

    /// All collections, in stored order.
    pub fn list_collection(&self) -> (r: Vec<CollectionDesc>)
        ensures
            r@ == self.collections@,
    {
        let mut out: Vec<CollectionDesc> = Vec::new();
        let n = self.collections.len();
        let mut i: usize = 0;
        while i < n
            invariant
                i <= n,
                n == self.collections@.len(),
                out@ == self.collections@.subrange(0, i as int),
            decreases n - i,
        {
            out.push(clone_collection(&self.collections[i]));
            i = i + 1;
            assert(self.collections@.subrange(0, i as int) =~= self.collections@.subrange(
                0,
                i - 1,
            ).push(self.collections@[i - 1]));
        }
        assert(self.collections@.subrange(0, n as int) =~= self.collections@);
        out
    }

    /// Registers a collection under a fresh id; the name must be unused
    /// within its database.
    pub fn prepare_create_collection(&mut self, db: u64, name: String) -> (r: Result<
        CollectionDesc,
        Error,
    >)
        requires
            old(self).wf(),
            old(self).next_collection_id < u64::MAX,
        ensures
            final(self).wf(),
            (exists|i: int|
                0 <= i < old(self).collections@.len() && (#[trigger] old(self).collections@[i]).db
                    == db && old(self).collections@[i].name@ == name@) ==> (r matches Err(
                Error::AlreadyExists(_),
            ) && *final(self) == *old(self)),
            (forall|i: int|
                0 <= i < old(self).collections@.len() ==> !((#[trigger] old(self).collections@[i]).db == db && old(self).collections@[i].name@ == name@)) ==> (
            r matches Ok(c) && c.id == old(self).next_collection_id && c.db == db && c.name@
                == name@ && final(self).collections@ == old(self).collections@.push(c) && final(self).next_collection_id == old(self).next_collection_id + 1 && spec_same_but_collections(
                *old(self),
                *final(self),
            )),
    {
        let n = self.collections.len();
        let mut i: usize = 0;
        while i < n
            invariant
                i <= n,
                n == self.collections@.len(),
                *self == *old(self),
                self.wf(),
                forall|j: int|
                    0 <= j < i ==> !((#[trigger] self.collections@[j]).db == db
                        && self.collections@[j].name@ == name@),
            decreases n - i,
        {
            if self.collections[i].db == db && self.collections[i].name == name {
                return Err(Error::AlreadyExists(name));
            }
            i = i + 1;
        }
        let c = CollectionDesc { id: self.next_collection_id, db, name };
        let out = clone_collection(&c);
        self.collections.push(c);
        self.next_collection_id = self.next_collection_id + 1;
        Ok(out)
    }

    /// Removes the collection record with `collection`'s id; an absent id
    /// is a no-op.
    pub fn delete_collection(&mut self, collection: &CollectionDesc) -> (r: Result<(), Error>)
        requires
            old(self).wf(),
        ensures
            final(self).wf(),
            r is Ok,
            spec_same_but_collections(*old(self), *final(self)),
            final(self).next_collection_id == old(self).next_collection_id,
            (exists|i: int|
                0 <= i < old(self).collections@.len() && (#[trigger] old(self).collections@[i]).id
                    == collection.id) ==> (exists|i: int|
                0 <= i < old(self).collections@.len() && (#[trigger] old(self).collections@[i]).id
                    == collection.id && final(self).collections@ == old(self).collections@.remove(
                    i,
                )),
            (forall|i: int|
                0 <= i < old(self).collections@.len() ==> (#[trigger] old(self).collections@[i]).id
                    != collection.id) ==> final(self).collections@ == old(self).collections@,
    {
        let n = self.collections.len();
        let mut i: usize = 0;
        while i < n
            invariant
                i <= n,
                n == self.collections@.len(),
                *self == *old(self),
                self.wf(),
                forall|j: int| 0 <= j < i ==> (#[trigger] self.collections@[j]).id != collection.id,
            decreases n - i,
        {
            if self.collections[i].id == collection.id {
                let ghost pre = self.collections@;
                self.collections.remove(i);
                proof {
                    assert forall|a: int, b: int|
                        0 <= a < self.collections@.len() && 0 <= b < self.collections@.len() && a
                            != b implies (#[trigger] self.collections@[a]).id != (
                    #[trigger] self.collections@[b]).id && !(self.collections@[a].db
                        == self.collections@[b].db && self.collections@[a].name@
                        == self.collections@[b].name@) by {
                        let pa = if a < i as int { a } else { a + 1 };
                        let pb = if b < i as int { b } else { b + 1 };
                        assert(self.collections@[a] == pre[pa]);
                        assert(self.collections@[b] == pre[pb]);
                    }
                    assert forall|a: int| 0 <= a < self.collections@.len() implies (
                    #[trigger] self.collections@[a]).id < self.next_collection_id by {
                        let pa = if a < i as int { a } else { a + 1 };
                        assert(self.collections@[a] == pre[pa]);
                    }
                }
                return Ok(());
            }
            i = i + 1;
        }
        Ok(())
    }

    /// Looks a node up by id.
    pub fn get_node(&self, id: u64) -> (r: Option<NodeDesc>)
        ensures
            r matches Some(d) ==> (exists|i: int|
                0 <= i < self.nodes@.len() && (#[trigger] self.nodes@[i]) == d) && d.id == id,
            r is None ==> (forall|i: int|
                0 <= i < self.nodes@.len() ==> (#[trigger] self.nodes@[i]).id != id),
    {
        let n = self.nodes.len();
        let mut i: usize = 0;
        while i < n
            invariant
                i <= n,
                n == self.nodes@.len(),
                forall|j: int| 0 <= j < i ==> (#[trigger] self.nodes@[j]).id != id,
            decreases n - i,
        {
            if self.nodes[i].id == id {
                return Some(clone_node(&self.nodes[i]));
            }
            i = i + 1;
        }
        None
    }

    /// All nodes, in stored order.
    pub fn list_node(&self) -> (r: Vec<NodeDesc>)
        ensures
            r@ == self.nodes@,
    {
        let mut out: Vec<NodeDesc> = Vec::new();
        let n = self.nodes.len();
        let mut i: usize = 0;
        while i < n
            invariant
                i <= n,
                n == self.nodes@.len(),
                out@ == self.nodes@.subrange(0, i as int),
            decreases n - i,
        {
            out.push(clone_node(&self.nodes[i]));
            i = i + 1;
            assert(self.nodes@.subrange(0, i as int) =~= self.nodes@.subrange(0, i - 1).push(
                self.nodes@[i - 1],
            ));
        }
        assert(self.nodes@.subrange(0, n as int) =~= self.nodes@);
        out
    }

    /// Adds a node under a fresh id, Active from the start.
    pub fn add_node(&mut self, addr: String, capacity: NodeCapacity) -> (r: NodeDesc)
        requires
            old(self).wf(),
            old(self).next_node_id < u64::MAX,
        ensures
            final(self).wf(),
            r.id == old(self).next_node_id,
            r.addr@ == addr@,
            r.capacity == Some(capacity),
            r.status == NodeStatus::Active,
            final(self).nodes@ == old(self).nodes@.push(r),
            final(self).next_node_id == old(self).next_node_id + 1,
            spec_same_but_nodes(*old(self), *final(self)),
    {
        let d = NodeDesc {
            id: self.next_node_id,
            addr,
            capacity: Some(capacity),
            status: NodeStatus::Active,
        };
        let out = clone_node(&d);
        self.nodes.push(d);
        self.next_node_id = self.next_node_id + 1;
        out
    }

    /// Replaces the node record with the same id.
    pub fn update_node(&mut self, desc: NodeDesc) -> (r: Result<(), Error>)
        requires
            old(self).wf(),
        ensures
            final(self).wf(),
            spec_same_but_nodes(*old(self), *final(self)),
            final(self).next_node_id == old(self).next_node_id,
            (exists|i: int|
                0 <= i < old(self).nodes@.len() && (#[trigger] old(self).nodes@[i]).id == desc.id)
                ==> (r is Ok && exists|i: int|
                0 <= i < old(self).nodes@.len() && (#[trigger] old(self).nodes@[i]).id == desc.id
                    && final(self).nodes@ == old(self).nodes@.update(i, desc)),
            (forall|i: int|
                0 <= i < old(self).nodes@.len() ==> (#[trigger] old(self).nodes@[i]).id != desc.id)
                ==> (r matches Err(Error::InvalidArgument(_)) && *final(self) == *old(self)),
    {
        let n = self.nodes.len();
        let mut i: usize = 0;
        while i < n
            invariant
                i <= n,
                n == self.nodes@.len(),
                *self == *old(self),
                self.wf(),
                forall|j: int| 0 <= j < i ==> (#[trigger] self.nodes@[j]).id != desc.id,
            decreases n - i,
        {
            if self.nodes[i].id == desc.id {
                self.nodes.set(i, desc);
                return Ok(());
            }
            i = i + 1;
        }
        Err(Error::InvalidArgument("node not found".to_string()))
    }

    /// The epoch of a group, if it exists.
    pub fn group_epoch(&self, id: u64) -> (r: Option<u64>)
        ensures
            r == spec_group_epoch_of(self.groups@, id),
            r is None <==> (forall|i: int|
                0 <= i < self.groups@.len() ==> (#[trigger] self.groups@[i]).id != id),
    {
        let n = self.groups.len();
        let mut i: usize = 0;
        while i < n
            invariant
                i <= n,
                n == self.groups@.len(),
                forall|j: int| 0 <= j < i ==> (#[trigger] self.groups@[j]).id != id,
            decreases n - i,
        {
            if self.groups[i].id == id {
                proof {
                    lemma_group_epoch_at(self.groups@, id, i as int);
                }
                return Some(self.groups[i].epoch);
            }
            i = i + 1;
        }
        proof {
            lemma_group_epoch_absent(self.groups@, id);
        }
        None
    }

    /// Looks a group up by id.
    pub fn get_group(&self, id: u64) -> (r: Option<GroupDesc>)
        ensures
            r matches Some(g) ==> (exists|i: int|
                0 <= i < self.groups@.len() && spec_group_eq(#[trigger] self.groups@[i], g))
                && g.id == id,
            r is None ==> (forall|i: int|
                0 <= i < self.groups@.len() ==> (#[trigger] self.groups@[i]).id != id),
    {
        let n = self.groups.len();
        let mut i: usize = 0;
        while i < n
            invariant
                i <= n,
                n == self.groups@.len(),
                forall|j: int| 0 <= j < i ==> (#[trigger] self.groups@[j]).id != id,
            decreases n - i,
        {
            if self.groups[i].id == id {
                return Some(clone_group(&self.groups[i]));
            }
            i = i + 1;
        }
        None
    }

    /// Upserts a group descriptor and/or a replica state, as node reports
    /// are merged.
    pub fn update_group_replica(&mut self, group: Option<GroupDesc>, state: Option<ReplicaState>)
        requires
            old(self).wf(),
        ensures
            final(self).wf(),
            spec_same_but_groups(*old(self), *final(self)),
            (match group {
                Some(g) => final(self).groups@ == spec_upsert_group(old(self).groups@, g),
                None => final(self).groups@ == old(self).groups@,
            }),
            (match state {
                Some(s) => final(self).replica_states@ == spec_upsert_state(
                    old(self).replica_states@,
                    s,
                ),
                None => final(self).replica_states@ == old(self).replica_states@,
            }),
    {
        match group {
            Some(g) => {
                let n = self.groups.len();
                let mut i: usize = 0;
                let mut found: Option<usize> = None;
                while i < n && found.is_none()
                    invariant
                        i <= n,
                        n == self.groups@.len(),
                        *self == *old(self),
                        self.wf(),
                        found is None ==> (forall|j: int|
                            0 <= j < i ==> (#[trigger] self.groups@[j]).id != g.id),
                        found matches Some(k) ==> 0 <= k < n && self.groups@[k as int].id == g.id,
                    decreases n - i + (if found.is_none() { 1int } else { 0int }),
                {
                    if self.groups[i].id == g.id {
                        found = Some(i);
                    } else {
                        i = i + 1;
                    }
                }
                match found {
                    Some(k) => {
                        proof {
                            lemma_group_at(self.groups@, g, k as int);
                        }
                        self.groups.set(k, g);
                    },
                    None => {
                        proof {
                            lemma_group_absent(self.groups@, g);
                        }
                        self.groups.push(g);
                    },
                }
            },
            None => {},
        }
        match state {
            Some(s) => {
                let n = self.replica_states.len();
                let mut i: usize = 0;
                let mut found: Option<usize> = None;
                while i < n && found.is_none()
                    invariant
                        i <= n,
                        n == self.replica_states@.len(),
                        self.replica_states@ == old(self).replica_states@,
                        self.wf(),
                        spec_same_but_groups(*old(self), *self),
                        (match group {
                            Some(g) => self.groups@ == spec_upsert_group(old(self).groups@, g),
                            None => self.groups@ == old(self).groups@,
                        }),
                        found is None ==> (forall|j: int|
                            0 <= j < i ==> !((#[trigger] self.replica_states@[j]).group_id
                                == s.group_id && self.replica_states@[j].replica_id
                                == s.replica_id)),
                        found matches Some(k) ==> 0 <= k < n && self.replica_states@[k as int].group_id
                            == s.group_id && self.replica_states@[k as int].replica_id
                            == s.replica_id,
                    decreases n - i + (if found.is_none() { 1int } else { 0int }),
                {
                    if self.replica_states[i].group_id == s.group_id
                        && self.replica_states[i].replica_id == s.replica_id {
                        found = Some(i);
                    } else {
                        i = i + 1;
                    }
                }
                match found {
                    Some(k) => {
                        proof {
                            lemma_state_at(self.replica_states@, s, k as int);
                        }
                        self.replica_states.set(k, s);
                    },
                    None => {
                        proof {
                            lemma_state_absent(self.replica_states@, s);
                        }
                        self.replica_states.push(s);
                    },
                }
            },
            None => {},
        }
    }

    /// The reported state of one replica, if any.
    pub fn get_replica_state(&self, group_id: u64, replica_id: u64) -> (r: Option<ReplicaState>)
        ensures
            r == spec_state_of(self.replica_states@, group_id, replica_id),
            r matches Some(s) ==> s.group_id == group_id && s.replica_id == replica_id,
    {
        let n = self.replica_states.len();
        let mut i: usize = 0;
        while i < n
            invariant
                i <= n,
                n == self.replica_states@.len(),
                forall|j: int|
                    0 <= j < i ==> !((#[trigger] self.replica_states@[j]).group_id == group_id
                        && self.replica_states@[j].replica_id == replica_id),
            decreases n - i,
        {
            if self.replica_states[i].group_id == group_id && self.replica_states[i].replica_id
                == replica_id {
                proof {
                    lemma_state_of_at(self.replica_states@, group_id, replica_id, i as int);
                }
                return Some(self.replica_states[i]);
            }
            i = i + 1;
        }
        proof {
            lemma_state_of_absent(self.replica_states@, group_id, replica_id);
        }
        None
    }

    /// All reported replica states of one group, in stored order.
    pub fn group_replica_states(&self, group_id: u64) -> (r: Vec<ReplicaState>)
        ensures
            r@ == spec_states_of_group(self.replica_states@, group_id),
    {
        let mut out: Vec<ReplicaState> = Vec::new();
        let n = self.replica_states.len();
        let mut i: usize = 0;
        while i < n
            invariant
                i <= n,
                n == self.replica_states@.len(),
                out@ == spec_states_of_group(self.replica_states@.take(i as int), group_id),
            decreases n - i,
        {
            if self.replica_states[i].group_id == group_id {
                out.push(self.replica_states[i]);
            }
            i = i + 1;
            proof {
                assert(self.replica_states@.take(i as int).drop_last() =~= self.replica_states@.take(
                    i - 1,
                ));
                assert(self.replica_states@.take(i as int).last() == self.replica_states@[i - 1]);
            }
        }
        proof {
            assert(self.replica_states@.take(n as int) =~= self.replica_states@);
        }
        out
    }

    /// All reported replica states, in stored order.
    pub fn list_replica_state(&self) -> (r: Vec<ReplicaState>)
        ensures
            r@ == self.replica_states@,
    {
        let mut out: Vec<ReplicaState> = Vec::new();
        let n = self.replica_states.len();
        let mut i: usize = 0;
        while i < n
            invariant
                i <= n,
                n == self.replica_states@.len(),
                out@ == self.replica_states@.subrange(0, i as int),
            decreases n - i,
        {
            out.push(self.replica_states[i]);
            i = i + 1;
            assert(self.replica_states@.subrange(0, i as int) =~= self.replica_states@.subrange(
                0,
                i - 1,
            ).push(self.replica_states@[i - 1]));
        }
        assert(self.replica_states@.subrange(0, n as int) =~= self.replica_states@);
        out
    }

    /// Hands out the next shard id.
    pub fn next_shard_id(&mut self) -> (r: u64)
        requires
            old(self).wf(),
            old(self).next_shard_id < u64::MAX,
        ensures
            final(self).wf(),
            r == old(self).next_shard_id,
            final(self).next_shard_id == old(self).next_shard_id + 1,
            spec_same_but_counters(*old(self), *final(self)),
            final(self).next_database_id == old(self).next_database_id,
            final(self).next_collection_id == old(self).next_collection_id,
            final(self).next_replica_id == old(self).next_replica_id,
            final(self).next_node_id == old(self).next_node_id,
            final(self).next_job_id == old(self).next_job_id,
            final(self).max_txn_id == old(self).max_txn_id,
    {
        let r = self.next_shard_id;
        self.next_shard_id = self.next_shard_id + 1;
        r
    }

    /// Hands out the next replica id.
    pub fn next_replica_id(&mut self) -> (r: u64)
        requires
            old(self).wf(),
            old(self).next_replica_id < u64::MAX,
        ensures
            final(self).wf(),
            r == old(self).next_replica_id,
            final(self).next_replica_id == old(self).next_replica_id + 1,
            spec_same_but_counters(*old(self), *final(self)),
            final(self).next_database_id == old(self).next_database_id,
            final(self).next_collection_id == old(self).next_collection_id,
            final(self).next_shard_id == old(self).next_shard_id,
            final(self).next_node_id == old(self).next_node_id,
            final(self).next_job_id == old(self).next_job_id,
            final(self).max_txn_id == old(self).max_txn_id,
    {
        let r = self.next_replica_id;
        self.next_replica_id = self.next_replica_id + 1;
        r
    }

    /// Persists a new transaction-id marker.
    pub fn set_txn_id(&mut self, txn_id: u64)
        requires
            old(self).wf(),
        ensures
            final(self).wf(),
            final(self).max_txn_id == txn_id,
            spec_same_but_counters(*old(self), *final(self)),
            final(self).next_database_id == old(self).next_database_id,
            final(self).next_collection_id == old(self).next_collection_id,
            final(self).next_shard_id == old(self).next_shard_id,
            final(self).next_replica_id == old(self).next_replica_id,
            final(self).next_node_id == old(self).next_node_id,
            final(self).next_job_id == old(self).next_job_id,
    {
        self.max_txn_id = txn_id;
    }

    /// The persisted transaction-id marker.
    pub fn max_txn_id(&self) -> (r: u64)
        ensures
            r == self.max_txn_id,
    {
        self.max_txn_id
    }

    /// The current root descriptor.
    pub fn get_root_desc(&self) -> (r: RootDesc)
        ensures
            r.epoch == self.root_desc.epoch,
            r.root_nodes@ == self.root_desc.root_nodes@,
    {
        clone_root_desc(&self.root_desc)
    }

    /// Appends a durable job under a fresh id and returns the id.
    pub fn submit_job(&mut self, job: Job) -> (r: u64)
        requires
            old(self).wf(),
            old(self).next_job_id < u64::MAX,
        ensures
            final(self).wf(),
            r == old(self).next_job_id,
            final(self).jobs@ == old(self).jobs@.push(
                BackgroundJob { id: old(self).next_job_id, job: Some(job) },
            ),
            final(self).next_job_id == old(self).next_job_id + 1,
            spec_same_but_jobs(*old(self), *final(self)),
            final(self).history_jobs@ == old(self).history_jobs@,
    {
        let id = self.next_job_id;
        self.jobs.push(BackgroundJob { id, job: Some(job) });
        self.next_job_id = self.next_job_id + 1;
        id
    }
}

} // verus!
