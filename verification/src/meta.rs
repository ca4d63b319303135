//! Cluster metadata descriptors: nodes, replicas, groups, shards,
//! databases and collections, and the identity of a node.
//!
//! These are the plain values that the root coordination plane reads and
//! writes. The wire and storage representations live outside the crate;
//! here each descriptor is ordinary data.

use vstd::prelude::*;

verus! {

/// The raft group that hosts the cluster metadata.
pub const ROOT_GROUP_ID: u64 = 0;

/// The first user group created at bootstrap.
pub const INIT_USER_GROUP_ID: u64 = 1;

/// Replica id of the root group's seed replica.
pub const FIRST_REPLICA_ID: u64 = 1;

/// Replica id of the initial user group's seed replica.
pub const INIT_USER_REPLICA_ID: u64 = 2;

/// Node id assigned to the bootstrapping node.
pub const FIRST_NODE_ID: u64 = 0;

/// Epoch of a freshly created group.
pub const INITIAL_EPOCH: u64 = 0;

/// Id of the system database; it cannot be deleted.
pub const SYSTEM_DATABASE_ID: u64 = 1;

/// Ids below this belong to system collections and cannot be deleted.
pub const FIRST_USER_COLLECTION_ID: u64 = 1024;

/// Lifecycle status of a storage node.
#[derive(Debug, Clone, Copy, PartialEq, Eq, Structural)]
pub enum NodeStatus {
    Active,
    Cordoned,
    Draining,
    Drained,
    Decommissioned,
}

/// Role of a replica within its raft group.
#[derive(Debug, Clone, Copy, PartialEq, Eq, Structural)]
pub enum ReplicaRole {
    Voter,
    Learner,
    IncomingVoter,
    DemotingVoter,
}

/// Raft-level role reported by a replica.
#[derive(Debug, Clone, Copy, PartialEq, Eq, Structural)]
pub enum RaftRole {
    Follower,
    Candidate,
    Leader,
}

/// Advertised capacity of a node.
#[derive(Debug, Clone, Copy, PartialEq, Eq, Structural)]
pub struct NodeCapacity {
    pub cpu_nums: u64,
    pub replica_count: u64,
    pub leader_count: u64,
}

/// A storage node known to the root.
#[derive(Debug, Clone, PartialEq, Eq)]
#[verifier::ext_equal]
pub struct NodeDesc {
    pub id: u64,
    pub addr: String,
    pub capacity: Option<NodeCapacity>,
    pub status: NodeStatus,
}

/// A replica of a group placed on a node.
#[derive(Debug, Clone, Copy, PartialEq, Eq, Structural)]
pub struct ReplicaDesc {
    pub id: u64,
    pub node_id: u64,
    pub role: ReplicaRole,
}

/// Key range `[start, end)` owned by a shard.
#[derive(Debug, Clone, PartialEq, Eq)]
#[verifier::ext_equal]
pub struct RangePartition {
    pub start: Vec<u8>,
    pub end: Vec<u8>,
}

/// A shard: a contiguous key range within a collection.
#[derive(Debug, Clone, PartialEq, Eq)]
#[verifier::ext_equal]
pub struct ShardDesc {
    pub id: u64,
    pub collection_id: u64,
    pub range: Option<RangePartition>,
}

/// A raft-replicated group owning a set of shards.
#[derive(Debug, Clone, PartialEq, Eq)]
#[verifier::ext_equal]
pub struct GroupDesc {
    pub id: u64,
    pub epoch: u64,
    pub shards: Vec<ShardDesc>,
    pub replicas: Vec<ReplicaDesc>,
}

/// Raft progress reported for one replica.
#[derive(Debug, Clone, Copy, PartialEq, Eq, Structural)]
pub struct ReplicaState {
    pub replica_id: u64,
    pub group_id: u64,
    pub node_id: u64,
    pub term: u64,
    pub role: RaftRole,
}

/// The set of nodes hosting the root group, with its epoch.
#[derive(Debug, Clone, PartialEq, Eq)]
#[verifier::ext_equal]
pub struct RootDesc {
    pub epoch: u64,
    pub root_nodes: Vec<NodeDesc>,
}

/// A named database.
#[derive(Debug, Clone, PartialEq, Eq)]
#[verifier::ext_equal]
pub struct DatabaseDesc {
    pub id: u64,
    pub name: String,
}

/// A named collection within a database.
#[derive(Debug, Clone, PartialEq, Eq)]
#[verifier::ext_equal]
pub struct CollectionDesc {
    pub id: u64,
    pub db: u64,
    pub name: String,
}

/// Identity persisted once per data directory.
#[derive(Debug, Clone, PartialEq, Eq)]
#[verifier::ext_equal]
pub struct NodeIdent {
    pub cluster_id: Vec<u8>,
    pub node_id: u64,
}

/// In-flight schedule delta reported by a group leader.
#[derive(Debug, Clone, PartialEq, Eq)]
#[verifier::ext_equal]
pub struct ScheduleState {
    pub group_id: u64,
    pub epoch: u64,
    pub incoming_replicas: Vec<ReplicaDesc>,
    pub outgoing_replicas: Vec<ReplicaDesc>,
}

} // verus!
