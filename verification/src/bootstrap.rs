//! Bootstrap and join decisions for a starting node.
//!
//! Whether a node bootstraps a new cluster or joins an existing one is a
//! pure decision over its persisted identity and configuration; the seed
//! descriptors of a fresh cluster are plain values; and the join loop's
//! backoff follows a fixed doubling schedule capped at two minutes. The
//! RPCs, engine writes and sleeps around these decisions live outside
//! the crate.

use vstd::prelude::*;

use crate::error::Error;
use crate::meta::{
    GroupDesc, NodeDesc, NodeIdent, NodeStatus, ReplicaDesc, ReplicaRole, RootDesc, FIRST_NODE_ID,
    FIRST_REPLICA_ID, INITIAL_EPOCH, INIT_USER_GROUP_ID, INIT_USER_REPLICA_ID, ROOT_GROUP_ID,
};

verus! {

/// The backoff cap of the join loop, in seconds.
pub const MAX_JOIN_BACKOFF_SECS: u64 = 120;

/// What a starting node does about cluster membership.
#[derive(Debug, Clone, Copy, PartialEq, Eq, Structural)]
pub enum BootstrapAction {
    /// Identity already persisted: reuse it and reload the root.
    ReuseExisting,
    /// `--init` was given: bootstrap a fresh cluster.
    BootstrapCluster,
    /// Otherwise: join through the configured seed addresses.
    JoinCluster,
}

/// Decides between reusing a persisted identity, bootstrapping and
/// joining. A persisted identity always wins; `--init` bootstraps.
pub fn bootstrap_or_join_decision(has_ident: bool, init: bool) -> (r: BootstrapAction)
    ensures
        has_ident ==> r == BootstrapAction::ReuseExisting,
        !has_ident && init ==> r == BootstrapAction::BootstrapCluster,
        !has_ident && !init ==> r == BootstrapAction::JoinCluster,
{
    if has_ident {
        BootstrapAction::ReuseExisting
    } else if init {
        BootstrapAction::BootstrapCluster
    } else {
        BootstrapAction::JoinCluster
    }
}

/// The join list with the node's own address removed.
pub open spec fn spec_filtered_join_list(join_list: Seq<String>, local_addr: Seq<char>) -> Seq<
    String,
>
    decreases join_list.len(),
{
    if join_list.len() == 0 {
        join_list
    } else {
        let rest = spec_filtered_join_list(join_list.drop_last(), local_addr);
        if join_list.last()@ == local_addr {
            rest
        } else {
            rest.push(join_list.last())
        }
    }
}

/// Filters the node's own address out of the join list; an empty result
/// leaves nothing to join and is rejected.
pub fn filter_join_list(join_list: Vec<String>, local_addr: &String) -> (r: Result<
    Vec<String>,
    Error,
>)
    ensures
        spec_filtered_join_list(join_list@, local_addr@).len() == 0 ==> r matches Err(
            Error::InvalidArgument(_),
        ),
        spec_filtered_join_list(join_list@, local_addr@).len() > 0 ==> (r matches Ok(l) && l@
            == spec_filtered_join_list(join_list@, local_addr@)),
{
    let ghost j0 = join_list@;
    let mut rest = join_list;
    let mut out: Vec<String> = Vec::new();
    let ghost i: int = 0;
    let ghost n = j0.len() as int;
    while rest.len() > 0
        invariant
            0 <= i <= n,
            n == j0.len(),
            rest@ == j0.skip(i),
            out@ == spec_filtered_join_list(j0.take(i), local_addr@),
        decreases rest@.len(),
    {
        let addr = rest.remove(0);
        proof {
            assert(addr == j0[i]);
            assert(rest@ =~= j0.skip(i + 1));
        }
        if !(addr == *local_addr) {
            out.push(addr);
        }
        proof {
            i = i + 1;
            assert(j0.take(i).drop_last() =~= j0.take(i - 1));
            assert(j0.take(i).last() == j0[i - 1]);
        }
    }
    proof {
        assert(j0.take(n) =~= j0);
        assert(i == n);
    }
    if out.len() == 0 {
        return Err(Error::InvalidArgument("the filtered join list is empty".to_string()));
    }
    Ok(out)
}

/// The next join backoff: doubled, capped at two minutes.
pub fn next_backoff(backoff: u64) -> (r: u64)
    requires
        backoff >= 1,
    ensures
        r == (if 2 * backoff <= MAX_JOIN_BACKOFF_SECS {
            2 * backoff
        } else {
            MAX_JOIN_BACKOFF_SECS as int
        }),
        1 <= r <= MAX_JOIN_BACKOFF_SECS,
{
    if backoff <= 60 {
        backoff * 2
    } else {
        MAX_JOIN_BACKOFF_SECS
    }
}

/// The node identity persisted once per data directory.
pub fn make_node_ident(cluster_id: Vec<u8>, node_id: u64) -> (r: NodeIdent)
    ensures
        r.cluster_id@ == cluster_id@,
        r.node_id == node_id,
{
    NodeIdent { cluster_id, node_id }
}

/// The seed data of a fresh cluster: the root group, an initial empty
/// user group, and the root descriptor naming this node.
#[derive(Debug, Clone, PartialEq, Eq)]
#[verifier::ext_equal]
pub struct InitialClusterData {
    pub root_group: GroupDesc,
    pub init_group: GroupDesc,
    pub root_desc: RootDesc,
}

/// Builds the seed data a bootstrapping node writes before serving: the
/// root group and the initial user group each hold one voter replica on
/// this node, at the initial epoch, and the root descriptor lists this
/// node alone.
pub fn initial_cluster_data(addr: &String) -> (r: InitialClusterData)
    ensures
        r.root_group.id == ROOT_GROUP_ID,
        r.root_group.epoch == INITIAL_EPOCH,
        r.root_group.shards@.len() == 0,
        r.root_group.replicas@.len() == 1,
        r.root_group.replicas@[0] == (ReplicaDesc {
            id: FIRST_REPLICA_ID,
            node_id: FIRST_NODE_ID,
            role: ReplicaRole::Voter,
        }),
        r.init_group.id == INIT_USER_GROUP_ID,
        r.init_group.epoch == INITIAL_EPOCH,
        r.init_group.shards@.len() == 0,
        r.init_group.replicas@.len() == 1,
        r.init_group.replicas@[0] == (ReplicaDesc {
            id: INIT_USER_REPLICA_ID,
            node_id: FIRST_NODE_ID,
            role: ReplicaRole::Voter,
        }),
        r.root_desc.epoch == INITIAL_EPOCH,
        r.root_desc.root_nodes@.len() == 1,
        r.root_desc.root_nodes@[0].id == FIRST_NODE_ID,
        r.root_desc.root_nodes@[0].addr@ == addr@,
        r.root_desc.root_nodes@[0].status == NodeStatus::Active,
{
    let mut root_replicas: Vec<ReplicaDesc> = Vec::new();
    root_replicas.push(
        ReplicaDesc { id: FIRST_REPLICA_ID, node_id: FIRST_NODE_ID, role: ReplicaRole::Voter },
    );
    let root_group = GroupDesc {
        id: ROOT_GROUP_ID,
        epoch: INITIAL_EPOCH,
        shards: Vec::new(),
        replicas: root_replicas,
    };
    let mut init_replicas: Vec<ReplicaDesc> = Vec::new();
    init_replicas.push(
        ReplicaDesc { id: INIT_USER_REPLICA_ID, node_id: FIRST_NODE_ID, role: ReplicaRole::Voter },
    );
    let init_group = GroupDesc {
        id: INIT_USER_GROUP_ID,
        epoch: INITIAL_EPOCH,
        shards: Vec::new(),
        replicas: init_replicas,
    };
    let mut root_nodes: Vec<NodeDesc> = Vec::new();
    root_nodes.push(
        NodeDesc {
            id: FIRST_NODE_ID,
            addr: addr.clone(),
            capacity: None,
            status: NodeStatus::Active,
        },
    );
    let root_desc = RootDesc { epoch: INITIAL_EPOCH, root_nodes };
    InitialClusterData { root_group, init_group, root_desc }
}

} // verus!
