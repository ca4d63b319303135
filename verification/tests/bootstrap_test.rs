//! Tests of the bootstrap decisions and the etcd shim surface.

use sekas_core::bootstrap::{
    bootstrap_or_join_decision, filter_join_list, initial_cluster_data, make_node_ident,
    next_backoff, BootstrapAction, MAX_JOIN_BACKOFF_SECS,
};
use sekas_core::error::Error;
use sekas_core::kv::Kv;
use sekas_core::meta::{FIRST_NODE_ID, INIT_USER_GROUP_ID, ROOT_GROUP_ID};

#[test]
fn bootstrap_decision_prefers_persisted_identity() {
    assert_eq!(bootstrap_or_join_decision(true, true), BootstrapAction::ReuseExisting);
    assert_eq!(bootstrap_or_join_decision(true, false), BootstrapAction::ReuseExisting);
    assert_eq!(bootstrap_or_join_decision(false, true), BootstrapAction::BootstrapCluster);
    assert_eq!(bootstrap_or_join_decision(false, false), BootstrapAction::JoinCluster);
}

#[test]
fn join_list_drops_own_address() {
    let local = "127.0.0.1:21805".to_string();
    let list = vec![
        "127.0.0.1:21805".to_string(),
        "127.0.0.1:21806".to_string(),
        "127.0.0.1:21807".to_string(),
    ];
    let filtered = filter_join_list(list, &local).unwrap();
    assert_eq!(filtered, vec!["127.0.0.1:21806".to_string(), "127.0.0.1:21807".to_string()]);

    let only_self = vec!["127.0.0.1:21805".to_string()];
    assert!(matches!(filter_join_list(only_self, &local), Err(Error::InvalidArgument(_))));
    assert!(matches!(filter_join_list(vec![], &local), Err(Error::InvalidArgument(_))));
}

#[test]
fn backoff_doubles_up_to_the_cap() {
    let mut backoff = 1u64;
    let mut seen = vec![backoff];
    for _ in 0..10 {
        backoff = next_backoff(backoff);
        seen.push(backoff);
    }
    assert_eq!(&seen[0..8], &[1, 2, 4, 8, 16, 32, 64, 120]);
    assert_eq!(*seen.last().unwrap(), MAX_JOIN_BACKOFF_SECS);
}

#[test]
fn initial_cluster_seed_names_this_node() {
    let addr = "0.0.0.0:8888".to_string();
    let data = initial_cluster_data(&addr);
    assert_eq!(data.root_group.id, ROOT_GROUP_ID);
    assert_eq!(data.init_group.id, INIT_USER_GROUP_ID);
    assert_eq!(data.root_group.replicas.len(), 1);
    assert_eq!(data.root_group.replicas[0].node_id, FIRST_NODE_ID);
    assert_eq!(data.root_desc.root_nodes.len(), 1);
    assert_eq!(data.root_desc.root_nodes[0].addr, addr);

    let ident = make_node_ident(vec![], FIRST_NODE_ID);
    assert_eq!(ident.node_id, FIRST_NODE_ID);
    assert_eq!(ident.cluster_id, Vec::<u8>::new());
}

#[test]
fn etcd_shim_is_unimplemented() {
    let kv = Kv {};
    assert!(matches!(kv.range(), Err(Error::Unimplemented(_))));
    assert!(matches!(kv.put(), Err(Error::Unimplemented(_))));
    assert!(matches!(kv.delete_range(), Err(Error::Unimplemented(_))));
    assert!(matches!(kv.txn(), Err(Error::Unimplemented(_))));
}
