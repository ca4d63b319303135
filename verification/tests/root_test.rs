//! Tests of the root coordination plane: leadership, transaction-id
//! allocation, node lifecycle, schema operations and report merging.

use sekas_core::error::Error;
use sekas_core::jobs::{Job, JobState};
use sekas_core::meta::{
    GroupDesc, NodeCapacity, NodeIdent, NodeStatus, RaftRole, ReplicaDesc, ReplicaRole,
    ReplicaState, ScheduleState, SYSTEM_DATABASE_ID,
};
use sekas_core::root::{GroupUpdates, ReconcileTask, Root, WatchEvent};
use sekas_core::schema::Schema;
use sekas_core::txn_alloc::TXN_ID_RESERVATION;

fn capacity() -> NodeCapacity {
    NodeCapacity { cpu_nums: 4, replica_count: 0, leader_count: 0 }
}

fn fresh_leader() -> Root {
    let ident = NodeIdent { cluster_id: vec![1, 2], node_id: 0 };
    let mut root = Root::new(ident, "127.0.0.1:21805".to_string(), 4);
    let schema = Schema::empty(vec![1, 2]);
    root.step_leader(schema, 1_000);
    root
}

#[test]
fn follower_refuses_everything() {
    let ident = NodeIdent { cluster_id: vec![], node_id: 1 };
    let mut root = Root::new(ident, "127.0.0.1:21805".to_string(), 4);
    assert!(!root.is_root());
    assert!(matches!(root.schema(), Err(Error::NotRootLeader(_, _, _))));
    // The rejection carries the default root descriptor: epoch zero, no
    // root nodes, and no retry hint.
    match root.alloc_txn_id(1) {
        Err(Error::NotRootLeader(rd, epoch, hint)) => {
            assert_eq!(rd.epoch, 0);
            assert!(rd.root_nodes.is_empty());
            assert_eq!(epoch, 0);
            assert_eq!(hint, None);
        }
        other => panic!("expect NotRootLeader: {other:?}"),
    }
    assert!(matches!(root.cordon_node(3), Err(Error::NotRootLeader(_, _, _))));
    assert_eq!(root.nodes(), None);
}

#[test]
fn step_leader_enables_allocation() {
    let mut root = fresh_leader();
    assert!(root.is_root());
    let first = root.alloc_txn_id(10).unwrap().unwrap();
    let second = root.alloc_txn_id(5).unwrap().unwrap();
    // Ranges are strictly increasing and disjoint.
    assert!(first + 10 <= second);
    root.drop_leader();
    assert!(!root.is_root());
}

#[test]
fn alloc_txn_id_exhaustion_asks_for_retry() {
    let mut root = fresh_leader();
    // The whole reservation at once succeeds; one id more must wait for a
    // bump.
    let max = root.core.as_ref().unwrap().alloc.max_txn_id;
    let next = root.core.as_ref().unwrap().alloc.next_txn_id;
    let available = max - next;
    let id = root.alloc_txn_id(available).unwrap().unwrap();
    assert_eq!(id, next);
    assert_eq!(root.alloc_txn_id(1).unwrap(), None);
    // After a bump the allocator can continue.
    root.bump_txn_id(2_000).unwrap();
    assert!(root.alloc_txn_id(1).unwrap().is_some());
}

#[test]
fn handoff_keeps_ids_monotonic() {
    let mut root = fresh_leader();
    let id = root.alloc_txn_id(100).unwrap().unwrap();
    let persisted = root.core.as_ref().unwrap().schema.max_txn_id;
    assert!(id + 100 <= persisted);
    let mut schema = root.core.as_ref().unwrap().schema.clone();
    root.drop_leader();
    // The new leader reloads the persisted marker; its first id lies
    // strictly above everything the old leader handed out.
    schema.max_txn_id = persisted;
    let ident = NodeIdent { cluster_id: vec![1, 2], node_id: 7 };
    let mut new_leader = Root::new(ident, "127.0.0.1:21806".to_string(), 4);
    new_leader.step_leader(schema, 10);
    let first = new_leader.alloc_txn_id(1).unwrap().unwrap();
    assert!(first > id);
    assert!(first >= persisted);
}

#[test]
fn bump_uses_wall_clock_floor() {
    let mut root = fresh_leader();
    let before = root.core.as_ref().unwrap().alloc.max_txn_id;
    let far_future = before + 1_000_000;
    root.bump_txn_id(far_future).unwrap();
    let after = root.core.as_ref().unwrap().alloc.max_txn_id;
    assert_eq!(after, far_future + TXN_ID_RESERVATION);
    assert_eq!(root.core.as_ref().unwrap().schema.max_txn_id, after);
}

#[test]
fn node_lifecycle_transitions() {
    let mut root = fresh_leader();
    let (_, node, _) = root.join("127.0.0.1:21807".to_string(), capacity(), 5).unwrap();
    assert_eq!(root.node_status(node.id).unwrap(), NodeStatus::Active);

    // Only an Active node can be cordoned; cordoning twice fails.
    root.cordon_node(node.id).unwrap();
    assert_eq!(root.node_status(node.id).unwrap(), NodeStatus::Cordoned);
    assert!(matches!(root.cordon_node(node.id), Err(Error::InvalidArgument(_))));

    // Draining needs Cordoned and queues a leader shed.
    root.begin_drain(node.id).unwrap();
    assert_eq!(root.node_status(node.id).unwrap(), NodeStatus::Draining);
    assert_eq!(root.pending_tasks.last(), Some(&ReconcileTask::ShedLeader { node_id: node.id }));
    assert!(matches!(root.begin_drain(node.id), Err(Error::InvalidArgument(_))));

    // Uncordon restores Active from the resting states, not from Draining.
    assert!(matches!(root.uncordon_node(node.id), Err(Error::InvalidArgument(_))));
    assert!(matches!(root.node_status(12345), Err(Error::InvalidArgument(_))));
}

#[test]
fn uncordon_restores_active() {
    let mut root = fresh_leader();
    let (_, node, _) = root.join("127.0.0.1:21808".to_string(), capacity(), 5).unwrap();
    root.cordon_node(node.id).unwrap();
    root.uncordon_node(node.id).unwrap();
    assert_eq!(root.node_status(node.id).unwrap(), NodeStatus::Active);
}

#[test]
fn draining_the_root_leader_is_refused() {
    let mut root = fresh_leader();
    let me = root.current_node_id();
    let r = root.begin_drain(me);
    assert!(matches!(r, Err(Error::InvalidArgument(_))));
    assert_eq!(root.pending_tasks.last(), Some(&ReconcileTask::ShedRoot { node_id: me }));
}

#[test]
fn create_and_delete_database() {
    let mut root = fresh_leader();
    let db = root.create_database("test_db".to_string()).unwrap();
    assert_eq!(db.name, "test_db");
    assert!(db.id > SYSTEM_DATABASE_ID);
    assert!(matches!(
        root.create_database("test_db".to_string()),
        Err(Error::AlreadyExists(_))
    ));
    let listed = root.list_database().unwrap();
    assert_eq!(listed.len(), 1);
    assert!(matches!(
        root.pending_events.first(),
        Some(WatchEvent::UpdateDatabase(_))
    ));

    assert!(matches!(
        root.delete_database(&"missing".to_string()),
        Err(Error::DatabaseNotFound(_))
    ));
    root.delete_database(&"test_db".to_string()).unwrap();
    assert_eq!(root.list_database().unwrap().len(), 0);
    // The purge runs as a durable background job.
    let jobs = &root.core.as_ref().unwrap().schema.jobs;
    assert!(matches!(jobs.last().unwrap().job, Some(Job::PurgeDatabase(_))));
}

#[test]
fn create_collection_queues_the_creation_job() {
    let mut root = fresh_leader();
    root.create_database("test_db".to_string()).unwrap();
    let coll = root
        .create_collection("test_co".to_string(), "test_db".to_string())
        .unwrap();
    assert_eq!(coll.name, "test_co");
    assert!(matches!(
        root.create_collection("test_co".to_string(), "test_db".to_string()),
        Err(Error::AlreadyExists(_))
    ));
    assert!(matches!(
        root.create_collection("other".to_string(), "missing".to_string()),
        Err(Error::DatabaseNotFound(_))
    ));
    let jobs = &root.core.as_ref().unwrap().schema.jobs;
    match &jobs.last().unwrap().job {
        Some(Job::CreateCollection(cj)) => {
            assert_eq!(cj.collection_name, "test_co");
            assert_eq!(cj.wait_create.len(), 1);
            assert_eq!(cj.wait_create[0].collection_id, coll.id);
            // The one pending shard spans the whole key space.
            let range = cj.wait_create[0].range.as_ref().unwrap();
            assert!(range.start.is_empty());
            assert!(range.end.is_empty());
        }
        other => panic!("expect a creation job: {other:?}"),
    }

    let db = root.get_database(&"test_db".to_string()).unwrap().unwrap();
    let got = root.get_collection(&"test_co".to_string(), &db).unwrap();
    assert_eq!(got.unwrap().id, coll.id);
    let listed = root.list_collection(&db).unwrap();
    assert_eq!(listed.len(), 1);
}

#[test]
fn delete_collection_purges_and_ignores_missing() {
    let mut root = fresh_leader();
    root.create_database("test_db".to_string()).unwrap();
    let db = root.get_database(&"test_db".to_string()).unwrap().unwrap();
    root.create_collection("test_co".to_string(), "test_db".to_string()).unwrap();

    // Deleting a collection that does not exist is a silent no-op.
    let jobs_before = root.core.as_ref().unwrap().schema.jobs.len();
    let events_before = root.pending_events.len();
    root.delete_collection(&"missing".to_string(), &db).unwrap();
    assert_eq!(root.core.as_ref().unwrap().schema.jobs.len(), jobs_before);
    assert_eq!(root.pending_events.len(), events_before);
    assert_eq!(root.list_collection(&db).unwrap().len(), 1);

    // Deleting the existing collection queues the purge job and the event.
    root.delete_collection(&"test_co".to_string(), &db).unwrap();
    assert_eq!(root.list_collection(&db).unwrap().len(), 0);
    let jobs = &root.core.as_ref().unwrap().schema.jobs;
    assert!(matches!(jobs.last().unwrap().job, Some(Job::PurgeCollection(_))));
    assert!(matches!(root.pending_events.last(), Some(WatchEvent::DeleteCollection(_))));
}

#[test]
fn report_merges_by_epoch_and_term() {
    let mut root = fresh_leader();
    let group = GroupDesc {
        id: 9,
        epoch: 3,
        shards: vec![],
        replicas: vec![ReplicaDesc { id: 91, node_id: 0, role: ReplicaRole::Voter }],
    };
    let state = ReplicaState {
        replica_id: 91,
        group_id: 9,
        node_id: 0,
        term: 5,
        role: RaftRole::Leader,
    };
    let update = GroupUpdates {
        group_id: 9,
        group_desc: Some(group.clone()),
        replica_state: Some(state),
        schedule_state: None,
    };
    root.report(vec![update], 50).unwrap();
    let schema = &root.core.as_ref().unwrap().schema;
    assert_eq!(schema.group_epoch(9), Some(3));
    assert_eq!(schema.get_replica_state(9, 91).unwrap().term, 5);

    // A stale epoch and a stale term are both ignored.
    let stale_group = GroupDesc { id: 9, epoch: 2, shards: vec![], replicas: vec![] };
    let stale_state = ReplicaState {
        replica_id: 91,
        group_id: 9,
        node_id: 0,
        term: 4,
        role: RaftRole::Follower,
    };
    let update = GroupUpdates {
        group_id: 9,
        group_desc: Some(stale_group),
        replica_state: Some(stale_state),
        schedule_state: None,
    };
    root.report(vec![update], 51).unwrap();
    let schema = &root.core.as_ref().unwrap().schema;
    assert_eq!(schema.group_epoch(9), Some(3));
    assert_eq!(schema.get_replica_state(9, 91).unwrap().term, 5);
    assert_eq!(schema.get_replica_state(9, 91).unwrap().role, RaftRole::Leader);

    // A newer epoch replaces the descriptor.
    let newer_group = GroupDesc { id: 9, epoch: 4, shards: vec![], replicas: vec![] };
    let update = GroupUpdates {
        group_id: 9,
        group_desc: Some(newer_group),
        replica_state: None,
        schedule_state: None,
    };
    root.report(vec![update], 52).unwrap();
    let schema = &root.core.as_ref().unwrap().schema;
    assert_eq!(schema.group_epoch(9), Some(4));
}

#[test]
fn report_feeds_ongoing_stats() {
    let mut root = fresh_leader();
    let sched = ScheduleState {
        group_id: 7,
        epoch: 1,
        incoming_replicas: vec![ReplicaDesc { id: 1, node_id: 42, role: ReplicaRole::Voter }],
        outgoing_replicas: vec![],
    };
    let update = GroupUpdates {
        group_id: 7,
        group_desc: None,
        replica_state: None,
        schedule_state: Some(sched),
    };
    root.report(vec![update], 60).unwrap();
    assert_eq!(root.ongoing_stats.get_node_delta(42).replica_count, 1);
    assert_eq!(root.ongoing_stats.get_node_delta(43).replica_count, 0);
}

#[test]
fn alloc_replica_checks_group_and_epoch() {
    let mut root = fresh_leader();
    assert!(matches!(root.alloc_replica(9, 1, 2, vec![0, 1]), Err(Error::GroupNotFound(9))));

    let group = GroupDesc { id: 9, epoch: 3, shards: vec![], replicas: vec![] };
    let update = GroupUpdates {
        group_id: 9,
        group_desc: Some(group),
        replica_state: None,
        schedule_state: None,
    };
    root.report(vec![update], 70).unwrap();

    assert!(matches!(root.alloc_replica(9, 2, 2, vec![0, 1]), Err(Error::InvalidArgument(_))));
    assert!(matches!(
        root.alloc_replica(9, 3, 2, vec![0]),
        Err(Error::ResourceExhausted(_))
    ));

    let replicas = root.alloc_replica(9, 3, 2, vec![5, 6]).unwrap();
    assert_eq!(replicas.len(), 2);
    assert_eq!(replicas[0].node_id, 5);
    assert_eq!(replicas[1].node_id, 6);
    assert!(replicas[0].id < replicas[1].id);
    assert_eq!(replicas[0].role, ReplicaRole::Voter);
}

#[test]
fn job_state_summarises_jobs() {
    let mut root = fresh_leader();
    root.create_database("test_db".to_string()).unwrap();
    root.create_collection("test_co".to_string(), "test_db".to_string()).unwrap();
    let states = root.job_state().unwrap();
    assert_eq!(states.len(), 1);
    match &states[0] {
        JobState::CreateCollection { name, wait_create, .. } => {
            assert_eq!(name, "test_co");
            assert_eq!(*wait_create, 1);
        }
        other => panic!("expect a creation summary: {other:?}"),
    }
}

#[test]
fn info_reports_the_cluster_shape() {
    let mut root = fresh_leader();
    root.create_database("test_db".to_string()).unwrap();
    root.create_collection("test_co".to_string(), "test_db".to_string()).unwrap();
    let (_, node, _) = root.join("127.0.0.1:21809".to_string(), capacity(), 80).unwrap();
    let group = GroupDesc {
        id: 9,
        epoch: 3,
        shards: vec![],
        replicas: vec![ReplicaDesc { id: 91, node_id: node.id, role: ReplicaRole::Voter }],
    };
    let state = ReplicaState {
        replica_id: 91,
        group_id: 9,
        node_id: node.id,
        term: 2,
        role: RaftRole::Leader,
    };
    let update = GroupUpdates {
        group_id: 9,
        group_desc: Some(group),
        replica_state: Some(state),
        schedule_state: None,
    };
    root.report(vec![update], 81).unwrap();

    let m = root.info(true).unwrap();
    assert!(m.balanced);
    assert_eq!(m.databases.len(), 1);
    assert_eq!(m.databases[0].name, "test_db");
    assert_eq!(m.databases[0].collections.len(), 1);
    assert_eq!(m.databases[0].collections[0].name, "test_co");
    assert_eq!(m.nodes.len(), 1);
    assert_eq!(m.nodes[0].replicas.len(), 1);
    assert_eq!(m.nodes[0].leaders.len(), 1);
    assert_eq!(m.groups.len(), 1);
    assert_eq!(m.groups[0].epoch, 3);
    assert_eq!(m.groups[0].replicas[0].raft_role, Some(RaftRole::Leader));
    assert_eq!(m.groups[0].replicas[0].term, 2);
}

#[test]
fn join_assigns_fresh_ids_and_schedules_heartbeat() {
    let mut root = fresh_leader();
    let (cluster_id, first, _) = root.join("127.0.0.1:21810".to_string(), capacity(), 90).unwrap();
    let (_, second, _) = root.join("127.0.0.1:21811".to_string(), capacity(), 91).unwrap();
    assert_eq!(cluster_id, vec![1, 2]);
    assert!(first.id < second.id);
    assert_eq!(root.nodes(), Some(2));
    assert!(root
        .heartbeat_queue
        .node_scheduled
        .iter()
        .any(|(n, _)| *n == first.id));
}
