//! Tests of the heartbeat queue and the ongoing-delta accounting.

use sekas_core::heartbeat::{HeartbeatQueue, HeartbeatTask};
use sekas_core::meta::{ReplicaDesc, ReplicaRole, ScheduleState};
use sekas_core::stats::{NodeDelta, OngoingStats, SchedStats};

fn task(node_id: u64) -> HeartbeatTask {
    HeartbeatTask { node_id }
}

#[test]
fn disabled_queue_ignores_everything() {
    let mut q = HeartbeatQueue::new();
    q.try_schedule(vec![task(1), task(2)], 10);
    assert_eq!(q.try_poll(100), vec![]);
    assert_eq!(q.node_scheduled.len(), 0);
}

#[test]
fn schedule_coalesces_to_the_earlier_deadline() {
    let mut q = HeartbeatQueue::new();
    q.enable(true);
    q.try_schedule(vec![task(1)], 50);
    // A later deadline does not move the entry; an earlier one does.
    q.try_schedule(vec![task(1)], 80);
    assert_eq!(q.node_scheduled, vec![(1, 50)]);
    q.try_schedule(vec![task(1)], 20);
    assert_eq!(q.node_scheduled, vec![(1, 20)]);
}

#[test]
fn poll_drains_exactly_the_expired_entries() {
    let mut q = HeartbeatQueue::new();
    q.enable(true);
    q.try_schedule(vec![task(1)], 10);
    q.try_schedule(vec![task(2)], 30);
    q.try_schedule(vec![task(3)], 20);
    let polled = q.try_poll(20);
    let mut ids: Vec<u64> = polled.iter().map(|t| t.node_id).collect();
    ids.sort();
    assert_eq!(ids, vec![1, 3]);
    assert_eq!(q.node_scheduled, vec![(2, 30)]);
    // Polled nodes can be rescheduled afterwards.
    q.try_schedule(vec![task(1)], 40);
    assert_eq!(q.node_scheduled, vec![(2, 30), (1, 40)]);
}

#[test]
fn disabling_clears_the_schedule() {
    let mut q = HeartbeatQueue::new();
    q.enable(true);
    q.try_schedule(vec![task(1)], 10);
    q.enable(false);
    assert_eq!(q.node_scheduled.len(), 0);
    assert!(!q.enabled);
}

fn sched(group_id: u64, epoch: u64, incoming: Vec<u64>, outgoing: Vec<u64>) -> ScheduleState {
    ScheduleState {
        group_id,
        epoch,
        incoming_replicas: incoming
            .into_iter()
            .map(|n| ReplicaDesc { id: n, node_id: n, role: ReplicaRole::Voter })
            .collect(),
        outgoing_replicas: outgoing
            .into_iter()
            .map(|n| ReplicaDesc { id: n, node_id: n, role: ReplicaRole::Voter })
            .collect(),
    }
}

#[test]
fn replace_state_keeps_only_newer_epochs() {
    let mut stats = SchedStats::new();
    assert!(stats.replace_state(vec![sched(1, 5, vec![10], vec![])]));
    // Same epoch and an older epoch change nothing.
    assert!(!stats.replace_state(vec![sched(1, 5, vec![11], vec![])]));
    assert!(!stats.replace_state(vec![sched(1, 4, vec![12], vec![])]));
    assert_eq!(stats.raw_group_delta[0].1.incoming[0].node_id, 10);
    // A strictly newer epoch replaces the entry.
    assert!(stats.replace_state(vec![sched(1, 6, vec![13], vec![])]));
    assert_eq!(stats.raw_group_delta[0].1.incoming[0].node_id, 13);
}

#[test]
fn node_delta_sums_incoming_and_outgoing() {
    let mut stats = OngoingStats::new();
    stats.handle_update(
        vec![sched(1, 1, vec![10, 10], vec![11]), sched(2, 1, vec![11], vec![10])],
        None,
    );
    assert_eq!(stats.get_node_delta(10).replica_count, 1);
    assert_eq!(stats.get_node_delta(11).replica_count, 0);
    assert_eq!(stats.get_node_delta(12).replica_count, 0);
}

#[test]
fn node_delta_merges_the_job_projection() {
    let mut stats = OngoingStats::new();
    stats.handle_update(
        vec![sched(1, 1, vec![10], vec![])],
        Some(vec![(10, NodeDelta { replica_count: 3 }), (11, NodeDelta { replica_count: -2 })]),
    );
    assert_eq!(stats.get_node_delta(10).replica_count, 4);
    assert_eq!(stats.get_node_delta(11).replica_count, -2);
    stats.reset();
    assert_eq!(stats.get_node_delta(10).replica_count, 0);
}
