//! Durable background jobs driven by the root leader.
//!
//! Each job is a tagged variant with its own state machine: collection
//! creation walks `Creating → Rollbacking → Finished/Aborted`, group
//! creation retries allocation a bounded number of times, and the purge
//! jobs tombstone shards best-effort before deleting schema records. The
//! job list itself is part of the schema; `job_state` summarises it for
//! operators.

use vstd::prelude::*;

use crate::meta::{CollectionDesc, GroupDesc, ShardDesc};

verus! {

/// Progress of a collection-creation job.
#[derive(Debug, Clone, Copy, PartialEq, Eq, Structural)]
pub enum CreateCollectionJobStatus {
    Creating,
    Rollbacking,
    Finished,
    Aborted,
}

/// Progress of a group-creation job.
#[derive(Debug, Clone, Copy, PartialEq, Eq, Structural)]
pub enum CreateOneGroupStatus {
    Init,
    Allocating,
    Creating,
    Rollbacking,
    Finished,
    Aborted,
}

/// Creates the shards of a new collection, rolling back on abort.
#[derive(Debug, Clone, PartialEq, Eq)]
#[verifier::ext_equal]
pub struct CreateCollectionJob {
    pub database: u64,
    pub collection_name: String,
    pub wait_create: Vec<ShardDesc>,
    pub wait_cleanup: Vec<ShardDesc>,
    pub status: CreateCollectionJobStatus,
    pub desc: Option<CollectionDesc>,
}

/// Places the replicas of one new group, with bounded retries.
#[derive(Debug, Clone, PartialEq, Eq)]
#[verifier::ext_equal]
pub struct CreateOneGroupJob {
    pub request_replica_cnt: u64,
    pub group_desc: Option<GroupDesc>,
    pub wait_create: Vec<u64>,
    pub wait_cleanup: Vec<u64>,
    pub create_retry: u64,
    pub status: CreateOneGroupStatus,
}

/// Tombstones a deleted collection's shards, then its schema record.
#[derive(Debug, Clone, PartialEq, Eq)]
#[verifier::ext_equal]
pub struct PurgeCollectionJob {
    pub database_id: u64,
    pub collection_id: u64,
    pub database_name: String,
    pub collection_name: String,
}

/// Purges every collection of a deleted database.
#[derive(Debug, Clone, PartialEq, Eq)]
#[verifier::ext_equal]
pub struct PurgeDatabaseJob {
    pub database_id: u64,
    pub database_name: String,
}

/// The closed set of background jobs.
#[derive(Debug, Clone, PartialEq, Eq)]
#[verifier::ext_equal]
pub enum Job {
    CreateCollection(CreateCollectionJob),
    CreateOneGroup(CreateOneGroupJob),
    PurgeCollection(PurgeCollectionJob),
    PurgeDatabase(PurgeDatabaseJob),
}

/// One durable job with its id.
#[derive(Debug, Clone, PartialEq, Eq)]
#[verifier::ext_equal]
pub struct BackgroundJob {
    pub id: u64,
    pub job: Option<Job>,
}

/// Operator-facing summary of one job.
#[derive(Debug, Clone, PartialEq, Eq)]
#[verifier::ext_equal]
pub enum JobState {
    CreateCollection {
        name: String,
        status: CreateCollectionJobStatus,
        wait_create: u64,
        wait_cleanup: u64,
    },
    CreateOneGroup {
        status: CreateOneGroupStatus,
        replica_count: u64,
        wait_create: u64,
        wait_cleanup: u64,
        retry_count: u64,
        group_id: u64,
    },
    PurgeCollection { database: u64, collection: u64, name: String },
    PurgeDatabase { database: u64 },
    Empty,
}

/// The summary of one job, as `job_state` reports it.
pub open spec fn spec_job_state(j: BackgroundJob) -> JobState {
    match j.job {
        Some(Job::CreateCollection(c)) => JobState::CreateCollection {
            name: c.collection_name,
            status: c.status,
            wait_create: c.wait_create.len() as u64,
            wait_cleanup: c.wait_cleanup.len() as u64,
        },
        Some(Job::CreateOneGroup(c)) => JobState::CreateOneGroup {
            status: c.status,
            replica_count: c.request_replica_cnt,
            wait_create: c.wait_create.len() as u64,
            wait_cleanup: c.wait_cleanup.len() as u64,
            retry_count: c.create_retry,
            group_id: match c.group_desc {
                Some(g) => g.id,
                None => 0,
            },
        },
        Some(Job::PurgeCollection(p)) => JobState::PurgeCollection {
            database: p.database_id,
            collection: p.collection_id,
            name: p.collection_name,
        },
        Some(Job::PurgeDatabase(p)) => JobState::PurgeDatabase { database: p.database_id },
        None => JobState::Empty,
    }
}

/// Summarises one job for operators.
pub fn job_state_of(j: &BackgroundJob) -> (r: JobState)
    ensures
        r == spec_job_state(*j),
{
    match &j.job {
        Some(Job::CreateCollection(c)) => {
            let r = JobState::CreateCollection {
                name: c.collection_name.clone(),
                status: c.status,
                wait_create: c.wait_create.len() as u64,
                wait_cleanup: c.wait_cleanup.len() as u64,
            };
            proof {
                assert(r =~= spec_job_state(*j));
            }
            r
        },
        Some(Job::CreateOneGroup(c)) => {
            let group_id = match &c.group_desc {
                Some(g) => g.id,
                None => 0,
            };
            JobState::CreateOneGroup {
                status: c.status,
                replica_count: c.request_replica_cnt,
                wait_create: c.wait_create.len() as u64,
                wait_cleanup: c.wait_cleanup.len() as u64,
                retry_count: c.create_retry,
                group_id,
            }
        },
        Some(Job::PurgeCollection(p)) => {
            let r = JobState::PurgeCollection {
                database: p.database_id,
                collection: p.collection_id,
                name: p.collection_name.clone(),
            };
            proof {
                assert(r =~= spec_job_state(*j));
            }
            r
        },
        Some(Job::PurgeDatabase(p)) => JobState::PurgeDatabase { database: p.database_id },
        None => JobState::Empty,
    }
}

} // verus!
