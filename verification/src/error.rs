//! The error taxonomy of the library.
//!
//! `InvalidArgument` is client-correctable; `CasFailed` reports a
//! conditional-write mismatch together with the observed value;
//! `NotLeader` / `NotRootLeader` ask the client to retry at the indicated
//! peer; `InvalidData` marks on-disk corruption and is fatal at the
//! component level.

use vstd::prelude::*;

use crate::meta::RootDesc;
use crate::value::Value;

verus! {

/// Every failure the verified core can report.
#[derive(Debug, Clone, PartialEq, Eq)]
pub enum Error {
    /// The request itself is malformed; the client can correct and retry.
    InvalidArgument(String),
    /// A write condition failed: global write index, condition index, and
    /// the observed previous value.
    CasFailed(u64, u64, Option<Value>),
    /// This replica does not hold the group lease: group id, epoch, and an
    /// optional node hint to retry at.
    NotLeader(u64, u64, Option<u64>),
    /// This node is not the root leader: last known root descriptor, epoch,
    /// and an optional node hint.
    NotRootLeader(RootDesc, u64, Option<u64>),
    /// No group with the given id exists.
    GroupNotFound(u64),
    /// No database with the given name exists.
    DatabaseNotFound(String),
    /// No collection with the given name exists.
    CollectionNotFound(String),
    /// A database or collection with the given name already exists.
    AlreadyExists(String),
    /// No node satisfies the allocator constraints.
    ResourceExhausted(String),
    /// An on-disk encoding is corrupt; fatal for the affected component.
    InvalidData(String),
    /// The called surface is present but intentionally not implemented.
    Unimplemented(String),
}

/// The uniform rejection every leader-only root entry point returns on a
/// follower: the default root descriptor (epoch zero, no root nodes),
/// epoch zero, and no retry hint.
pub open spec fn spec_not_root_leader(e: Error) -> bool {
    e matches Error::NotRootLeader(rd, ep, h) && rd.epoch == 0 && rd.root_nodes@.len() == 0 && ep
        == 0 && h is None
}

/// The rejection an invalidated transaction-id allocator reports: group
/// zero, epoch zero, and no retry hint.
pub open spec fn spec_not_leader_lost(e: Error) -> bool {
    e matches Error::NotLeader(g, ep, h) && g == 0 && ep == 0 && h is None
}

} // verus!
