//! The etcd-compatibility KV surface.
//!
//! The shim exists so an etcd client can connect; none of its methods is
//! implemented in the core — each one reports `Unimplemented`, exactly.
//! The gRPC plumbing around it lives outside the crate.

use vstd::prelude::*;

use crate::error::Error;

verus! {

/// The etcd KV service surface.
#[derive(Debug, Clone, Copy, PartialEq, Eq, Structural)]
pub struct Kv {}

impl Kv {
    /// Range reads are not offered through the shim.
    pub fn range(&self) -> (r: Result<(), Error>)
        ensures
            r matches Err(Error::Unimplemented(_)),
    {
        Err(Error::Unimplemented("etcd range".to_string()))
    }

    /// Puts are not offered through the shim.
    pub fn put(&self) -> (r: Result<(), Error>)
        ensures
            r matches Err(Error::Unimplemented(_)),
    {
        Err(Error::Unimplemented("etcd put".to_string()))
    }

    /// Range deletes are not offered through the shim.
    pub fn delete_range(&self) -> (r: Result<(), Error>)
        ensures
            r matches Err(Error::Unimplemented(_)),
    {
        Err(Error::Unimplemented("etcd delete range".to_string()))
    }

    /// Transactions are not offered through the shim.
    pub fn txn(&self) -> (r: Result<(), Error>)
        ensures
            r matches Err(Error::Unimplemented(_)),
    {
        Err(Error::Unimplemented("etcd txn".to_string()))
    }
}

} // verus!
