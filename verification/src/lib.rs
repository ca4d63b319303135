//! Verified core of a sharded, replicated key-value store.
//!
//! The crate covers the transactional storage and coordination subsystem:
//! the per-shard MVCC write path with intent-based two-phase transactions
//! (`eval`), the value and intent encodings (`bytes`, `intent`), an
//! in-memory model of the versioned group engine (`engine`), the root
//! coordination plane (`txn_alloc`, `schema`, `root`, `heartbeat`, `stats`),
//! and the node bootstrap decisions (`bootstrap`).
//!
//! Everything here is plain data and decisions: I/O, raft transport and the
//! async runtime live outside the crate and hand plain values in and out.

pub mod assoc;
pub mod bytes;
pub mod bootstrap;
pub mod cond;
pub mod engine;
pub mod error;
pub mod eval;
pub mod heartbeat;
pub mod intent;
pub mod jobs;
pub mod kv;
pub mod laws;
pub mod meta;
pub mod root;
pub mod schema;
pub mod stats;
pub mod txn_alloc;
pub mod value;
