//! Versioned values: the unit stored in a per-key MVCC chain.
//!
//! Every logical key stores a descending chain of `(version, content)`
//! records. `content == None` is a tombstone. Versions are cluster-wide
//! monotonic transaction ids, except for the reserved
//! [`TXN_INTENT_VERSION`], which marks a pending intent.

use vstd::prelude::*;

verus! {

/// The version reserved for a pending transaction intent.
pub const TXN_INTENT_VERSION: u64 = u64::MAX;

/// Mathematical image of a [`Value`]: a version paired with optional bytes.
pub struct ValueView {
    pub version: u64,
    pub content: Option<Seq<u8>>,
}

impl ValueView {
    /// A record with no content marks a deleted key.
    pub open spec fn is_tombstone(self) -> bool {
        self.content is None
    }

    /// Whether this record is the pending-intent marker.
    pub open spec fn is_intent(self) -> bool {
        self.version == TXN_INTENT_VERSION
    }
}

/// One record of a per-key MVCC chain.
#[derive(Debug, Clone, PartialEq, Eq)]
pub struct Value {
    pub content: Option<Vec<u8>>,
    pub version: u64,
}

impl View for Value {
    type V = ValueView;

    open spec fn view(&self) -> ValueView {
        ValueView {
            version: self.version,
            content: match self.content {
                Some(c) => Some(c@),
                None => None,
            },
        }
    }
}

impl Value {
    /// A record holding `content` at `version`.
    pub fn with_value(content: Vec<u8>, version: u64) -> (r: Value)
        ensures
            r@ == (ValueView { version, content: Some(content@) }),
    {
        Value { content: Some(content), version }
    }

    /// A tombstone at `version`.
    pub fn tombstone(version: u64) -> (r: Value)
        ensures
            r@ == (ValueView { version, content: None }),
    {
        Value { content: None, version }
    }
}

} // verus!
