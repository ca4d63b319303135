//! The transaction intent record and its byte encoding.
//!
//! An intent `{start_version, is_delete, value}` is stored at
//! `TXN_INTENT_VERSION` while a transaction is pending. The encoding is one
//! tag byte (bit 0: delete, bit 1: value present), eight big-endian bytes
//! of `start_version`, then the value bytes, if any.

use vstd::prelude::*;

use crate::bytes::{
    get_u64_be, lemma_u64_be_bytes_round_trip, put_u64_be, spec_u64_from_be_bytes,
    spec_u64_to_be_bytes,
};

verus! {

/// Mathematical image of a [`TxnIntent`].
pub struct TxnIntentView {
    pub start_version: u64,
    pub is_delete: bool,
    pub value: Option<Seq<u8>>,
}

/// A pending transactional write for one key.
#[derive(Debug, Clone, PartialEq, Eq)]
pub struct TxnIntent {
    pub start_version: u64,
    pub is_delete: bool,
    pub value: Option<Vec<u8>>,
}

impl View for TxnIntent {
    type V = TxnIntentView;

    open spec fn view(&self) -> TxnIntentView {
        TxnIntentView {
            start_version: self.start_version,
            is_delete: self.is_delete,
            value: match self.value {
                Some(v) => Some(v@),
                None => None,
            },
        }
    }
}

/// Tag byte of an intent: bit 0 marks a delete, bit 1 a present value.
pub open spec fn spec_intent_tag(i: TxnIntentView) -> u8 {
    if i.is_delete {
        if i.value is Some {
            3u8
        } else {
            1u8
        }
    } else {
        if i.value is Some {
            2u8
        } else {
            0u8
        }
    }
}

/// The byte encoding of an intent.
pub open spec fn spec_encode_intent(i: TxnIntentView) -> Seq<u8> {
    seq![spec_intent_tag(i)] + spec_u64_to_be_bytes(i.start_version) + (match i.value {
        Some(v) => v,
        None => Seq::<u8>::empty(),
    })
}

/// The intent denoted by a byte string, or nothing when malformed.
pub open spec fn spec_decode_intent(s: Seq<u8>) -> Option<TxnIntentView> {
    if s.len() < 9 {
        None
    } else {
        let sv = spec_u64_from_be_bytes(s.subrange(1, 9));
        if s[0] == 0 && s.len() == 9 {
            Some(TxnIntentView { start_version: sv, is_delete: false, value: None })
        } else if s[0] == 1 && s.len() == 9 {
            Some(TxnIntentView { start_version: sv, is_delete: true, value: None })
        } else if s[0] == 2 {
            Some(
                TxnIntentView {
                    start_version: sv,
                    is_delete: false,
                    value: Some(s.subrange(9, s.len() as int)),
                },
            )
        } else if s[0] == 3 {
            Some(
                TxnIntentView {
                    start_version: sv,
                    is_delete: true,
                    value: Some(s.subrange(9, s.len() as int)),
                },
            )
        } else {
            None
        }
    }
}

/// View of an optional intent, for stating decode contracts.
pub open spec fn spec_opt_intent_view(r: Option<TxnIntent>) -> Option<TxnIntentView> {
    match r {
        Some(i) => Some(i@),
        None => None,
    }
}

/// Decoding an encoded intent yields the intent back.
pub proof fn lemma_intent_round_trip(i: TxnIntentView)
    ensures
        spec_decode_intent(spec_encode_intent(i)) == Some(i),
{
    let s = spec_encode_intent(i);
    lemma_u64_be_bytes_round_trip(i.start_version);
    assert(s.subrange(1, 9) =~= spec_u64_to_be_bytes(i.start_version));
    match i.value {
        Some(v) => {
            assert(s.subrange(9, s.len() as int) =~= v);
        },
        None => {
            assert(s.len() == 9);
        },
    }
}

impl TxnIntent {
    /// An intent that deletes the key on commit.
    pub fn tombstone(start_version: u64) -> (r: TxnIntent)
        ensures
            r@ == (TxnIntentView { start_version, is_delete: true, value: None }),
    {
        TxnIntent { start_version, is_delete: true, value: None }
    }

    /// An intent that stores `value` on commit; `None` records a no-op.
    pub fn with_put(start_version: u64, value: Option<Vec<u8>>) -> (r: TxnIntent)
        ensures
            r@ == (TxnIntentView {
                start_version,
                is_delete: false,
                value: match value {
                    Some(v) => Some(v@),
                    None => None::<Seq<u8>>,
                },
            }),
    {
        TxnIntent { start_version, is_delete: false, value }
    }

    /// Encodes the intent as bytes.
    pub fn encode_to_vec(&self) -> (r: Vec<u8>)
        ensures
            r@ == spec_encode_intent(self@),
    {
        let tag: u8 = (if self.is_delete {
            1u8
        } else {
            0u8
        }) + (if self.value.is_some() {
            2u8
        } else {
            0u8
        });
        let mut out: Vec<u8> = Vec::new();
        out.push(tag);
        put_u64_be(&mut out, self.start_version);
        match &self.value {
            Some(v) => {
                let mut k: usize = 0;
                let n = v.len();
                while k < n
                    invariant
                        k <= n,
                        n == v@.len(),
                        out@ == seq![spec_intent_tag(self@)] + spec_u64_to_be_bytes(
                            self.start_version,
                        ) + v@.subrange(0, k as int),
                    decreases n - k,
                {
                    out.push(v[k]);
                    k = k + 1;
                    assert(v@.subrange(0, k as int) =~= v@.subrange(0, k - 1).push(
                        v@[k - 1],
                    ));
                }
                assert(v@.subrange(0, n as int) =~= v@);
            },
            None => {},
        }
        assert(out@ =~= spec_encode_intent(self@));
        out
    }

    /// Decodes an intent from bytes; `None` when the bytes are malformed.
    pub fn decode(s: &Vec<u8>) -> (r: Option<TxnIntent>)
        ensures
            spec_opt_intent_view(r) == spec_decode_intent(s@),
    {
        let n = s.len();
        if n < 9 {
            return None;
        }
        let tag = s[0];
        if tag > 3 {
            return None;
        }
        let start_version = get_u64_be(s, 1);
        let is_delete = tag == 1 || tag == 3;
        let has_value = tag == 2 || tag == 3;
        if !has_value && n != 9 {
            return None;
        }
        let value: Option<Vec<u8>> = if has_value {
            let mut v: Vec<u8> = Vec::new();
            let mut k: usize = 9;
            while k < n
                invariant
                    9 <= k <= n,
                    n == s@.len(),
                    v@ == s@.subrange(9, k as int),
                decreases n - k,
            {
                v.push(s[k]);
                k = k + 1;
                assert(s@.subrange(9, k as int) =~= s@.subrange(9, k - 1).push(s@[k - 1]));
            }
            Some(v)
        } else {
            None
        };
        let r = TxnIntent { start_version, is_delete, value };
        proof {
            assert(s@.subrange(1, 9) == s@.subrange(1, 9));
            assert(r@ == spec_decode_intent(s@).unwrap());
        }
        Some(r)
    }
}

} // verus!
