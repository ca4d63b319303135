//! The intent evaluator: the per-shard MVCC write path.
//!
//! `write_intent` stages a pending intent per requested write after
//! evaluating its conditions; `commit_intent` turns matching intents into
//! committed records at the commit version; `clear_intent` drops matching
//! intents. All three are idempotent under replay, which the contracts and
//! the lemmas in `laws` make precise.

use vstd::prelude::*;

use crate::bytes::{clone_bytes, decode_i64, encode_i64, spec_decode_i64, spec_i64_to_be_bytes};
use crate::cond::{
    eval_conditions, spec_first_failed, spec_opt_value_view, WriteCondition, WriteConditionView,
};
use crate::engine::{EvalResult, GroupEngine, WriteBatch, WriteOpView};
use crate::error::Error;
use crate::intent::{spec_decode_intent, spec_encode_intent, TxnIntent, TxnIntentView};
use crate::value::{Value, ValueView, TXN_INTENT_VERSION};

verus! {

/// How a put computes the bytes it stores.
#[derive(Debug, Clone, Copy, PartialEq, Eq, Structural)]
pub enum PutType {
    /// Store the request value as given.
    Direct,
    /// Decode the previous value and the request value as big-endian `i64`
    /// and store their wrapping sum.
    AddI64,
    /// Record a no-op intent: nothing is written on commit, but the key
    /// stays latched while the intent is pending.
    Nop,
}

/// A requested put within a shard write.
#[derive(Debug, Clone, PartialEq, Eq)]
pub struct PutRequest {
    pub put_type: PutType,
    pub key: Vec<u8>,
    pub value: Vec<u8>,
    pub conditions: Vec<WriteCondition>,
    pub take_prev_value: bool,
}

/// A requested delete within a shard write.
#[derive(Debug, Clone, PartialEq, Eq)]
pub struct DeleteRequest {
    pub key: Vec<u8>,
    pub conditions: Vec<WriteCondition>,
    pub take_prev_value: bool,
}

/// All writes of one request against one shard; deletes evaluate first.
#[derive(Debug, Clone, PartialEq, Eq)]
pub struct ShardWriteRequest {
    pub shard_id: u64,
    pub deletes: Vec<DeleteRequest>,
    pub puts: Vec<PutRequest>,
}

/// A transactional write request: the client's start version plus the
/// writes of one shard.
#[derive(Debug, Clone, PartialEq, Eq)]
pub struct WriteIntentRequest {
    pub start_version: u64,
    pub write: Option<ShardWriteRequest>,
}

/// Per-write response: the previous value, when requested.
#[derive(Debug, Clone, PartialEq, Eq)]
pub struct WriteResponse {
    pub prev_value: Option<Value>,
}

/// Responses for the deletes and puts of one shard write, in request order.
#[derive(Debug, Clone, PartialEq, Eq)]
pub struct ShardWriteResponse {
    pub deletes: Vec<WriteResponse>,
    pub puts: Vec<WriteResponse>,
}

/// Response of `write_intent`.
#[derive(Debug, Clone, PartialEq, Eq)]
pub struct WriteIntentResponse {
    pub write: Option<ShardWriteResponse>,
}

/// Commit request: turn the intents of `keys` with `start_version` into
/// records at `commit_version`.
#[derive(Debug, Clone, PartialEq, Eq)]
pub struct CommitIntentRequest {
    pub shard_id: u64,
    pub start_version: u64,
    pub commit_version: u64,
    pub keys: Vec<Vec<u8>>,
}

/// Clear request: drop the intents of `keys` with `start_version`.
#[derive(Debug, Clone, PartialEq, Eq)]
pub struct ClearIntentRequest {
    pub shard_id: u64,
    pub start_version: u64,
    pub keys: Vec<Vec<u8>>,
}

/// Terminal state of a transaction, signalled to latch waiters.
#[derive(Debug, Clone, Copy, PartialEq, Eq, Structural)]
pub enum TxnState {
    Pending,
    Committed,
    Aborted,
}

/// The per-key exclusion guard held for the duration of an evaluation.
///
/// The store implements this over its latch manager; tests may implement
/// it trivially. `resolve_txn` asks the coordinator about another
/// transaction's pending intent and returns the resolved committed value,
/// or `None` when that transaction aborted. Nothing is assumed about an
/// implementation: the evaluator's contracts hold for every outcome.
pub trait LatchGuard {
    /// Resolve another transaction's intent found on `key`.
    fn resolve_txn(&mut self, shard_id: u64, key: &Vec<u8>, txn_intent: TxnIntent) -> Result<
        Option<Value>,
        Error,
    >;

    /// Wake all waiters with the terminal state of this transaction.
    fn signal_all(&mut self, txn_state: TxnState, commit_version: Option<u64>);
}

/// View of an optional intent result.
pub open spec fn spec_opt_intent(r: Option<TxnIntent>) -> Option<TxnIntentView> {
    match r {
        Some(i) => Some(i@),
        None => None,
    }
}

/// The bytes a put stores, or `None` for an invalid request:
/// `Direct` stores the request value, `Nop` stores nothing, and `AddI64`
/// stores `wrapping_add(prev, delta)` where an absent or tombstoned
/// previous value reads as zero and either operand failing to decode as an
/// 8-byte big-endian `i64` is invalid.
pub open spec fn spec_apply_put(
    put_type: PutType,
    prev: Option<ValueView>,
    value: Seq<u8>,
) -> Option<Option<Seq<u8>>> {
    match put_type {
        PutType::Direct => Some(Some(value)),
        PutType::Nop => Some(None),
        PutType::AddI64 => match spec_decode_i64(value) {
            None => None,
            Some(delta) => match prev {
                Some(v) => match v.content {
                    Some(c) => match spec_decode_i64(c) {
                        None => None,
                        Some(former) => Some(
                            Some(spec_i64_to_be_bytes(former.wrapping_add(delta))),
                        ),
                    },
                    None => Some(Some(spec_i64_to_be_bytes(delta.wrapping_add(0)))),
                },
                None => Some(Some(spec_i64_to_be_bytes(delta.wrapping_add(0)))),
            },
        },
    }
}

/// Computes the bytes a put stores.
///
/// Exactly the invalid cases of [`spec_apply_put`] are rejected, with
/// `InvalidArgument`; every accepted case returns the specified bytes.
pub fn apply_put_op(put_type: PutType, prev_value: Option<&Value>, value: Vec<u8>) -> (r: Result<
    Option<Vec<u8>>,
    Error,
>)
    ensures
        ({
            let pv = match prev_value {
                Some(v) => Some(v@),
                None => None::<ValueView>,
            };
            match spec_apply_put(put_type, pv, value@) {
                None => r matches Err(Error::InvalidArgument(_)),
                Some(x) => r matches Ok(o) && (match o {
                    Some(b) => x matches Some(xb) && b@ == xb,
                    None => x is None,
                }),
            }
        }),
{
    match put_type {
        PutType::AddI64 => {
            let delta = match decode_i64(&value) {
                Some(d) => d,
                None => {
                    return Err(
                        Error::InvalidArgument("input value is not a valid i64".to_string()),
                    );
                },
            };
            let former: i64 = match prev_value {
                Some(v) => match &v.content {
                    Some(content) => match decode_i64(content) {
                        Some(f) => f,
                        None => {
                            return Err(
                                Error::InvalidArgument(
                                    "the exists value is not a valid i64".to_string(),
                                ),
                            );
                        },
                    },
                    None => 0,
                },
                None => 0,
            };
            Ok(Some(encode_i64(former.wrapping_add(delta))))
        },
        PutType::Direct => Ok(Some(value)),
        PutType::Nop => Ok(None),
    }
}

/// Reads the newest record of a key and splits it into a decoded intent
/// (when the top is the intent marker) and the most recent regular value.
///
/// An intent record without content, or one that does not decode, is
/// on-disk corruption: `InvalidData`.
pub fn read_intent_and_next_key(
    engine: &GroupEngine,
    start_version: u64,
    shard_id: u64,
    key: &Vec<u8>,
) -> (r: Result<(Option<TxnIntent>, Option<Value>), Error>)
    requires
        engine.wf(),
    ensures
        ({
            let c = engine.chain_of(shard_id, key@);
            &&& (c.len() == 0 ==> (r matches Ok(p) && p.0 is None && p.1 is None))
            &&& (c.len() > 0 && !c[0].is_intent() ==> (r matches Ok(p) && p.0 is None && (
            p.1 matches Some(v) && v@ == c[0])))
            &&& (c.len() > 0 && c[0].is_intent() ==> (match c[0].content {
                Some(b) => match spec_decode_intent(b) {
                    Some(iv) => r matches Ok(p) && (p.0 matches Some(ti) && ti@ == iv) && (if c.len()
                        > 1 {
                        p.1 matches Some(v) && v@ == c[1]
                    } else {
                        p.1 is None
                    }),
                    None => r matches Err(Error::InvalidData(_)),
                },
                None => r matches Err(Error::InvalidData(_)),
            }))
        }),
{
    let (top, under) = engine.read_top_two(shard_id, key);
    match top {
        None => Ok((None, None)),
        Some(v) => {
            if v.version == TXN_INTENT_VERSION {
                match v.content {
                    None => Err(
                        Error::InvalidData("intent value must exist".to_string()),
                    ),
                    Some(content) => match TxnIntent::decode(&content) {
                        None => Err(
                            Error::InvalidData("intent does not decode".to_string()),
                        ),
                        Some(ti) => Ok((Some(ti), under)),
                    },
                }
            } else {
                Ok((None, Some(v)))
            }
        },
    }
}

/// Reads the intent of `key` belonging to `start_version`, if present.
///
/// Any other top record — no record, a regular value, or another
/// transaction's intent — reads as `None`, which is what makes commit and
/// clear idempotent. A corrupt intent record is `InvalidData`.
pub fn read_target_intent(
    engine: &GroupEngine,
    start_version: u64,
    shard_id: u64,
    key: &Vec<u8>,
) -> (r: Result<Option<TxnIntent>, Error>)
    requires
        engine.wf(),
    ensures
        ({
            let c = engine.chain_of(shard_id, key@);
            &&& (c.len() == 0 ==> (r matches Ok(o) && o is None))
            &&& (c.len() > 0 && !c[0].is_intent() ==> (r matches Ok(o) && o is None))
            &&& (c.len() > 0 && c[0].is_intent() ==> (match c[0].content {
                Some(b) => match spec_decode_intent(b) {
                    Some(iv) => r matches Ok(o) && (if iv.start_version == start_version {
                        o matches Some(ti) && ti@ == iv
                    } else {
                        o is None
                    }),
                    None => r matches Err(Error::InvalidData(_)),
                },
                None => r matches Err(Error::InvalidData(_)),
            }))
        }),
{
    let value = match engine.get(shard_id, key) {
        None => {
            return Ok(None);
        },
        Some(v) => v,
    };
    if value.version != TXN_INTENT_VERSION {
        return Ok(None);
    }
    let content = match value.content {
        Some(c) => c,
        None => {
            return Err(Error::InvalidData("txn intent without value".to_string()));
        },
    };
    let intent = match TxnIntent::decode(&content) {
        Some(i) => i,
        None => {
            return Err(Error::InvalidData("txn intent does not decode".to_string()));
        },
    };
    if intent.start_version != start_version {
        return Ok(None);
    }
    Ok(Some(intent))
}

/// Uniform view of one requested write; deletes come before puts.
pub struct WriteReqView {
    pub is_delete: bool,
    pub put_type: PutType,
    pub key: Seq<u8>,
    pub value: Seq<u8>,
    pub conditions: Seq<WriteConditionView>,
    pub take_prev_value: bool,
}

/// View of a delete request as a uniform write.
pub open spec fn spec_delete_view(d: DeleteRequest) -> WriteReqView {
    WriteReqView {
        is_delete: true,
        put_type: PutType::Direct,
        key: d.key@,
        value: Seq::<u8>::empty(),
        conditions: d.conditions@.map_values(|c: WriteCondition| c@),
        take_prev_value: d.take_prev_value,
    }
}

/// View of a put request as a uniform write.
pub open spec fn spec_put_view(p: PutRequest) -> WriteReqView {
    WriteReqView {
        is_delete: false,
        put_type: p.put_type,
        key: p.key@,
        value: p.value@,
        conditions: p.conditions@.map_values(|c: WriteCondition| c@),
        take_prev_value: p.take_prev_value,
    }
}

/// The writes of one shard request in evaluation order: deletes, then puts.
pub open spec fn spec_writes_of(w: ShardWriteRequest) -> Seq<WriteReqView> {
    w.deletes@.map_values(|d: DeleteRequest| spec_delete_view(d)) + w.puts@.map_values(
        |p: PutRequest| spec_put_view(p),
    )
}

/// Outcome of evaluating one write against the chain of its key.
pub enum StepView {
    /// The key already carries this transaction's intent: idempotent
    /// replay, nothing staged, conditions not evaluated.
    Skip { prev: Option<ValueView> },
    /// A condition failed; the whole request aborts.
    Fail { cond_idx: int, prev: Option<ValueView> },
    /// The put operation rejected its operands.
    Invalid,
    /// A fresh intent is staged for the key.
    Stage { intent: TxnIntentView, prev: Option<ValueView> },
}

/// Evaluates one write against its chain.
///
/// Assumes the chain's top intent, if any, belongs to this transaction
/// (see [`spec_clean_chain`]); a foreign intent is resolved through the
/// latch guard before this step applies.
pub open spec fn spec_step_write(c: Seq<ValueView>, sv: u64, w: WriteReqView) -> StepView {
    if c.len() > 0 && c[0].is_intent() {
        StepView::Skip {
            prev: if c.len() > 1 {
                Some(c[1])
            } else {
                None
            },
        }
    } else {
        let prev = if c.len() > 0 {
            Some(c[0])
        } else {
            None::<ValueView>
        };
        match spec_first_failed(prev, w.conditions) {
            Some(ci) => StepView::Fail { cond_idx: ci, prev },
            None => {
                if w.is_delete {
                    StepView::Stage {
                        intent: TxnIntentView { start_version: sv, is_delete: true, value: None },
                        prev,
                    }
                } else {
                    match spec_apply_put(w.put_type, prev, w.value) {
                        None => StepView::Invalid,
                        Some(stored) => StepView::Stage {
                            intent: TxnIntentView {
                                start_version: sv,
                                is_delete: false,
                                value: stored,
                            },
                            prev,
                        },
                    }
                }
            },
        }
    }
}

/// A chain is clean for `sv` when its top intent, if any, is this
/// transaction's own, stored with content that decodes.
pub open spec fn spec_clean_chain(c: Seq<ValueView>, sv: u64) -> bool {
    (c.len() > 0 && c[0].is_intent()) ==> (c[0].content matches Some(b) && (spec_decode_intent(b)
        matches Some(iv) && iv.start_version == sv))
}

/// The step of write `i` against the engine.
pub open spec fn spec_step_at(
    e: GroupEngine,
    sv: u64,
    shard_id: u64,
    ws: Seq<WriteReqView>,
    i: int,
) -> StepView {
    spec_step_write(e.chain_of(shard_id, ws[i].key), sv, ws[i])
}

/// All touched chains are clean: no foreign or corrupt intent anywhere.
pub open spec fn spec_clean_writes(
    e: GroupEngine,
    sv: u64,
    shard_id: u64,
    ws: Seq<WriteReqView>,
) -> bool {
    forall|i: int|
        0 <= i < ws.len() ==> spec_clean_chain(e.chain_of(shard_id, (#[trigger] ws[i]).key), sv)
}

/// Whether a step aborts the request.
pub open spec fn spec_is_fail(s: StepView) -> bool {
    s is Fail || s is Invalid
}

/// First aborting write at or after `i`, if any.
pub open spec fn spec_first_fail_from(
    e: GroupEngine,
    sv: u64,
    shard_id: u64,
    ws: Seq<WriteReqView>,
    i: int,
) -> Option<int>
    decreases ws.len() - i,
{
    if i < 0 || i >= ws.len() {
        None
    } else if spec_is_fail(spec_step_at(e, sv, shard_id, ws, i)) {
        Some(i)
    } else {
        spec_first_fail_from(e, sv, shard_id, ws, i + 1)
    }
}

/// Skipping over non-aborting writes does not change the first failure.
pub proof fn lemma_first_fail_extend(
    e: GroupEngine,
    sv: u64,
    shard_id: u64,
    ws: Seq<WriteReqView>,
    i: int,
    j: int,
)
    requires
        0 <= i <= j <= ws.len(),
        forall|a: int| i <= a < j ==> !spec_is_fail(#[trigger] spec_step_at(e, sv, shard_id, ws, a)),
    ensures
        spec_first_fail_from(e, sv, shard_id, ws, i) == spec_first_fail_from(e, sv, shard_id, ws, j),
    decreases j - i,
{
    if i < j {
        lemma_first_fail_extend(e, sv, shard_id, ws, i + 1, j);
    }
}

/// The staged op for one fresh intent: a put at the intent version.
pub open spec fn spec_staged_op(shard_id: u64, key: Seq<u8>, intent: TxnIntentView) -> WriteOpView {
    WriteOpView::Put {
        shard_id,
        key,
        value: spec_encode_intent(intent),
        version: TXN_INTENT_VERSION,
    }
}

/// The batch staged by the first `i` writes, in order.
pub open spec fn spec_staged_prefix(
    e: GroupEngine,
    sv: u64,
    shard_id: u64,
    ws: Seq<WriteReqView>,
    i: int,
) -> Seq<WriteOpView>
    decreases i,
{
    if i <= 0 {
        Seq::<WriteOpView>::empty()
    } else {
        spec_staged_prefix(e, sv, shard_id, ws, i - 1) + (match spec_step_at(
            e,
            sv,
            shard_id,
            ws,
            i - 1,
        ) {
            StepView::Stage { intent, prev } => seq![spec_staged_op(shard_id, ws[i - 1].key, intent)],
            _ => Seq::<WriteOpView>::empty(),
        })
    }
}

/// The previous value reported for write `i`, gated by `take_prev_value`.
pub open spec fn spec_resp_at(
    e: GroupEngine,
    sv: u64,
    shard_id: u64,
    ws: Seq<WriteReqView>,
    i: int,
) -> Option<ValueView> {
    if ws[i].take_prev_value {
        match spec_step_at(e, sv, shard_id, ws, i) {
            StepView::Skip { prev } => prev,
            StepView::Fail { cond_idx, prev } => prev,
            StepView::Invalid => None,
            StepView::Stage { intent, prev } => prev,
        }
    } else {
        None
    }
}

/// Every op of the batch is a put of this transaction's intent record at
/// the intent version, on the request's shard.
pub open spec fn spec_all_intent_puts(ops: Seq<WriteOpView>, shard_id: u64, sv: u64) -> bool {
    forall|j: int|
        0 <= j < ops.len() ==> ((#[trigger] ops[j]) matches WriteOpView::Put {
            shard_id: s2,
            key,
            value,
            version,
        } && s2 == shard_id && version == TXN_INTENT_VERSION && (spec_decode_intent(value)
            matches Some(iv) && iv.start_version == sv))
}

/// The full contract of [`write_intent`], deterministic wherever no other
/// transaction's intent (and no corrupt record) stands in the way.
pub open spec fn spec_write_intent_post(
    e: GroupEngine,
    req: WriteIntentRequest,
    r: Result<(Option<EvalResult>, WriteIntentResponse), Error>,
) -> bool {
    match req.write {
        None => r matches Err(Error::InvalidArgument(_)),
        Some(w) => {
            let sv = req.start_version;
            let shard_id = w.shard_id;
            let ws = spec_writes_of(w);
            spec_clean_writes(e, sv, shard_id, ws) ==> (match spec_first_fail_from(
                e,
                sv,
                shard_id,
                ws,
                0,
            ) {
                Some(i) => match spec_step_at(e, sv, shard_id, ws, i) {
                    StepView::Fail { cond_idx, prev } => (r matches Err(
                        Error::CasFailed(idx, ci, p),
                    ) && idx == i && ci == cond_idx && spec_opt_value_view(p) == prev),
                    _ => r matches Err(Error::InvalidArgument(_)),
                },
                None => (r matches Ok(pair) && {
                    let staged = spec_staged_prefix(e, sv, shard_id, ws, ws.len() as int);
                    &&& (pair.1.write matches Some(sr) && {
                        &&& sr.deletes@.len() == w.deletes@.len()
                        &&& sr.puts@.len() == w.puts@.len()
                        &&& (forall|i: int|
                            0 <= i < w.deletes@.len() ==> spec_opt_value_view(
                                (#[trigger] sr.deletes@[i]).prev_value,
                            ) == spec_resp_at(e, sv, shard_id, ws, i))
                        &&& (forall|i: int|
                            0 <= i < w.puts@.len() ==> spec_opt_value_view(
                                (#[trigger] sr.puts@[i]).prev_value,
                            ) == spec_resp_at(e, sv, shard_id, ws, w.deletes@.len() + i))
                    })
                    &&& (staged.len() == 0 ==> pair.0 is None)
                    &&& (staged.len() > 0 ==> (pair.0 matches Some(er) && er.batch@ == staged))
                }),
            })
        },
    }
}

/// Evaluates a transactional write request against the engine.
///
/// For each requested write (deletes first, then puts, with the global
/// index counting deletes before puts) the evaluator reads the key's
/// chain, skips the write when this transaction's intent is already there,
/// resolves any other transaction's intent through the latch guard,
/// evaluates the conditions, and stages a fresh intent. The first failing
/// condition aborts with `CasFailed(index, condition, previous)`; an
/// invalid put operand aborts with `InvalidArgument`. The staged batch is
/// absent exactly when every write was an idempotent replay.
///
/// A successful response always carries one entry per requested delete
/// and one per requested put, in request order, and an entry holds a
/// previous value only where its write set `take_prev_value`.
///
/// Wherever no foreign or corrupt intent is involved, the outcome is
/// pinned exactly by [`spec_write_intent_post`]; the latch guard then
/// never decides anything.
pub fn write_intent<T: LatchGuard>(
    group_engine: &GroupEngine,
    latch_guard: &mut T,
    req: &WriteIntentRequest,
) -> (r: Result<(Option<EvalResult>, WriteIntentResponse), Error>)
    requires
        group_engine.wf(),
        req.write matches Some(w) ==> w.deletes@.len() + w.puts@.len() <= u64::MAX,
    ensures
        spec_write_intent_post(*group_engine, *req, r),
        req.write matches Some(w) ==> (r matches Ok(pair) ==> (pair.0 matches Some(er)
            ==> spec_all_intent_puts(er.batch@, w.shard_id, req.start_version))),
        req.write matches Some(w) ==> (r matches Ok(pair) ==> (pair.1.write matches Some(sr) && {
            &&& sr.deletes@.len() == w.deletes@.len()
            &&& sr.puts@.len() == w.puts@.len()
            &&& (forall|i: int|
                0 <= i < w.deletes@.len() && !(#[trigger] w.deletes@[i]).take_prev_value
                    ==> sr.deletes@[i].prev_value is None)
            &&& (forall|i: int|
                0 <= i < w.puts@.len() && !(#[trigger] w.puts@[i]).take_prev_value
                    ==> sr.puts@[i].prev_value is None)
        })),
{
    let w = match &req.write {
        Some(w) => w,
        None => {
            return Err(Error::InvalidArgument("`write` is required".to_string()));
        },
    };
    let sv = req.start_version;
    let shard_id = w.shard_id;
    let ghost e = *group_engine;
    let ghost ws = spec_writes_of(*w);
    let ghost cl = spec_clean_writes(e, sv, shard_id, ws);
    let dl = w.deletes.len();
    let pl = w.puts.len();
    proof {
        assert(ws.len() == dl + pl);
    }
    let mut wb = WriteBatch::new();
    let mut resp_deletes: Vec<WriteResponse> = Vec::new();
    let mut resp_puts: Vec<WriteResponse> = Vec::new();
    let mut i: usize = 0;
    while i < dl
        invariant
            i <= dl,
            dl == w.deletes@.len(),
            pl == w.puts@.len(),
            group_engine.wf(),
            e == *group_engine,
            req.write == Some(*w),
            ws == spec_writes_of(*w),
            sv == req.start_version,
            shard_id == w.shard_id,
            cl == spec_clean_writes(e, sv, shard_id, ws),
            spec_all_intent_puts(wb@, shard_id, sv),
            resp_deletes@.len() == i,
            forall|j: int|
                0 <= j < i && !(#[trigger] w.deletes@[j]).take_prev_value
                    ==> resp_deletes@[j].prev_value is None,
            cl ==> (forall|j: int|
                0 <= j < i ==> !spec_is_fail(#[trigger] spec_step_at(e, sv, shard_id, ws, j))),
            cl ==> wb@ == spec_staged_prefix(e, sv, shard_id, ws, i as int),
            cl ==> (forall|j: int|
                0 <= j < i ==> spec_opt_value_view((#[trigger] resp_deletes@[j]).prev_value)
                    == spec_resp_at(e, sv, shard_id, ws, j)),
        decreases dl - i,
    {
        let del = &w.deletes[i];
        let ghost gi = i as int;
        let ghost wv = ws[gi];
        let ghost c = e.chain_of(shard_id, del.key@);
        proof {
            assert(wv == spec_delete_view(w.deletes@[gi]));
            assert(wv.key == del.key@);
            if cl {
                assert(spec_clean_chain(e.chain_of(shard_id, ws[gi].key), sv));
            }
        }
        let read = match read_intent_and_next_key(group_engine, sv, shard_id, &del.key) {
            Ok(p) => p,
            Err(err) => {
                proof {
                    if cl {
                        assert(false);
                    }
                }
                return Err(err);
            },
        };
        let (intent_opt, prev_read) = read;
        let mut prev_value = prev_read;
        let mut skip_write = false;
        match intent_opt {
            Some(txn_intent) => {
                if txn_intent.start_version != sv {
                    proof {
                        if cl {
                            assert(false);
                        }
                    }
                    match latch_guard.resolve_txn(shard_id, &del.key, txn_intent) {
                        Ok(Some(v)) => {
                            prev_value = Some(v);
                        },
                        Ok(None) => {},
                        Err(err) => {
                            return Err(err);
                        },
                    }
                } else {
                    skip_write = true;
                }
            },
            None => {},
        }
        proof {
            if cl {
                if skip_write {
                    assert(spec_step_at(e, sv, shard_id, ws, gi) matches StepView::Skip { prev }
                        && spec_opt_value_view(prev_value) == prev);
                } else {
                    assert(c.len() > 0 ==> !c[0].is_intent());
                    assert(spec_opt_value_view(prev_value) == (if c.len() > 0 {
                        Some(c[0])
                    } else {
                        None::<ValueView>
                    }));
                }
            }
        }
        if !skip_write {
            match eval_conditions(prev_value.as_ref(), &del.conditions) {
                Some(cond_idx) => {
                    proof {
                        if cl {
                            assert(spec_step_at(e, sv, shard_id, ws, gi)
                                matches StepView::Fail { cond_idx: ci, prev }
                                && ci == cond_idx as int
                                && spec_opt_value_view(prev_value) == prev);
                            lemma_first_fail_extend(e, sv, shard_id, ws, 0, gi);
                        }
                    }
                    return Err(Error::CasFailed(i as u64, cond_idx as u64, prev_value));
                },
                None => {},
            }
            let staged_intent = TxnIntent::tombstone(sv);
            let intent_bytes = staged_intent.encode_to_vec();
            proof {
                crate::intent::lemma_intent_round_trip(staged_intent@);
            }
            let _ = group_engine.put(&mut wb, shard_id, &del.key, &intent_bytes, TXN_INTENT_VERSION);
        }
        resp_deletes.push(
            WriteResponse {
                prev_value: if del.take_prev_value {
                    prev_value
                } else {
                    None
                },
            },
        );
        i = i + 1;
        proof {
            if cl {
                assert(!spec_is_fail(spec_step_at(e, sv, shard_id, ws, gi)));
                assert(wb@ == spec_staged_prefix(e, sv, shard_id, ws, gi + 1));
                assert(spec_opt_value_view(resp_deletes@[gi].prev_value) == spec_resp_at(
                    e,
                    sv,
                    shard_id,
                    ws,
                    gi,
                ));
            }
        }
    }
    let mut i: usize = 0;
    while i < pl
        invariant
            i <= pl,
            dl == w.deletes@.len(),
            pl == w.puts@.len(),
            dl + pl <= u64::MAX,
            group_engine.wf(),
            e == *group_engine,
            req.write == Some(*w),
            ws == spec_writes_of(*w),
            sv == req.start_version,
            shard_id == w.shard_id,
            cl == spec_clean_writes(e, sv, shard_id, ws),
            spec_all_intent_puts(wb@, shard_id, sv),
            resp_deletes@.len() == dl,
            resp_puts@.len() == i,
            forall|j: int|
                0 <= j < dl && !(#[trigger] w.deletes@[j]).take_prev_value
                    ==> resp_deletes@[j].prev_value is None,
            forall|j: int|
                0 <= j < i && !(#[trigger] w.puts@[j]).take_prev_value
                    ==> resp_puts@[j].prev_value is None,
            cl ==> (forall|j: int|
                0 <= j < dl + i ==> !spec_is_fail(#[trigger] spec_step_at(e, sv, shard_id, ws, j))),
            cl ==> wb@ == spec_staged_prefix(e, sv, shard_id, ws, dl + i),
            cl ==> (forall|j: int|
                0 <= j < dl ==> spec_opt_value_view((#[trigger] resp_deletes@[j]).prev_value)
                    == spec_resp_at(e, sv, shard_id, ws, j)),
            cl ==> (forall|j: int|
                0 <= j < i ==> spec_opt_value_view((#[trigger] resp_puts@[j]).prev_value)
                    == spec_resp_at(e, sv, shard_id, ws, dl + j)),
        decreases pl - i,
    {
        let put = &w.puts[i];
        let ghost gi = dl + i as int;
        let ghost wv = ws[gi];
        let ghost c = e.chain_of(shard_id, put.key@);
        proof {
            assert(wv == spec_put_view(w.puts@[i as int]));
            assert(wv.key == put.key@);
            if cl {
                assert(spec_clean_chain(e.chain_of(shard_id, ws[gi].key), sv));
            }
        }
        let read = match read_intent_and_next_key(group_engine, sv, shard_id, &put.key) {
            Ok(p) => p,
            Err(err) => {
                proof {
                    if cl {
                        assert(false);
                    }
                }
                return Err(err);
            },
        };
        let (intent_opt, prev_read) = read;
        let mut prev_value = prev_read;
        let mut skip_write = false;
        match intent_opt {
            Some(txn_intent) => {
                if txn_intent.start_version != sv {
                    proof {
                        if cl {
                            assert(false);
                        }
                    }
                    match latch_guard.resolve_txn(shard_id, &put.key, txn_intent) {
                        Ok(Some(v)) => {
                            prev_value = Some(v);
                        },
                        Ok(None) => {},
                        Err(err) => {
                            return Err(err);
                        },
                    }
                } else {
                    skip_write = true;
                }
            },
            None => {},
        }
        proof {
            if cl {
                if skip_write {
                    assert(spec_step_at(e, sv, shard_id, ws, gi) matches StepView::Skip { prev }
                        && spec_opt_value_view(prev_value) == prev);
                } else {
                    assert(c.len() > 0 ==> !c[0].is_intent());
                    assert(spec_opt_value_view(prev_value) == (if c.len() > 0 {
                        Some(c[0])
                    } else {
                        None::<ValueView>
                    }));
                }
            }
        }
        if !skip_write {
            match eval_conditions(prev_value.as_ref(), &put.conditions) {
                Some(cond_idx) => {
                    proof {
                        if cl {
                            assert(spec_step_at(e, sv, shard_id, ws, gi)
                                matches StepView::Fail { cond_idx: ci, prev }
                                && ci == cond_idx as int
                                && spec_opt_value_view(prev_value) == prev);
                            lemma_first_fail_extend(e, sv, shard_id, ws, 0, gi);
                        }
                    }
                    let idx = (dl as u64) + (i as u64);
                    return Err(Error::CasFailed(idx, cond_idx as u64, prev_value));
                },
                None => {},
            }
            let apply_value = match apply_put_op(
                put.put_type,
                prev_value.as_ref(),
                clone_bytes(&put.value),
            ) {
                Ok(v) => v,
                Err(err) => {
                    proof {
                        if cl {
                            assert(spec_step_at(e, sv, shard_id, ws, gi) is Invalid);
                            lemma_first_fail_extend(e, sv, shard_id, ws, 0, gi);
                        }
                    }
                    return Err(err);
                },
            };
            let txn_intent = TxnIntent::with_put(sv, apply_value);
            let intent_bytes = txn_intent.encode_to_vec();
            proof {
                crate::intent::lemma_intent_round_trip(txn_intent@);
                if cl {
                    assert(spec_step_at(e, sv, shard_id, ws, gi) matches StepView::Stage {
                        intent,
                        prev,
                    } && intent_bytes@ == spec_encode_intent(intent));
                }
            }
            let _ = group_engine.put(&mut wb, shard_id, &put.key, &intent_bytes, TXN_INTENT_VERSION);
        }
        resp_puts.push(
            WriteResponse {
                prev_value: if put.take_prev_value {
                    prev_value
                } else {
                    None
                },
            },
        );
        i = i + 1;
        proof {
            if cl {
                assert(!spec_is_fail(spec_step_at(e, sv, shard_id, ws, gi)));
                assert(wb@ == spec_staged_prefix(e, sv, shard_id, ws, gi + 1));
                assert(spec_opt_value_view(resp_puts@[i - 1].prev_value) == spec_resp_at(
                    e,
                    sv,
                    shard_id,
                    ws,
                    gi,
                ));
            }
        }
    }
    proof {
        if cl {
            lemma_first_fail_extend(e, sv, shard_id, ws, 0, ws.len() as int);
        }
    }
    let ghost staged = wb@;
    let eval_result = if wb.is_empty() {
        None
    } else {
        Some(EvalResult::with_batch(wb))
    };
    let resp = WriteIntentResponse {
        write: Some(ShardWriteResponse { deletes: resp_deletes, puts: resp_puts }),
    };
    Ok((eval_result, resp))
}

/// The intent a commit or clear with `sv` matches on a chain: the top
/// record, when it is this transaction's decodable intent.
pub open spec fn spec_commit_step(c: Seq<ValueView>, sv: u64) -> Option<TxnIntentView> {
    if c.len() > 0 && c[0].is_intent() {
        match c[0].content {
            Some(b) => match spec_decode_intent(b) {
                Some(iv) => if iv.start_version == sv {
                    Some(iv)
                } else {
                    None
                },
                None => None,
            },
            None => None,
        }
    } else {
        None
    }
}

/// A chain whose top is an intent record that is missing its content or
/// does not decode: on-disk corruption.
pub open spec fn spec_corrupt_top(c: Seq<ValueView>) -> bool {
    c.len() > 0 && c[0].is_intent() && !(c[0].content matches Some(b) && spec_decode_intent(b)
        is Some)
}

/// Some requested key has a corrupt top record.
pub open spec fn spec_any_corrupt(e: GroupEngine, shard_id: u64, keys: Seq<Vec<u8>>) -> bool {
    exists|i: int| 0 <= i < keys.len() && spec_corrupt_top(e.chain_of(shard_id, (#[trigger] keys[i])@))
}

/// The ops a commit stages for one key: delete the intent, then insert the
/// committed record — a tombstone for a deleting intent, the intent's
/// value when it holds one, and nothing for a no-op intent.
pub open spec fn spec_commit_key_ops(
    c: Seq<ValueView>,
    sv: u64,
    cv: u64,
    shard_id: u64,
    key: Seq<u8>,
) -> Seq<WriteOpView> {
    match spec_commit_step(c, sv) {
        None => Seq::<WriteOpView>::empty(),
        Some(iv) => seq![
            WriteOpView::Delete { shard_id, key, version: TXN_INTENT_VERSION },
        ] + (if iv.is_delete {
            seq![WriteOpView::Tombstone { shard_id, key, version: cv }]
        } else {
            match iv.value {
                Some(v) => seq![WriteOpView::Put { shard_id, key, value: v, version: cv }],
                None => Seq::<WriteOpView>::empty(),
            }
        }),
    }
}

/// The batch staged by committing the first `i` keys, in order.
pub open spec fn spec_commit_prefix(e: GroupEngine, req: CommitIntentRequest, i: int) -> Seq<
    WriteOpView,
>
    decreases i,
{
    if i <= 0 {
        Seq::<WriteOpView>::empty()
    } else {
        spec_commit_prefix(e, req, i - 1) + spec_commit_key_ops(
            e.chain_of(req.shard_id, req.keys@[i - 1]@),
            req.start_version,
            req.commit_version,
            req.shard_id,
            req.keys@[i - 1]@,
        )
    }
}

/// The ops a clear stages for one key: drop the matching intent.
pub open spec fn spec_clear_key_ops(
    c: Seq<ValueView>,
    sv: u64,
    shard_id: u64,
    key: Seq<u8>,
) -> Seq<WriteOpView> {
    match spec_commit_step(c, sv) {
        None => Seq::<WriteOpView>::empty(),
        Some(iv) => seq![WriteOpView::Delete { shard_id, key, version: TXN_INTENT_VERSION }],
    }
}

/// The batch staged by clearing the first `i` keys, in order.
pub open spec fn spec_clear_prefix(e: GroupEngine, req: ClearIntentRequest, i: int) -> Seq<
    WriteOpView,
>
    decreases i,
{
    if i <= 0 {
        Seq::<WriteOpView>::empty()
    } else {
        spec_clear_prefix(e, req, i - 1) + spec_clear_key_ops(
            e.chain_of(req.shard_id, req.keys@[i - 1]@),
            req.start_version,
            req.shard_id,
            req.keys@[i - 1]@,
        )
    }
}

/// Commits the intents of the requested keys.
///
/// A key whose top record is not this transaction's intent is skipped,
/// which makes replaying a commit harmless; the result is `None` exactly
/// when nothing was left to commit. Waiters are woken with `Committed` and
/// the commit version. A corrupt intent record is `InvalidData`.
pub fn commit_intent<T: LatchGuard>(
    group_engine: &GroupEngine,
    latch_guard: &mut T,
    req: &CommitIntentRequest,
) -> (r: Result<Option<EvalResult>, Error>)
    requires
        group_engine.wf(),
    ensures
        spec_any_corrupt(*group_engine, req.shard_id, req.keys@) ==> r matches Err(
            Error::InvalidData(_),
        ),
        !spec_any_corrupt(*group_engine, req.shard_id, req.keys@) ==> (r matches Ok(res) && {
            let ops = spec_commit_prefix(*group_engine, *req, req.keys@.len() as int);
            &&& (ops.len() == 0 ==> res is None)
            &&& (ops.len() > 0 ==> (res matches Some(er) && er.batch@ == ops))
        }),
{
    let ghost e = *group_engine;
    let mut wb = WriteBatch::new();
    let n = req.keys.len();
    let mut i: usize = 0;
    while i < n
        invariant
            i <= n,
            n == req.keys@.len(),
            group_engine.wf(),
            e == *group_engine,
            forall|j: int|
                0 <= j < i ==> !spec_corrupt_top(e.chain_of(req.shard_id, (#[trigger] req.keys@[j])@)),
            wb@ == spec_commit_prefix(e, *req, i as int),
        decreases n - i,
    {
        let key = &req.keys[i];
        let ghost c = e.chain_of(req.shard_id, key@);
        let intent = match read_target_intent(group_engine, req.start_version, req.shard_id, key) {
            Ok(o) => o,
            Err(err) => {
                proof {
                    assert(spec_corrupt_top(c));
                    assert(spec_any_corrupt(e, req.shard_id, req.keys@));
                }
                return Err(err);
            },
        };
        match intent {
            None => {},
            Some(intent) => {
                let _ = group_engine.delete(&mut wb, req.shard_id, key, TXN_INTENT_VERSION);
                if intent.is_delete {
                    let _ = group_engine.tombstone(&mut wb, req.shard_id, key, req.commit_version);
                } else {
                    match &intent.value {
                        Some(value) => {
                            let _ = group_engine.put(
                                &mut wb,
                                req.shard_id,
                                key,
                                value,
                                req.commit_version,
                            );
                        },
                        None => {},
                    }
                }
            },
        }
        i = i + 1;
        proof {
            assert(wb@ == spec_commit_prefix(e, *req, i as int));
        }
    }
    latch_guard.signal_all(TxnState::Committed, Some(req.commit_version));
    proof {
        assert(!spec_any_corrupt(e, req.shard_id, req.keys@));
    }
    if wb.is_empty() {
        Ok(None)
    } else {
        Ok(Some(EvalResult::with_batch(wb)))
    }
}

/// Clears the intents of the requested keys without committing them.
///
/// Only matching intent records are dropped; replaying a clear is
/// harmless, and the result is `None` exactly when nothing was left to
/// clear. Waiters are woken with `Aborted`.
pub fn clear_intent<T: LatchGuard>(
    group_engine: &GroupEngine,
    latch_guard: &mut T,
    req: &ClearIntentRequest,
) -> (r: Result<Option<EvalResult>, Error>)
    requires
        group_engine.wf(),
    ensures
        spec_any_corrupt(*group_engine, req.shard_id, req.keys@) ==> r matches Err(
            Error::InvalidData(_),
        ),
        !spec_any_corrupt(*group_engine, req.shard_id, req.keys@) ==> (r matches Ok(res) && {
            let ops = spec_clear_prefix(*group_engine, *req, req.keys@.len() as int);
            &&& (ops.len() == 0 ==> res is None)
            &&& (ops.len() > 0 ==> (res matches Some(er) && er.batch@ == ops))
        }),
{
    let ghost e = *group_engine;
    let mut wb = WriteBatch::new();
    let n = req.keys.len();
    let mut i: usize = 0;
    while i < n
        invariant
            i <= n,
            n == req.keys@.len(),
            group_engine.wf(),
            e == *group_engine,
            forall|j: int|
                0 <= j < i ==> !spec_corrupt_top(e.chain_of(req.shard_id, (#[trigger] req.keys@[j])@)),
            wb@ == spec_clear_prefix(e, *req, i as int),
        decreases n - i,
    {
        let key = &req.keys[i];
        let ghost c = e.chain_of(req.shard_id, key@);
        let intent = match read_target_intent(group_engine, req.start_version, req.shard_id, key) {
            Ok(o) => o,
            Err(err) => {
                proof {
                    assert(spec_corrupt_top(c));
                    assert(spec_any_corrupt(e, req.shard_id, req.keys@));
                }
                return Err(err);
            },
        };
        if intent.is_some() {
            let _ = group_engine.delete(&mut wb, req.shard_id, key, TXN_INTENT_VERSION);
        }
        i = i + 1;
        proof {
            assert(wb@ == spec_clear_prefix(e, *req, i as int));
        }
    }
    latch_guard.signal_all(TxnState::Aborted, None);
    proof {
        assert(!spec_any_corrupt(e, req.shard_id, req.keys@));
    }
    if wb.is_empty() {
        Ok(None)
    } else {
        Ok(Some(EvalResult::with_batch(wb)))
    }
}

} // verus!
