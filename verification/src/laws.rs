//! The laws of the write path, proved once and for all.
//!
//! These proof functions relate the contracts of `write_intent`,
//! `commit_intent` and `clear_intent` across a whole propose/apply cycle:
//! a committed write is observed by a later read, replaying any phase of a
//! transaction changes nothing, and a no-op intent commits nothing.

use vstd::prelude::*;

use crate::engine::{
    apply_batch_to_chain, apply_op_to_chain, chain_insert, chain_remove, descending,
    lemma_chain_insert_newest, GroupEngine, WriteOpView,
};
use crate::eval::{
    spec_writes_of,
    spec_any_corrupt, spec_clean_chain, spec_clean_writes, spec_clear_prefix, spec_commit_prefix,
    spec_commit_step, spec_corrupt_top, spec_first_fail_from, spec_is_fail, spec_staged_op,
    spec_staged_prefix, spec_step_at, spec_step_write, ClearIntentRequest, CommitIntentRequest,
    StepView, WriteReqView,
};
use crate::cond::{spec_cond_holds, spec_exists_value, WriteConditionView};
use crate::intent::{lemma_intent_round_trip, spec_encode_intent, TxnIntentView};
use crate::value::{ValueView, TXN_INTENT_VERSION};

verus! {

/// Whether an op addresses the chain of `(s, k)`.
pub open spec fn spec_op_on(op: WriteOpView, s: u64, k: Seq<u8>) -> bool {
    match op {
        WriteOpView::Put { shard_id, key, value, version } => shard_id == s && key == k,
        WriteOpView::Tombstone { shard_id, key, version } => shard_id == s && key == k,
        WriteOpView::Delete { shard_id, key, version } => shard_id == s && key == k,
    }
}

/// Batches apply one after the other.
pub proof fn lemma_apply_batch_concat(c: Seq<ValueView>, a: Seq<WriteOpView>, b: Seq<WriteOpView>, s: u64, k: Seq<u8>)
    ensures
        apply_batch_to_chain(c, a + b, s, k) == apply_batch_to_chain(
            apply_batch_to_chain(c, a, s, k),
            b,
            s,
            k,
        ),
    decreases b.len(),
{
    if b.len() == 0 {
        assert(a + b =~= a);
    } else {
        lemma_apply_batch_concat(c, a, b.drop_last(), s, k);
        assert((a + b).drop_last() =~= a + b.drop_last());
        assert((a + b).last() == b.last());
    }
}

/// Ops on other keys leave a chain alone.
pub proof fn lemma_apply_batch_off_key(c: Seq<ValueView>, ops: Seq<WriteOpView>, s: u64, k: Seq<u8>)
    requires
        forall|j: int| 0 <= j < ops.len() ==> !spec_op_on(#[trigger] ops[j], s, k),
    ensures
        apply_batch_to_chain(c, ops, s, k) == c,
    decreases ops.len(),
{
    if ops.len() > 0 {
        lemma_apply_batch_off_key(c, ops.drop_last(), s, k);
    }
}

/// A singleton batch is its one op.
pub proof fn lemma_apply_batch_single(c: Seq<ValueView>, op: WriteOpView, s: u64, k: Seq<u8>)
    ensures
        apply_batch_to_chain(c, seq![op], s, k) == apply_op_to_chain(c, op, s, k),
{
    let one = seq![op];
    assert(one.len() == 1);
    assert(one.drop_last() =~= Seq::<WriteOpView>::empty());
    assert(apply_batch_to_chain(c, one.drop_last(), s, k) == c);
    assert(one.last() == op);
    assert(apply_batch_to_chain(c, one, s, k) == apply_op_to_chain(
        apply_batch_to_chain(c, one.drop_last(), s, k),
        one.last(),
        s,
        k,
    ));
}

/// What the staged batch of a write request does to the chain of one key:
/// nothing when no write stages an intent for it, and otherwise it leaves
/// this transaction's intent on top of the unchanged rest of the chain.
pub proof fn lemma_staged_prefix_effect(
    e: GroupEngine,
    sv: u64,
    shard_id: u64,
    ws: Seq<WriteReqView>,
    i: int,
    s: u64,
    k: Seq<u8>,
)
    requires
        0 <= i <= ws.len(),
        spec_clean_writes(e, sv, shard_id, ws),
        descending(e.chain_of(shard_id, k)),
    ensures
        (s != shard_id || forall|j: int|
            0 <= j < i ==> ((#[trigger] ws[j]).key != k || !(spec_step_at(e, sv, shard_id, ws, j)
                is Stage))) ==> apply_batch_to_chain(e.chain_of(s, k), spec_staged_prefix(e, sv, shard_id, ws, i), s, k)
            == e.chain_of(s, k),
        (s == shard_id && exists|j: int|
            0 <= j < i && (#[trigger] ws[j]).key == k && spec_step_at(e, sv, shard_id, ws, j)
                is Stage) ==> (exists|iv: TxnIntentView|
            iv.start_version == sv && apply_batch_to_chain(
                e.chain_of(s, k),
                spec_staged_prefix(e, sv, shard_id, ws, i),
                s,
                k,
            ) == seq![
                ValueView { version: TXN_INTENT_VERSION, content: Some(spec_encode_intent(iv)) },
            ] + e.chain_of(s, k)),
    decreases i,
{
    let c0 = e.chain_of(s, k);
    if i == 0 {
    } else {
        lemma_staged_prefix_effect(e, sv, shard_id, ws, i - 1, s, k);
        let pre = spec_staged_prefix(e, sv, shard_id, ws, i - 1);
        let whole = spec_staged_prefix(e, sv, shard_id, ws, i);
        let step = spec_step_at(e, sv, shard_id, ws, i - 1);
        match step {
            StepView::Stage { intent, prev } => {
                let op = spec_staged_op(shard_id, ws[i - 1].key, intent);
                assert(whole == pre + seq![op]);
                lemma_apply_batch_concat(c0, pre, seq![op], s, k);
                lemma_apply_batch_single(apply_batch_to_chain(c0, pre, s, k), op, s, k);
                if s == shard_id && ws[i - 1].key == k {
                    // This write stages an intent for (s, k).
                    let cw = e.chain_of(shard_id, ws[i - 1].key);
                    assert(cw == c0);
                    assert(intent.start_version == sv);
                    assert(cw.len() > 0 ==> !cw[0].is_intent()) by {
                        if cw.len() > 0 && cw[0].is_intent() {
                            assert(spec_step_write(cw, sv, ws[i - 1]) is Skip);
                        }
                    }
                    assert(cw.len() > 0 ==> cw[0].version < TXN_INTENT_VERSION);
                    let rec = ValueView {
                        version: TXN_INTENT_VERSION,
                        content: Some(spec_encode_intent(intent)),
                    };
                    if exists|j: int|
                        0 <= j < i - 1 && (#[trigger] ws[j]).key == k && spec_step_at(
                            e,
                            sv,
                            shard_id,
                            ws,
                            j,
                        ) is Stage {
                        let iv0 = choose|iv0: TxnIntentView|
                            iv0.start_version == sv && apply_batch_to_chain(c0, pre, s, k) == seq![
                                ValueView {
                                    version: TXN_INTENT_VERSION,
                                    content: Some(spec_encode_intent(iv0)),
                                },
                            ] + c0;
                        let mid = apply_batch_to_chain(c0, pre, s, k);
                        assert(mid[0].version == TXN_INTENT_VERSION);
                        assert(apply_op_to_chain(mid, op, s, k) == chain_insert(mid, rec));
                        assert(chain_insert(mid, rec) =~= seq![rec] + c0) by {
                            assert(mid.drop_first() =~= c0);
                        }
                        assert(apply_batch_to_chain(c0, whole, s, k) == seq![rec] + c0);
                    } else {
                        assert(apply_batch_to_chain(c0, pre, s, k) == c0);
                        lemma_chain_insert_newest(c0, rec);
                        assert(apply_batch_to_chain(c0, whole, s, k) == seq![rec] + c0);
                    }
                    assert(exists|iv: TxnIntentView|
                        iv.start_version == sv && apply_batch_to_chain(c0, whole, s, k) == seq![
                            ValueView {
                                version: TXN_INTENT_VERSION,
                                content: Some(spec_encode_intent(iv)),
                            },
                        ] + c0) by {
                        assert(intent.start_version == sv && apply_batch_to_chain(c0, whole, s, k)
                            == seq![
                            ValueView {
                                version: TXN_INTENT_VERSION,
                                content: Some(spec_encode_intent(intent)),
                            },
                        ] + c0);
                    }
                } else {
                    assert(!spec_op_on(op, s, k));
                    assert(apply_op_to_chain(apply_batch_to_chain(c0, pre, s, k), op, s, k)
                        == apply_batch_to_chain(c0, pre, s, k));
                }
            },
            _ => {
                assert(whole =~= pre + Seq::<WriteOpView>::empty());
                assert(whole =~= pre);
            },
        }
    }
}

/// Inserting into a descending chain puts either the new record or the
/// old head on top.
pub proof fn lemma_chain_insert_top(c: Seq<ValueView>, v: ValueView)
    ensures
        chain_insert(c, v).len() > 0,
        chain_insert(c, v)[0] == v || (c.len() > 0 && chain_insert(c, v)[0] == c[0]),
{
}

/// Where no write stages an intent, the first `i` writes stage nothing.
pub proof fn lemma_staged_prefix_all_skip(
    e: GroupEngine,
    sv: u64,
    shard_id: u64,
    ws: Seq<WriteReqView>,
    i: int,
)
    requires
        0 <= i <= ws.len(),
        forall|j: int| 0 <= j < i ==> #[trigger] spec_step_at(e, sv, shard_id, ws, j) is Skip,
    ensures
        spec_staged_prefix(e, sv, shard_id, ws, i) == Seq::<WriteOpView>::empty(),
    decreases i,
{
    if i > 0 {
        lemma_staged_prefix_all_skip(e, sv, shard_id, ws, i - 1);
        assert(spec_staged_prefix(e, sv, shard_id, ws, i) =~= Seq::<WriteOpView>::empty());
    }
}

/// A request without a first failing write has no failing write at all.
pub proof fn lemma_first_fail_none_all(
    e: GroupEngine,
    sv: u64,
    shard_id: u64,
    ws: Seq<WriteReqView>,
    i: int,
)
    requires
        spec_first_fail_from(e, sv, shard_id, ws, 0) is None,
        0 <= i < ws.len(),
    ensures
        !spec_is_fail(spec_step_at(e, sv, shard_id, ws, i)),
    decreases i,
{
    if i == 0 {
    } else {
        lemma_first_fail_none_all_from(e, sv, shard_id, ws, 0, i);
    }
}

proof fn lemma_first_fail_none_all_from(
    e: GroupEngine,
    sv: u64,
    shard_id: u64,
    ws: Seq<WriteReqView>,
    j: int,
    i: int,
)
    requires
        spec_first_fail_from(e, sv, shard_id, ws, j) is None,
        0 <= j <= i < ws.len(),
    ensures
        !spec_is_fail(spec_step_at(e, sv, shard_id, ws, i)),
    decreases i - j,
{
    if j < i {
        lemma_first_fail_none_all_from(e, sv, shard_id, ws, j + 1, i);
    }
}

/// The staged batch of a request whose write `j` is the only one touching
/// its key rewrites that key's chain to exactly write `j`'s fresh intent
/// on top of the old chain.
pub proof fn lemma_staged_prefix_effect_unique(
    e: GroupEngine,
    sv: u64,
    shard_id: u64,
    ws: Seq<WriteReqView>,
    i: int,
    j: int,
)
    requires
        0 <= j < i <= ws.len(),
        spec_clean_writes(e, sv, shard_id, ws),
        descending(e.chain_of(shard_id, ws[j].key)),
        forall|m: int| 0 <= m < i && m != j ==> (#[trigger] ws[m]).key != ws[j].key,
        spec_step_at(e, sv, shard_id, ws, j) is Stage,
    ensures
        ({
            let k = ws[j].key;
            let c0 = e.chain_of(shard_id, k);
            let intent = spec_step_at(e, sv, shard_id, ws, j)->Stage_intent;
            apply_batch_to_chain(c0, spec_staged_prefix(e, sv, shard_id, ws, i), shard_id, k)
                == seq![
                ValueView { version: TXN_INTENT_VERSION, content: Some(spec_encode_intent(intent)) },
            ] + c0
        }),
    decreases i,
{
    let k = ws[j].key;
    let c0 = e.chain_of(shard_id, k);
    let intent = spec_step_at(e, sv, shard_id, ws, j)->Stage_intent;
    let rec = ValueView { version: TXN_INTENT_VERSION, content: Some(spec_encode_intent(intent)) };
    let pre = spec_staged_prefix(e, sv, shard_id, ws, i - 1);
    let whole = spec_staged_prefix(e, sv, shard_id, ws, i);
    if i - 1 == j {
        lemma_staged_prefix_effect(e, sv, shard_id, ws, j, shard_id, k);
        assert(apply_batch_to_chain(c0, pre, shard_id, k) == c0);
        let op = spec_staged_op(shard_id, k, intent);
        assert(whole == pre + seq![op]);
        lemma_apply_batch_concat(c0, pre, seq![op], shard_id, k);
        lemma_apply_batch_single(c0, op, shard_id, k);
        assert(c0.len() > 0 ==> !c0[0].is_intent()) by {
            if c0.len() > 0 && c0[0].is_intent() {
                assert(spec_step_write(c0, sv, ws[j]) is Skip);
            }
        }
        lemma_chain_insert_newest(c0, rec);
    } else {
        lemma_staged_prefix_effect_unique(e, sv, shard_id, ws, i - 1, j);
        match spec_step_at(e, sv, shard_id, ws, i - 1) {
            StepView::Stage { intent: int2, prev } => {
                let op = spec_staged_op(shard_id, ws[i - 1].key, int2);
                assert(whole == pre + seq![op]);
                lemma_apply_batch_concat(c0, pre, seq![op], shard_id, k);
                lemma_apply_batch_single(apply_batch_to_chain(c0, pre, shard_id, k), op, shard_id, k);
                assert(!spec_op_on(op, shard_id, k));
            },
            _ => {
                assert(whole =~= pre);
            },
        }
    }
}

/// The commit batch restricted to one key: nothing when the key is not
/// listed, and exactly the key's own ops when it is listed once.
pub proof fn lemma_commit_prefix_effect(
    e1: GroupEngine,
    creq: CommitIntentRequest,
    i: int,
    s: u64,
    k: Seq<u8>,
)
    requires
        0 <= i <= creq.keys@.len(),
    ensures
        (s != creq.shard_id || forall|m: int| 0 <= m < i ==> (#[trigger] creq.keys@[m])@ != k)
            ==> apply_batch_to_chain(
            e1.chain_of(s, k),
            spec_commit_prefix(e1, creq, i),
            s,
            k,
        ) == e1.chain_of(s, k),
    decreases i,
{
    let c = e1.chain_of(s, k);
    if i > 0 {
        lemma_commit_prefix_effect(e1, creq, i - 1, s, k);
        if s != creq.shard_id || forall|m: int| 0 <= m < i ==> (#[trigger] creq.keys@[m])@ != k {
            let pre = spec_commit_prefix(e1, creq, i - 1);
            let tail = crate::eval::spec_commit_key_ops(
                e1.chain_of(creq.shard_id, creq.keys@[i - 1]@),
                creq.start_version,
                creq.commit_version,
                creq.shard_id,
                creq.keys@[i - 1]@,
            );
            lemma_apply_batch_concat(c, pre, tail, s, k);
            assert(forall|m: int| 0 <= m < tail.len() ==> !spec_op_on(#[trigger] tail[m], s, k));
            lemma_apply_batch_off_key(apply_batch_to_chain(c, pre, s, k), tail, s, k);
        }
    }
}

/// The commit batch of a request that lists key `jj` exactly once acts on
/// that key's chain as the key's own ops alone.
pub proof fn lemma_commit_prefix_effect_unique(
    e1: GroupEngine,
    creq: CommitIntentRequest,
    i: int,
    jj: int,
)
    requires
        0 <= jj < i <= creq.keys@.len(),
        forall|m: int| 0 <= m < i && m != jj ==> (#[trigger] creq.keys@[m])@ != creq.keys@[jj]@,
    ensures
        ({
            let k = creq.keys@[jj]@;
            let c = e1.chain_of(creq.shard_id, k);
            apply_batch_to_chain(c, spec_commit_prefix(e1, creq, i), creq.shard_id, k)
                == apply_batch_to_chain(
                c,
                crate::eval::spec_commit_key_ops(
                    c,
                    creq.start_version,
                    creq.commit_version,
                    creq.shard_id,
                    k,
                ),
                creq.shard_id,
                k,
            )
        }),
    decreases i,
{
    let s = creq.shard_id;
    let k = creq.keys@[jj]@;
    let c = e1.chain_of(s, k);
    let pre = spec_commit_prefix(e1, creq, i - 1);
    let tail = crate::eval::spec_commit_key_ops(
        e1.chain_of(s, creq.keys@[i - 1]@),
        creq.start_version,
        creq.commit_version,
        s,
        creq.keys@[i - 1]@,
    );
    lemma_apply_batch_concat(c, pre, tail, s, k);
    if i - 1 == jj {
        lemma_commit_prefix_effect(e1, creq, jj, s, k);
        assert(apply_batch_to_chain(c, pre, s, k) == c);
    } else {
        lemma_commit_prefix_effect_unique(e1, creq, i - 1, jj);
        assert(forall|m: int| 0 <= m < tail.len() ==> !spec_op_on(#[trigger] tail[m], s, k));
        lemma_apply_batch_off_key(apply_batch_to_chain(c, pre, s, k), tail, s, k);
    }
}

/// The clear batch restricted to one key, in the same two shapes.
pub proof fn lemma_clear_prefix_effect(
    e1: GroupEngine,
    creq: ClearIntentRequest,
    i: int,
    s: u64,
    k: Seq<u8>,
)
    requires
        0 <= i <= creq.keys@.len(),
    ensures
        (s != creq.shard_id || forall|m: int| 0 <= m < i ==> (#[trigger] creq.keys@[m])@ != k)
            ==> apply_batch_to_chain(
            e1.chain_of(s, k),
            spec_clear_prefix(e1, creq, i),
            s,
            k,
        ) == e1.chain_of(s, k),
    decreases i,
{
    let c = e1.chain_of(s, k);
    if i > 0 {
        lemma_clear_prefix_effect(e1, creq, i - 1, s, k);
        if s != creq.shard_id || forall|m: int| 0 <= m < i ==> (#[trigger] creq.keys@[m])@ != k {
            let pre = spec_clear_prefix(e1, creq, i - 1);
            let tail = crate::eval::spec_clear_key_ops(
                e1.chain_of(creq.shard_id, creq.keys@[i - 1]@),
                creq.start_version,
                creq.shard_id,
                creq.keys@[i - 1]@,
            );
            lemma_apply_batch_concat(c, pre, tail, s, k);
            assert(forall|m: int| 0 <= m < tail.len() ==> !spec_op_on(#[trigger] tail[m], s, k));
            lemma_apply_batch_off_key(apply_batch_to_chain(c, pre, s, k), tail, s, k);
        }
    }
}

/// The clear batch of a request that lists key `jj` exactly once acts on
/// that key's chain as the key's own ops alone.
pub proof fn lemma_clear_prefix_effect_unique(e1: GroupEngine, creq: ClearIntentRequest, i: int, jj: int)
    requires
        0 <= jj < i <= creq.keys@.len(),
        forall|m: int| 0 <= m < i && m != jj ==> (#[trigger] creq.keys@[m])@ != creq.keys@[jj]@,
    ensures
        ({
            let k = creq.keys@[jj]@;
            let c = e1.chain_of(creq.shard_id, k);
            apply_batch_to_chain(c, spec_clear_prefix(e1, creq, i), creq.shard_id, k)
                == apply_batch_to_chain(
                c,
                crate::eval::spec_clear_key_ops(c, creq.start_version, creq.shard_id, k),
                creq.shard_id,
                k,
            )
        }),
    decreases i,
{
    let s = creq.shard_id;
    let k = creq.keys@[jj]@;
    let c = e1.chain_of(s, k);
    let pre = spec_clear_prefix(e1, creq, i - 1);
    let tail = crate::eval::spec_clear_key_ops(
        e1.chain_of(s, creq.keys@[i - 1]@),
        creq.start_version,
        s,
        creq.keys@[i - 1]@,
    );
    lemma_apply_batch_concat(c, pre, tail, s, k);
    if i - 1 == jj {
        lemma_clear_prefix_effect(e1, creq, jj, s, k);
        assert(apply_batch_to_chain(c, pre, s, k) == c);
    } else {
        lemma_clear_prefix_effect_unique(e1, creq, i - 1, jj);
        assert(forall|m: int| 0 <= m < tail.len() ==> !spec_op_on(#[trigger] tail[m], s, k));
        lemma_apply_batch_off_key(apply_batch_to_chain(c, pre, s, k), tail, s, k);
    }
}

/// One condition law, stated plainly: `ExpectExists` fails exactly when
/// the previous value is absent or a tombstone, and `ExpectNotExists`
/// fails exactly when a live value is present.
pub proof fn lemma_exists_condition_semantics(prev: Option<ValueView>)
    ensures
        spec_cond_holds(prev, WriteConditionView::ExpectExists) <==> spec_exists_value(prev),
        spec_cond_holds(prev, WriteConditionView::ExpectNotExists) <==> !spec_exists_value(prev),
        spec_exists_value(prev) <==> (prev matches Some(v) && v.content is Some),
{
}

/// The previous value a write observes on a chain: its newest record.
pub open spec fn spec_chain_prev(c: Seq<ValueView>) -> Option<ValueView> {
    if c.len() > 0 {
        Some(c[0])
    } else {
        None
    }
}

/// The first failing condition does fail.
proof fn lemma_first_failed_fails(prev: Option<ValueView>, conds: Seq<WriteConditionView>)
    ensures
        crate::cond::spec_first_failed(prev, conds) matches Some(i) ==> 0 <= i < conds.len()
            && !spec_cond_holds(prev, conds[i]),
    decreases conds.len(),
{
    if conds.len() > 0 && spec_cond_holds(prev, conds[0]) {
        lemma_first_failed_fails(prev, conds.drop_first());
    }
}

/// The compare-and-set semantics of one write, in general.
///
/// Take a write whose key carries no pending intent (no same-transaction
/// replay, no foreign intent) and whose conditions before `cond_idx` all
/// hold of the previous value. Where condition `cond_idx` is
/// `ExpectExists`, the write fails at exactly that condition — reporting
/// the previous value — iff the previous value is absent or a tombstone;
/// where it is `ExpectNotExists`, iff a live value is present; otherwise
/// the write goes on to stage its intent. Through
/// [`spec_write_intent_post`], such a failure at the request's first
/// failing write `idx` is reported as `CasFailed(idx, cond_idx, prev)`,
/// with `idx` counting the deletes before the puts.
pub proof fn lemma_cas_condition_gate(c: Seq<ValueView>, sv: u64, w: WriteReqView, cond_idx: int)
    requires
        c.len() > 0 ==> !c[0].is_intent(),
        0 <= cond_idx < w.conditions.len(),
        forall|m: int|
            0 <= m < cond_idx ==> spec_cond_holds(spec_chain_prev(c), #[trigger] w.conditions[m]),
    ensures
        ({
            let prev = spec_chain_prev(c);
            &&& (!spec_cond_holds(prev, w.conditions[cond_idx]) ==> spec_step_write(c, sv, w)
                == (StepView::Fail { cond_idx, prev }))
            &&& (w.conditions[cond_idx] == WriteConditionView::ExpectExists ==> ((spec_step_write(
                c,
                sv,
                w,
            ) == (StepView::Fail { cond_idx, prev })) <==> !spec_exists_value(prev)))
            &&& (w.conditions[cond_idx] == WriteConditionView::ExpectNotExists ==> ((
            spec_step_write(c, sv, w) == (StepView::Fail { cond_idx, prev })) <==> spec_exists_value(
                prev,
            )))
        }),
{
    let prev = spec_chain_prev(c);
    if !spec_cond_holds(prev, w.conditions[cond_idx]) {
        crate::cond::lemma_first_failed_at(prev, w.conditions, cond_idx);
    } else {
        lemma_first_failed_fails(prev, w.conditions);
        if spec_step_write(c, sv, w) == (StepView::Fail { cond_idx, prev }) {
            assert(crate::cond::spec_first_failed(prev, w.conditions) == Some(cond_idx));
            assert(false);
        }
    }
}

/// `write_intent` is idempotent.
///
/// Take an engine `e` on which a request (start version `sv`, shard write
/// `w`) evaluates without failure, and let `e2` be the engine after its
/// staged batch was applied. Replaying the same request on `e2` skips
/// every write: it stages nothing — so the on-disk state stays exactly
/// `e2` and the evaluator reports no batch — and it neither fails a
/// condition nor meets a foreign intent.
pub proof fn lemma_write_intent_idempotent(
    e: GroupEngine,
    e2: GroupEngine,
    sv: u64,
    w: crate::eval::ShardWriteRequest,
)
    requires
        forall|s: u64, k: Seq<u8>| descending(#[trigger] e.chain_of(s, k)),
        spec_clean_writes(e, sv, w.shard_id, spec_writes_of(w)),
        spec_first_fail_from(e, sv, w.shard_id, spec_writes_of(w), 0) is None,
        forall|s: u64, k: Seq<u8>|
            #[trigger] e2.chain_of(s, k) == apply_batch_to_chain(
                e.chain_of(s, k),
                spec_staged_prefix(
                    e,
                    sv,
                    w.shard_id,
                    spec_writes_of(w),
                    spec_writes_of(w).len() as int,
                ),
                s,
                k,
            ),
    ensures
        forall|i: int|
            0 <= i < spec_writes_of(w).len() ==> #[trigger] spec_step_at(
                e2,
                sv,
                w.shard_id,
                spec_writes_of(w),
                i,
            ) is Skip,
        spec_clean_writes(e2, sv, w.shard_id, spec_writes_of(w)),
        spec_first_fail_from(e2, sv, w.shard_id, spec_writes_of(w), 0) is None,
        spec_staged_prefix(e2, sv, w.shard_id, spec_writes_of(w), spec_writes_of(w).len() as int)
            == Seq::<WriteOpView>::empty(),
{
    let shard_id = w.shard_id;
    let ws = spec_writes_of(w);
    let n = ws.len() as int;
    assert forall|i: int| 0 <= i < n implies #[trigger] spec_step_at(e2, sv, shard_id, ws, i)
        is Skip && spec_clean_chain(e2.chain_of(shard_id, ws[i].key), sv) by {
        let k = ws[i].key;
        let c0 = e.chain_of(shard_id, k);
        let c2 = e2.chain_of(shard_id, k);
        lemma_staged_prefix_effect(e, sv, shard_id, ws, n, shard_id, k);
        if exists|j: int|
            0 <= j < n && (#[trigger] ws[j]).key == k && spec_step_at(e, sv, shard_id, ws, j)
                is Stage {
            let iv = choose|iv: TxnIntentView|
                iv.start_version == sv && apply_batch_to_chain(
                    c0,
                    spec_staged_prefix(e, sv, shard_id, ws, n),
                    shard_id,
                    k,
                ) == seq![
                    ValueView {
                        version: TXN_INTENT_VERSION,
                        content: Some(spec_encode_intent(iv)),
                    },
                ] + c0;
            lemma_intent_round_trip(iv);
            assert(c2[0].is_intent());
        } else {
            assert(c2 == c0);
            lemma_first_fail_none_all(e, sv, shard_id, ws, i);
            match spec_step_at(e, sv, shard_id, ws, i) {
                StepView::Skip { prev } => {
                    assert(c0.len() > 0 && c0[0].is_intent());
                },
                StepView::Stage { intent, prev } => {
                    assert(ws[i].key == k && spec_step_at(e, sv, shard_id, ws, i) is Stage);
                    assert(false);
                },
                _ => {
                    assert(false);
                },
            }
        }
    }
    assert forall|i: int| 0 <= i < ws.len() implies spec_clean_chain(
        e2.chain_of(shard_id, (#[trigger] ws[i]).key),
        sv,
    ) by {
        assert(spec_step_at(e2, sv, shard_id, ws, i) is Skip);
    }
    assert forall|a: int| 0 <= a < n implies !spec_is_fail(
        #[trigger] spec_step_at(e2, sv, shard_id, ws, a),
    ) by {}
    crate::eval::lemma_first_fail_extend(e2, sv, shard_id, ws, 0, n);
    lemma_staged_prefix_all_skip(e2, sv, shard_id, ws, n);
}

/// A committed write is observed: after `write_intent` stages a fresh
/// intent for a key, its batch is applied, and `commit_intent` commits
/// that key at `commit_version`, the key's chain carries the committed
/// record on top of its old state — so a subsequent `get` returns the
/// committed value (or tombstone) at `commit_version`.
///
/// A `Nop` intent is the exception and the other half of the law: its
/// commit deletes the intent and writes nothing, leaving the chain as it
/// was before the transaction.
///
/// `j` is the position of the write in the request (its key appearing
/// once among the writes), `jj` the position of the same key in the
/// commit request (listed once there too); every version already in the
/// chain lies below `commit_version`, as MVCC guarantees.
pub proof fn lemma_write_commit_observed(
    e: GroupEngine,
    e1: GroupEngine,
    e2: GroupEngine,
    sv: u64,
    w: crate::eval::ShardWriteRequest,
    creq: CommitIntentRequest,
    j: int,
    jj: int,
)
    requires
        forall|k: Seq<u8>| descending(#[trigger] e.chain_of(w.shard_id, k)),
        spec_clean_writes(e, sv, w.shard_id, spec_writes_of(w)),
        forall|k: Seq<u8>|
            #[trigger] e1.chain_of(w.shard_id, k) == apply_batch_to_chain(
                e.chain_of(w.shard_id, k),
                spec_staged_prefix(
                    e,
                    sv,
                    w.shard_id,
                    spec_writes_of(w),
                    spec_writes_of(w).len() as int,
                ),
                w.shard_id,
                k,
            ),
        creq.shard_id == w.shard_id,
        creq.start_version == sv,
        creq.commit_version < TXN_INTENT_VERSION,
        0 <= j < spec_writes_of(w).len(),
        spec_step_at(e, sv, w.shard_id, spec_writes_of(w), j) is Stage,
        forall|m: int|
            0 <= m < spec_writes_of(w).len() && m != j ==> (#[trigger] spec_writes_of(w)[m]).key
                != spec_writes_of(w)[j].key,
        0 <= jj < creq.keys@.len(),
        creq.keys@[jj]@ == spec_writes_of(w)[j].key,
        forall|m: int|
            0 <= m < creq.keys@.len() && m != jj ==> (#[trigger] creq.keys@[m])@
                != spec_writes_of(w)[j].key,
        forall|idx: int|
            0 <= idx < e.chain_of(w.shard_id, spec_writes_of(w)[j].key).len() ==> (
            #[trigger] e.chain_of(w.shard_id, spec_writes_of(w)[j].key)[idx]).version
                < creq.commit_version,
        forall|k: Seq<u8>|
            #[trigger] e2.chain_of(w.shard_id, k) == apply_batch_to_chain(
                e1.chain_of(w.shard_id, k),
                spec_commit_prefix(e1, creq, creq.keys@.len() as int),
                w.shard_id,
                k,
            ),
    ensures
        ({
            let k = spec_writes_of(w)[j].key;
            let c0 = e.chain_of(w.shard_id, k);
            let intent = spec_step_at(e, sv, w.shard_id, spec_writes_of(w), j)->Stage_intent;
            &&& (intent.is_delete ==> e2.chain_of(w.shard_id, k) == seq![
                ValueView { version: creq.commit_version, content: None },
            ] + c0)
            &&& (!intent.is_delete ==> (match intent.value {
                Some(vb) => e2.chain_of(w.shard_id, k) == seq![
                    ValueView { version: creq.commit_version, content: Some(vb) },
                ] + c0 && e2.chain_of(w.shard_id, k)[0] == (ValueView {
                    version: creq.commit_version,
                    content: Some(vb),
                }),
                None => e2.chain_of(w.shard_id, k) == c0,
            }))
        }),
{
    let shard_id = w.shard_id;
    let ws = spec_writes_of(w);
    let n = ws.len() as int;
    let k = ws[j].key;
    let c0 = e.chain_of(shard_id, k);
    let cv = creq.commit_version;
    let intent = spec_step_at(e, sv, shard_id, ws, j)->Stage_intent;
    let rec = ValueView { version: TXN_INTENT_VERSION, content: Some(spec_encode_intent(intent)) };

    lemma_staged_prefix_effect_unique(e, sv, shard_id, ws, n, j);
    let c1 = e1.chain_of(shard_id, k);
    assert(c1 == seq![rec] + c0);

    lemma_intent_round_trip(intent);
    assert(intent.start_version == sv);
    assert(spec_commit_step(c1, sv) == Some(intent));

    lemma_commit_prefix_effect_unique(e1, creq, creq.keys@.len() as int, jj);
    let key_ops = crate::eval::spec_commit_key_ops(c1, sv, cv, shard_id, k);
    let c2 = e2.chain_of(shard_id, k);
    assert(c2 == apply_batch_to_chain(c1, key_ops, shard_id, k));

    let del_op = WriteOpView::Delete { shard_id, key: k, version: TXN_INTENT_VERSION };
    assert(chain_remove(c1, TXN_INTENT_VERSION) =~= c0);
    if intent.is_delete {
        let tomb = WriteOpView::Tombstone { shard_id, key: k, version: cv };
        assert(key_ops =~= seq![del_op, tomb]);
        assert(key_ops.drop_last() =~= seq![del_op]);
        lemma_apply_batch_single(c1, del_op, shard_id, k);
        assert(apply_batch_to_chain(c1, seq![del_op], shard_id, k) == c0);
        let v = ValueView { version: cv, content: None };
        lemma_chain_insert_newest(c0, v);
        assert(c2 == chain_insert(c0, v));
    } else {
        match intent.value {
            Some(vb) => {
                let putop = WriteOpView::Put { shard_id, key: k, value: vb, version: cv };
                assert(key_ops =~= seq![del_op, putop]);
                assert(key_ops.drop_last() =~= seq![del_op]);
                lemma_apply_batch_single(c1, del_op, shard_id, k);
                assert(apply_batch_to_chain(c1, seq![del_op], shard_id, k) == c0);
                let v = ValueView { version: cv, content: Some(vb) };
                lemma_chain_insert_newest(c0, v);
                assert(c2 == chain_insert(c0, v));
            },
            None => {
                assert(key_ops =~= seq![del_op]);
                lemma_apply_batch_single(c1, del_op, shard_id, k);
                assert(c2 == c0);
            },
        }
    }
}

/// Every op a write request stages addresses its own shard: none of them
/// touches a chain of another shard.
proof fn lemma_staged_prefix_ops_shard(
    e: GroupEngine,
    sv: u64,
    shard_id: u64,
    ws: Seq<WriteReqView>,
    i: int,
    s: u64,
    k: Seq<u8>,
)
    requires
        0 <= i <= ws.len(),
        s != shard_id,
    ensures
        forall|m: int|
            0 <= m < spec_staged_prefix(e, sv, shard_id, ws, i).len() ==> !spec_op_on(
                #[trigger] spec_staged_prefix(e, sv, shard_id, ws, i)[m],
                s,
                k,
            ),
    decreases i,
{
    if i > 0 {
        lemma_staged_prefix_ops_shard(e, sv, shard_id, ws, i - 1, s, k);
        let pre = spec_staged_prefix(e, sv, shard_id, ws, i - 1);
        let whole = spec_staged_prefix(e, sv, shard_id, ws, i);
        assert forall|m: int| 0 <= m < whole.len() implies !spec_op_on(
            #[trigger] whole[m],
            s,
            k,
        ) by {
            if m < pre.len() {
                assert(whole[m] == pre[m]);
            }
        }
    }
}

/// Every op a commit stages addresses its own shard.
proof fn lemma_commit_prefix_ops_shard(
    e: GroupEngine,
    creq: CommitIntentRequest,
    i: int,
    s: u64,
    k: Seq<u8>,
)
    requires
        0 <= i <= creq.keys@.len(),
        s != creq.shard_id,
    ensures
        forall|m: int|
            0 <= m < spec_commit_prefix(e, creq, i).len() ==> !spec_op_on(
                #[trigger] spec_commit_prefix(e, creq, i)[m],
                s,
                k,
            ),
    decreases i,
{
    if i > 0 {
        lemma_commit_prefix_ops_shard(e, creq, i - 1, s, k);
        let pre = spec_commit_prefix(e, creq, i - 1);
        let whole = spec_commit_prefix(e, creq, i);
        assert forall|m: int| 0 <= m < whole.len() implies !spec_op_on(
            #[trigger] whole[m],
            s,
            k,
        ) by {
            if m < pre.len() {
                assert(whole[m] == pre[m]);
            }
        }
    }
}

/// Two engines that agree on the chains of a commit's keys stage the same
/// commit batch.
proof fn lemma_commit_prefix_same_chains(
    ea: GroupEngine,
    eb: GroupEngine,
    creq: CommitIntentRequest,
    i: int,
)
    requires
        0 <= i <= creq.keys@.len(),
        forall|m: int|
            0 <= m < creq.keys@.len() ==> eb.chain_of(creq.shard_id, (#[trigger] creq.keys@[m])@)
                == ea.chain_of(creq.shard_id, creq.keys@[m]@),
    ensures
        spec_commit_prefix(eb, creq, i) == spec_commit_prefix(ea, creq, i),
    decreases i,
{
    if i > 0 {
        lemma_commit_prefix_same_chains(ea, eb, creq, i - 1);
    }
}

/// A cross-shard write batch commits at one version.
///
/// One client request may write the same key into two collections, and so
/// into two shards: each shard evaluates its own `write_intent` against
/// the same engine snapshot with the shared start version, both staged
/// batches are applied, and each shard's `commit_intent` then commits with
/// the shared commit version. Whatever order the two shards are served
/// in, each written key ends up with its committed record at exactly that
/// one version on top of its old chain — the two writes are never observed
/// at different versions.
pub proof fn lemma_cross_shard_commit_one_version(
    e: GroupEngine,
    ea: GroupEngine,
    eb: GroupEngine,
    ec: GroupEngine,
    ed: GroupEngine,
    sv: u64,
    w1: crate::eval::ShardWriteRequest,
    w2: crate::eval::ShardWriteRequest,
    c1: CommitIntentRequest,
    c2: CommitIntentRequest,
    j1: int,
    jj1: int,
    j2: int,
    jj2: int,
)
    requires
        forall|s: u64, k: Seq<u8>| descending(#[trigger] e.chain_of(s, k)),
        w1.shard_id != w2.shard_id,
        c1.shard_id == w1.shard_id,
        c2.shard_id == w2.shard_id,
        c1.start_version == sv,
        c2.start_version == sv,
        c1.commit_version == c2.commit_version,
        c1.commit_version < TXN_INTENT_VERSION,
        spec_clean_writes(e, sv, w1.shard_id, spec_writes_of(w1)),
        spec_clean_writes(e, sv, w2.shard_id, spec_writes_of(w2)),
        0 <= j1 < spec_writes_of(w1).len(),
        spec_step_at(e, sv, w1.shard_id, spec_writes_of(w1), j1) is Stage,
        forall|m: int|
            0 <= m < spec_writes_of(w1).len() && m != j1 ==> (#[trigger] spec_writes_of(w1)[m]).key
                != spec_writes_of(w1)[j1].key,
        0 <= jj1 < c1.keys@.len(),
        c1.keys@[jj1]@ == spec_writes_of(w1)[j1].key,
        forall|m: int|
            0 <= m < c1.keys@.len() && m != jj1 ==> (#[trigger] c1.keys@[m])@
                != spec_writes_of(w1)[j1].key,
        forall|idx: int|
            0 <= idx < e.chain_of(w1.shard_id, spec_writes_of(w1)[j1].key).len() ==> (
            #[trigger] e.chain_of(w1.shard_id, spec_writes_of(w1)[j1].key)[idx]).version
                < c1.commit_version,
        0 <= j2 < spec_writes_of(w2).len(),
        spec_step_at(e, sv, w2.shard_id, spec_writes_of(w2), j2) is Stage,
        forall|m: int|
            0 <= m < spec_writes_of(w2).len() && m != j2 ==> (#[trigger] spec_writes_of(w2)[m]).key
                != spec_writes_of(w2)[j2].key,
        0 <= jj2 < c2.keys@.len(),
        c2.keys@[jj2]@ == spec_writes_of(w2)[j2].key,
        forall|m: int|
            0 <= m < c2.keys@.len() && m != jj2 ==> (#[trigger] c2.keys@[m])@
                != spec_writes_of(w2)[j2].key,
        forall|idx: int|
            0 <= idx < e.chain_of(w2.shard_id, spec_writes_of(w2)[j2].key).len() ==> (
            #[trigger] e.chain_of(w2.shard_id, spec_writes_of(w2)[j2].key)[idx]).version
                < c2.commit_version,
        forall|s: u64, k: Seq<u8>|
            #[trigger] ea.chain_of(s, k) == apply_batch_to_chain(
                e.chain_of(s, k),
                spec_staged_prefix(
                    e,
                    sv,
                    w1.shard_id,
                    spec_writes_of(w1),
                    spec_writes_of(w1).len() as int,
                ),
                s,
                k,
            ),
        forall|s: u64, k: Seq<u8>|
            #[trigger] eb.chain_of(s, k) == apply_batch_to_chain(
                ea.chain_of(s, k),
                spec_staged_prefix(
                    e,
                    sv,
                    w2.shard_id,
                    spec_writes_of(w2),
                    spec_writes_of(w2).len() as int,
                ),
                s,
                k,
            ),
        forall|s: u64, k: Seq<u8>|
            #[trigger] ec.chain_of(s, k) == apply_batch_to_chain(
                eb.chain_of(s, k),
                spec_commit_prefix(eb, c1, c1.keys@.len() as int),
                s,
                k,
            ),
        forall|s: u64, k: Seq<u8>|
            #[trigger] ed.chain_of(s, k) == apply_batch_to_chain(
                ec.chain_of(s, k),
                spec_commit_prefix(ec, c2, c2.keys@.len() as int),
                s,
                k,
            ),
    ensures
        ({
            let k1 = spec_writes_of(w1)[j1].key;
            let c0 = e.chain_of(w1.shard_id, k1);
            let intent = spec_step_at(e, sv, w1.shard_id, spec_writes_of(w1), j1)->Stage_intent;
            &&& (intent.is_delete ==> ed.chain_of(w1.shard_id, k1) == seq![
                ValueView { version: c1.commit_version, content: None },
            ] + c0)
            &&& (!intent.is_delete ==> (match intent.value {
                Some(vb) => ed.chain_of(w1.shard_id, k1) == seq![
                    ValueView { version: c1.commit_version, content: Some(vb) },
                ] + c0,
                None => ed.chain_of(w1.shard_id, k1) == c0,
            }))
        }),
        ({
            let k2 = spec_writes_of(w2)[j2].key;
            let c0 = e.chain_of(w2.shard_id, k2);
            let intent = spec_step_at(e, sv, w2.shard_id, spec_writes_of(w2), j2)->Stage_intent;
            &&& (intent.is_delete ==> ed.chain_of(w2.shard_id, k2) == seq![
                ValueView { version: c1.commit_version, content: None },
            ] + c0)
            &&& (!intent.is_delete ==> (match intent.value {
                Some(vb) => ed.chain_of(w2.shard_id, k2) == seq![
                    ValueView { version: c1.commit_version, content: Some(vb) },
                ] + c0,
                None => ed.chain_of(w2.shard_id, k2) == c0,
            }))
        }),
{
    let s1 = w1.shard_id;
    let s2 = w2.shard_id;
    let ws1 = spec_writes_of(w1);
    let ws2 = spec_writes_of(w2);
    let n1 = ws1.len() as int;
    let n2 = ws2.len() as int;
    let k1 = ws1[j1].key;
    let k2 = ws2[j2].key;
    let len1 = c1.keys@.len() as int;
    let len2 = c2.keys@.len() as int;
    let staged1 = spec_staged_prefix(e, sv, s1, ws1, n1);
    let staged2 = spec_staged_prefix(e, sv, s2, ws2, n2);

    // Staging w2 leaves every chain of shard s1 alone, and staging w1
    // every chain of shard s2: after both, each shard carries exactly its
    // own staged batch.
    assert forall|k: Seq<u8>| #[trigger] eb.chain_of(s1, k) == apply_batch_to_chain(
        e.chain_of(s1, k),
        staged1,
        s1,
        k,
    ) by {
        lemma_staged_prefix_ops_shard(e, sv, s2, ws2, n2, s1, k);
        lemma_apply_batch_off_key(ea.chain_of(s1, k), staged2, s1, k);
    }
    assert forall|k: Seq<u8>| #[trigger] eb.chain_of(s2, k) == apply_batch_to_chain(
        e.chain_of(s2, k),
        staged2,
        s2,
        k,
    ) by {
        lemma_staged_prefix_ops_shard(e, sv, s1, ws1, n1, s2, k);
        lemma_apply_batch_off_key(e.chain_of(s2, k), staged1, s2, k);
    }

    // The first commit acts on shard s1 alone.
    lemma_write_commit_observed(e, eb, ec, sv, w1, c1, j1, jj1);
    // The second commit leaves shard s1's result untouched.
    lemma_commit_prefix_ops_shard(ec, c2, len2, s1, k1);
    lemma_apply_batch_off_key(ec.chain_of(s1, k1), spec_commit_prefix(ec, c2, len2), s1, k1);
    assert(ed.chain_of(s1, k1) == ec.chain_of(s1, k1));

    // Chains of shard s2 pass through the first commit unchanged, so the
    // second commit sees exactly the staged state and stages the same
    // batch it would have staged right after the writes.
    assert forall|k: Seq<u8>| #[trigger] ec.chain_of(s2, k) == eb.chain_of(s2, k) by {
        lemma_commit_prefix_ops_shard(eb, c1, len1, s2, k);
        lemma_apply_batch_off_key(eb.chain_of(s2, k), spec_commit_prefix(eb, c1, len1), s2, k);
    }
    lemma_commit_prefix_same_chains(eb, ec, c2, len2);
    assert forall|k: Seq<u8>| #[trigger] ed.chain_of(s2, k) == apply_batch_to_chain(
        eb.chain_of(s2, k),
        spec_commit_prefix(eb, c2, len2),
        s2,
        k,
    ) by {
        assert(ec.chain_of(s2, k) == eb.chain_of(s2, k));
    }
    lemma_write_commit_observed(e, eb, ed, sv, w2, c2, j2, jj2);
}

/// A `Nop` put takes the latch but never writes a value.
///
/// On a chain without a pending intent, a `Nop` put whose conditions pass
/// stages an intent record — the key is latched while the transaction is
/// pending — and that intent carries no value and no delete mark, so its
/// commit stages nothing beyond dropping the intent itself.
pub proof fn lemma_nop_put_pending_and_commit(
    c: Seq<ValueView>,
    sv: u64,
    cv: u64,
    shard_id: u64,
    key: Seq<u8>,
    w: WriteReqView,
)
    requires
        !w.is_delete,
        w.put_type == crate::eval::PutType::Nop,
        c.len() > 0 ==> !c[0].is_intent(),
        crate::cond::spec_first_failed(
            if c.len() > 0 {
                Some(c[0])
            } else {
                None
            },
            w.conditions,
        ) is None,
    ensures
        spec_step_write(c, sv, w) matches StepView::Stage { intent, prev } && intent.start_version
            == sv && !intent.is_delete && intent.value is None,
        ({
            let intent = spec_step_write(c, sv, w)->Stage_intent;
            spec_staged_op(shard_id, key, intent) == (WriteOpView::Put {
                shard_id,
                key,
                value: spec_encode_intent(intent),
                version: TXN_INTENT_VERSION,
            })
        }),
        ({
            let intent = spec_step_write(c, sv, w)->Stage_intent;
            let pending = seq![
                ValueView { version: TXN_INTENT_VERSION, content: Some(spec_encode_intent(intent)) },
            ] + c;
            crate::eval::spec_commit_key_ops(pending, sv, cv, shard_id, key) == seq![
                crate::engine::WriteOpView::Delete { shard_id, key, version: TXN_INTENT_VERSION },
            ]
        }),
{
    let intent = spec_step_write(c, sv, w)->Stage_intent;
    lemma_intent_round_trip(intent);
}

/// `commit_intent` is idempotent under replay.
///
/// After a commit of distinct keys is applied, none of those keys carries
/// this transaction's intent any more, so replaying the same commit finds
/// nothing to do: its staged batch is empty and no corruption appears.
pub proof fn lemma_commit_intent_idempotent(
    e: GroupEngine,
    e2: GroupEngine,
    creq: CommitIntentRequest,
)
    requires
        forall|s: u64, k: Seq<u8>| descending(#[trigger] e.chain_of(s, k)),
        !spec_any_corrupt(e, creq.shard_id, creq.keys@),
        creq.commit_version < TXN_INTENT_VERSION,
        forall|a: int, b: int|
            0 <= a < creq.keys@.len() && 0 <= b < creq.keys@.len() && a != b ==> (
            #[trigger] creq.keys@[a])@ != (#[trigger] creq.keys@[b])@,
        forall|s: u64, k: Seq<u8>|
            #[trigger] e2.chain_of(s, k) == apply_batch_to_chain(
                e.chain_of(s, k),
                spec_commit_prefix(e, creq, creq.keys@.len() as int),
                s,
                k,
            ),
    ensures
        !spec_any_corrupt(e2, creq.shard_id, creq.keys@),
        spec_commit_prefix(e2, creq, creq.keys@.len() as int) == Seq::<WriteOpView>::empty(),
{
    let s = creq.shard_id;
    let sv = creq.start_version;
    let cv = creq.commit_version;
    let n = creq.keys@.len() as int;
    assert forall|m: int| 0 <= m < n implies !spec_corrupt_top(
        e2.chain_of(s, (#[trigger] creq.keys@[m])@),
    ) && spec_commit_step(e2.chain_of(s, creq.keys@[m]@), sv) is None by {
        let k = creq.keys@[m]@;
        let c = e.chain_of(s, k);
        lemma_commit_prefix_effect_unique(e, creq, n, m);
        let key_ops = crate::eval::spec_commit_key_ops(c, sv, cv, s, k);
        let c2 = e2.chain_of(s, k);
        assert(!spec_corrupt_top(c));
        match spec_commit_step(c, sv) {
            None => {
                assert(key_ops =~= Seq::<WriteOpView>::empty());
                assert(c2 == c);
            },
            Some(iv) => {
                assert(c.len() > 0 && c[0].is_intent());
                let d = c.drop_first();
                assert(chain_remove(c, TXN_INTENT_VERSION) =~= d);
                assert(d.len() > 0 ==> d[0].version < TXN_INTENT_VERSION);
                let del_op = WriteOpView::Delete { shard_id: s, key: k, version: TXN_INTENT_VERSION };
                if iv.is_delete {
                    let tomb = WriteOpView::Tombstone { shard_id: s, key: k, version: cv };
                    assert(key_ops =~= seq![del_op, tomb]);
                    assert(key_ops.drop_last() =~= seq![del_op]);
                    lemma_apply_batch_single(c, del_op, s, k);
                    let v = ValueView { version: cv, content: None };
                    lemma_chain_insert_top(d, v);
                    assert(c2 == chain_insert(d, v));
                } else {
                    match iv.value {
                        Some(vb) => {
                            let putop = WriteOpView::Put { shard_id: s, key: k, value: vb, version: cv };
                            assert(key_ops =~= seq![del_op, putop]);
                            assert(key_ops.drop_last() =~= seq![del_op]);
                            lemma_apply_batch_single(c, del_op, s, k);
                            let v = ValueView { version: cv, content: Some(vb) };
                            lemma_chain_insert_top(d, v);
                            assert(c2 == chain_insert(d, v));
                        },
                        None => {
                            assert(key_ops =~= seq![del_op]);
                            lemma_apply_batch_single(c, del_op, s, k);
                            assert(c2 == d);
                        },
                    }
                }
                assert(c2.len() > 0 ==> c2[0].version != TXN_INTENT_VERSION);
            },
        }
    }
    lemma_commit_prefix_all_none(e2, creq, n);
}

/// Where no listed key matches, a commit stages nothing.
proof fn lemma_commit_prefix_all_none(e: GroupEngine, creq: CommitIntentRequest, i: int)
    requires
        0 <= i <= creq.keys@.len(),
        forall|m: int|
            0 <= m < i ==> spec_commit_step(
                e.chain_of(creq.shard_id, (#[trigger] creq.keys@[m])@),
                creq.start_version,
            ) is None,
    ensures
        spec_commit_prefix(e, creq, i) == Seq::<WriteOpView>::empty(),
    decreases i,
{
    if i > 0 {
        lemma_commit_prefix_all_none(e, creq, i - 1);
        assert(spec_commit_prefix(e, creq, i) =~= Seq::<WriteOpView>::empty());
    }
}

/// Where no listed key matches, a clear stages nothing.
proof fn lemma_clear_prefix_all_none(e: GroupEngine, creq: ClearIntentRequest, i: int)
    requires
        0 <= i <= creq.keys@.len(),
        forall|m: int|
            0 <= m < i ==> spec_commit_step(
                e.chain_of(creq.shard_id, (#[trigger] creq.keys@[m])@),
                creq.start_version,
            ) is None,
    ensures
        spec_clear_prefix(e, creq, i) == Seq::<WriteOpView>::empty(),
    decreases i,
{
    if i > 0 {
        lemma_clear_prefix_all_none(e, creq, i - 1);
        assert(spec_clear_prefix(e, creq, i) =~= Seq::<WriteOpView>::empty());
    }
}

/// `clear_intent` is idempotent under replay.
///
/// After a clear of distinct keys is applied, none of those keys carries
/// this transaction's intent any more, so replaying the same clear stages
/// nothing and no corruption appears.
pub proof fn lemma_clear_intent_idempotent(e: GroupEngine, e2: GroupEngine, creq: ClearIntentRequest)
    requires
        forall|s: u64, k: Seq<u8>| descending(#[trigger] e.chain_of(s, k)),
        !spec_any_corrupt(e, creq.shard_id, creq.keys@),
        forall|a: int, b: int|
            0 <= a < creq.keys@.len() && 0 <= b < creq.keys@.len() && a != b ==> (
            #[trigger] creq.keys@[a])@ != (#[trigger] creq.keys@[b])@,
        forall|s: u64, k: Seq<u8>|
            #[trigger] e2.chain_of(s, k) == apply_batch_to_chain(
                e.chain_of(s, k),
                spec_clear_prefix(e, creq, creq.keys@.len() as int),
                s,
                k,
            ),
    ensures
        !spec_any_corrupt(e2, creq.shard_id, creq.keys@),
        spec_clear_prefix(e2, creq, creq.keys@.len() as int) == Seq::<WriteOpView>::empty(),
{
    let s = creq.shard_id;
    let sv = creq.start_version;
    let n = creq.keys@.len() as int;
    assert forall|m: int| 0 <= m < n implies !spec_corrupt_top(
        e2.chain_of(s, (#[trigger] creq.keys@[m])@),
    ) && spec_commit_step(e2.chain_of(s, creq.keys@[m]@), sv) is None by {
        let k = creq.keys@[m]@;
        let c = e.chain_of(s, k);
        lemma_clear_prefix_effect_unique(e, creq, n, m);
        let key_ops = crate::eval::spec_clear_key_ops(c, sv, s, k);
        let c2 = e2.chain_of(s, k);
        assert(!spec_corrupt_top(c));
        match spec_commit_step(c, sv) {
            None => {
                assert(key_ops =~= Seq::<WriteOpView>::empty());
                assert(c2 == c);
            },
            Some(iv) => {
                assert(c.len() > 0 && c[0].is_intent());
                let d = c.drop_first();
                assert(chain_remove(c, TXN_INTENT_VERSION) =~= d);
                assert(d.len() > 0 ==> d[0].version < TXN_INTENT_VERSION);
                let del_op = WriteOpView::Delete { shard_id: s, key: k, version: TXN_INTENT_VERSION };
                assert(key_ops =~= seq![del_op]);
                lemma_apply_batch_single(c, del_op, s, k);
                assert(c2 == d);
            },
        }
    }
    lemma_clear_prefix_all_none(e2, creq, n);
}

} // verus!
