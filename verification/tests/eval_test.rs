//! Tests of the intent evaluator: typed puts, conditions, the
//! write/commit/clear cycle and its idempotency.

use sekas_core::engine::{EvalResult, GroupEngine, WriteBatch};
use sekas_core::error::Error;
use sekas_core::cond::WriteCondition;
use sekas_core::eval::{
    apply_put_op, clear_intent, commit_intent, read_intent_and_next_key, write_intent,
    ClearIntentRequest, CommitIntentRequest, DeleteRequest, LatchGuard, PutRequest, PutType,
    ShardWriteRequest, TxnState, WriteIntentRequest,
};
use sekas_core::intent::TxnIntent;
use sekas_core::value::{Value, TXN_INTENT_VERSION};

struct NopLatchGuard {}

impl LatchGuard for NopLatchGuard {
    fn resolve_txn(
        &mut self,
        _shard_id: u64,
        _key: &Vec<u8>,
        _txn_intent: TxnIntent,
    ) -> Result<Option<Value>, Error> {
        Ok(None)
    }

    fn signal_all(&mut self, _txn_state: TxnState, _commit_version: Option<u64>) {}
}

fn commit_values(engine: &mut GroupEngine, key: &[u8], values: &[Value]) {
    let mut wb = WriteBatch::new();
    let key = key.to_vec();
    for value in values {
        match &value.content {
            Some(content) => {
                engine.put(&mut wb, 1, &key, content, value.version).unwrap();
            }
            None => {
                engine.tombstone(&mut wb, 1, &key, value.version).unwrap();
            }
        }
    }
    engine.commit(&wb);
}

fn apply(engine: &mut GroupEngine, eval_result: &EvalResult) {
    engine.commit(&eval_result.batch);
}

fn write_intent_request(start_version: u64, key: Vec<u8>) -> WriteIntentRequest {
    WriteIntentRequest {
        start_version,
        write: Some(ShardWriteRequest {
            shard_id: 1,
            deletes: vec![],
            puts: vec![PutRequest {
                put_type: PutType::Direct,
                key,
                value: vec![],
                conditions: vec![],
                take_prev_value: true,
            }],
        }),
    }
}

fn build_write_intent(
    start_version: u64,
    puts: Vec<PutRequest>,
    deletes: Vec<DeleteRequest>,
) -> WriteIntentRequest {
    WriteIntentRequest {
        start_version,
        write: Some(ShardWriteRequest { shard_id: 1, puts, deletes }),
    }
}

#[test]
fn apply_nop() {
    assert!(apply_put_op(PutType::Nop, None, vec![]).unwrap().is_none());
    assert!(apply_put_op(PutType::Nop, Some(&Value::tombstone(123)), vec![])
        .unwrap()
        .is_none());
    assert!(apply_put_op(PutType::Nop, Some(&Value::with_value(vec![], 123)), vec![])
        .unwrap()
        .is_none());
}

#[test]
fn load_recent_keys() {
    struct TestCase {
        expect_intent: Option<TxnIntent>,
        expect_prev_value: Option<Value>,
    }

    let cases = vec![
        // No values
        TestCase { expect_intent: None, expect_prev_value: None },
        // No intent, but prev value exists
        TestCase { expect_intent: None, expect_prev_value: Some(Value::with_value(vec![], 1)) },
        // No intent, but prev tombstone exists
        TestCase { expect_intent: None, expect_prev_value: Some(Value::tombstone(1)) },
        // Has intent, and prev tombstone exists
        TestCase {
            expect_intent: Some(TxnIntent::with_put(123, Some(vec![]))),
            expect_prev_value: Some(Value::tombstone(1)),
        },
        // Has intent, and prev value exists
        TestCase {
            expect_intent: Some(TxnIntent::with_put(123, Some(vec![]))),
            expect_prev_value: Some(Value::with_value(vec![], 1)),
        },
        // Has intent, no prev value exists
        TestCase {
            expect_intent: Some(TxnIntent::with_put(123, Some(vec![]))),
            expect_prev_value: None,
        },
    ];

    let mut engine = GroupEngine::new();
    for (idx, TestCase { expect_intent, expect_prev_value }) in (0_u8..).zip(cases.into_iter()) {
        let mut values = vec![];
        if let Some(intent) = expect_intent.as_ref() {
            values.push(Value::with_value(intent.encode_to_vec(), TXN_INTENT_VERSION));
        }
        if let Some(value) = expect_prev_value.as_ref() {
            values.push(value.clone());
        }
        commit_values(&mut engine, &[idx], &values);
        let (intent, prev_value) =
            read_intent_and_next_key(&engine, 123, 1, &vec![idx]).unwrap();

        assert_eq!(intent, expect_intent, "idx={idx}");
        assert_eq!(prev_value, expect_prev_value, "idx={idx}");
    }
}

#[test]
fn write_and_commit_intent() {
    let mut engine = GroupEngine::new();
    let mut latch_guard = NopLatchGuard {};

    let key = b"123321".to_vec();
    let start_version = 9394;
    let req = write_intent_request(start_version, key.clone());
    let (eval_result, _resp) = write_intent(&engine, &mut latch_guard, &req).unwrap();
    assert!(eval_result.is_some());
    apply(&mut engine, &eval_result.unwrap());

    let req = CommitIntentRequest {
        shard_id: 1,
        start_version,
        commit_version: start_version + 1,
        keys: vec![key.clone()],
    };
    let eval_result = commit_intent(&engine, &mut latch_guard, &req).unwrap();
    assert!(eval_result.is_some());
    apply(&mut engine, &eval_result.unwrap());

    // commit intent is idempotent
    let req = CommitIntentRequest {
        shard_id: 1,
        start_version,
        commit_version: start_version + 1,
        keys: vec![key.clone()],
    };
    let eval_result = commit_intent(&engine, &mut latch_guard, &req).unwrap();
    assert!(eval_result.is_none());
}

#[test]
fn write_and_clear_intent() {
    let mut engine = GroupEngine::new();
    let mut latch_guard = NopLatchGuard {};

    let key = b"123321".to_vec();
    let start_version = 9394;
    let req = write_intent_request(start_version, key.clone());
    let (eval_result, _resp) = write_intent(&engine, &mut latch_guard, &req).unwrap();
    assert!(eval_result.is_some());
    apply(&mut engine, &eval_result.unwrap());

    let req = ClearIntentRequest { shard_id: 1, start_version, keys: vec![key.clone()] };
    let eval_result = clear_intent(&engine, &mut latch_guard, &req).unwrap();
    assert!(eval_result.is_some());
    apply(&mut engine, &eval_result.unwrap());

    // clear intent is idempotent
    let req = ClearIntentRequest { shard_id: 1, start_version, keys: vec![key.clone()] };
    let eval_result = clear_intent(&engine, &mut latch_guard, &req).unwrap();
    assert!(eval_result.is_none());
}

#[test]
fn write_intent_idempotent() {
    let mut engine = GroupEngine::new();
    let mut latch_guard = NopLatchGuard {};

    let key = b"123321".to_vec();
    let start_version = 9394;
    let req = write_intent_request(start_version, key.clone());
    let (eval_result, _resp) = write_intent(&engine, &mut latch_guard, &req).unwrap();
    assert!(eval_result.is_some());
    apply(&mut engine, &eval_result.unwrap());

    let req = write_intent_request(start_version, key);
    let (eval_result, resp) = write_intent(&engine, &mut latch_guard, &req).unwrap();
    assert!(eval_result.is_none());

    // Take the prev value.
    let puts = resp.write.unwrap().puts;
    assert_eq!(puts.len(), 1);
    assert!(puts[0].prev_value.is_none());
}

#[test]
fn write_intent_with_condition() {
    let mut engine = GroupEngine::new();
    let mut latch_guard = NopLatchGuard {};

    let key = b"123321".to_vec();
    let start_version = 9394;

    // 1. put exists failed.
    let req = build_write_intent(
        start_version,
        vec![PutRequest {
            put_type: PutType::Direct,
            key: key.clone(),
            value: b"value".to_vec(),
            conditions: vec![WriteCondition::ExpectExists],
            take_prev_value: false,
        }],
        vec![],
    );
    let r = write_intent(&engine, &mut latch_guard, &req);
    assert!(matches!(r, Err(Error::CasFailed(0, 0, _))), "{r:?}");

    // 2. delete exists failed.
    let req = build_write_intent(
        start_version,
        vec![],
        vec![DeleteRequest {
            key: key.clone(),
            conditions: vec![WriteCondition::ExpectExists],
            take_prev_value: false,
        }],
    );
    let r = write_intent(&engine, &mut latch_guard, &req);
    assert!(matches!(r, Err(Error::CasFailed(0, 0, _))), "{r:?}");

    commit_values(&mut engine, &key, &[Value::with_value(b"value".to_vec(), start_version - 100)]);

    // 3. put exists success
    let req = build_write_intent(
        start_version,
        vec![PutRequest {
            put_type: PutType::Direct,
            key: key.clone(),
            value: b"value".to_vec(),
            conditions: vec![WriteCondition::ExpectExists],
            take_prev_value: true,
        }],
        vec![],
    );
    let r = write_intent(&engine, &mut latch_guard, &req);
    assert!(r.is_ok());
}

#[test]
fn apply_put_op_add_i64() {
    struct TestCase {
        prev_value: Option<i64>,
        delta: i64,
        expect: i64,
    }

    let cases = vec![
        // prev value not exists
        TestCase { prev_value: None, delta: 0, expect: 0 },
        TestCase { prev_value: None, delta: 1, expect: 1 },
        TestCase { prev_value: None, delta: i64::MAX, expect: i64::MAX },
        TestCase { prev_value: None, delta: i64::MIN, expect: i64::MIN },
        // normal case
        TestCase { prev_value: Some(0), delta: i64::MAX, expect: i64::MAX },
        TestCase { prev_value: Some(0), delta: i64::MIN, expect: i64::MIN },
        TestCase { prev_value: Some(1), delta: 1, expect: 2 },
        TestCase { prev_value: Some(-1), delta: i64::MAX, expect: i64::MAX - 1 },
        // wrapping
        TestCase { prev_value: Some(1), delta: i64::MAX, expect: i64::MAX.wrapping_add(1) },
        TestCase { prev_value: Some(i64::MAX), delta: 1, expect: i64::MAX.wrapping_add(1) },
        TestCase { prev_value: Some(i64::MIN), delta: -1, expect: i64::MIN.wrapping_sub(1) },
        TestCase { prev_value: Some(-1), delta: i64::MIN, expect: i64::MIN.wrapping_sub(1) },
    ];
    for TestCase { prev_value, delta, expect } in cases {
        let value = if let Some(v) = prev_value {
            Some(Value::with_value(v.to_be_bytes().to_vec(), 1))
        } else {
            None
        };
        let r = apply_put_op(PutType::AddI64, value.as_ref(), delta.to_be_bytes().to_vec())
            .unwrap()
            .unwrap();
        assert!(
            matches!(sekas_core::bytes::decode_i64(&r), Some(v) if v == expect),
            "{r:?}"
        );
    }
}

#[test]
fn apply_put_op_add_invalid() {
    assert!(matches!(
        apply_put_op(PutType::AddI64, None, vec![1u8]),
        Err(Error::InvalidArgument(_))
    ));
    let value = Value::with_value(vec![2u8], 1);
    assert!(matches!(
        apply_put_op(PutType::AddI64, Some(&value), 1i64.to_be_bytes().to_vec()),
        Err(Error::InvalidArgument(_))
    ));
}

#[test]
fn apply_put_op_nop() {
    let r = apply_put_op(PutType::Nop, None, vec![]).unwrap();
    assert!(r.is_none());
    let value = Value::with_value(vec![1u8], 1);
    let r = apply_put_op(PutType::Nop, Some(&value), vec![1u8]).unwrap();
    assert!(r.is_none());
}

#[test]
fn apply_put_op_none() {
    let r = apply_put_op(PutType::Direct, None, vec![1u8]).unwrap();
    assert!(matches!(r, Some(v) if v == vec![1u8]));

    let value = Value::with_value(vec![2u8], 1);
    let r = apply_put_op(PutType::Direct, Some(&value), vec![1u8]).unwrap();
    assert!(matches!(r, Some(v) if v == vec![1u8]));
}

#[test]
fn put_then_get_observes_committed_value() {
    let mut engine = GroupEngine::new();
    let mut latch_guard = NopLatchGuard {};
    let key = b"book_name".to_vec();

    let req = build_write_intent(
        10,
        vec![PutRequest {
            put_type: PutType::Direct,
            key: key.clone(),
            value: b"rust_in_actions".to_vec(),
            conditions: vec![],
            take_prev_value: false,
        }],
        vec![],
    );
    let (eval_result, _) = write_intent(&engine, &mut latch_guard, &req).unwrap();
    apply(&mut engine, &eval_result.unwrap());

    let req = CommitIntentRequest {
        shard_id: 1,
        start_version: 10,
        commit_version: 11,
        keys: vec![key.clone()],
    };
    let eval_result = commit_intent(&engine, &mut latch_guard, &req).unwrap();
    apply(&mut engine, &eval_result.unwrap());

    let got = engine.get(1, &key).unwrap();
    assert_eq!(got.version, 11);
    assert_eq!(got.content, Some(b"rust_in_actions".to_vec()));
}

#[test]
fn conditional_put_sequence() {
    let mut engine = GroupEngine::new();
    let mut latch_guard = NopLatchGuard {};
    let key = b"book_name".to_vec();
    let value = b"rust_in_actions".to_vec();

    // expect_exists on an absent key fails with the empty previous value.
    let req = build_write_intent(
        20,
        vec![PutRequest {
            put_type: PutType::Direct,
            key: key.clone(),
            value: value.clone(),
            conditions: vec![WriteCondition::ExpectExists],
            take_prev_value: false,
        }],
        vec![],
    );
    let r = write_intent(&engine, &mut latch_guard, &req);
    assert!(matches!(r, Err(Error::CasFailed(0, 0, None))), "put if exists failed: {r:?}");

    // expect_not_exists succeeds and commits.
    let req = build_write_intent(
        20,
        vec![PutRequest {
            put_type: PutType::Direct,
            key: key.clone(),
            value: value.clone(),
            conditions: vec![WriteCondition::ExpectNotExists],
            take_prev_value: false,
        }],
        vec![],
    );
    let (eval_result, _) = write_intent(&engine, &mut latch_guard, &req).unwrap();
    apply(&mut engine, &eval_result.unwrap());
    let req = CommitIntentRequest {
        shard_id: 1,
        start_version: 20,
        commit_version: 21,
        keys: vec![key.clone()],
    };
    let eval_result = commit_intent(&engine, &mut latch_guard, &req).unwrap();
    apply(&mut engine, &eval_result.unwrap());

    // expect_not_exists now fails, reporting the stored value.
    let req = build_write_intent(
        30,
        vec![PutRequest {
            put_type: PutType::Direct,
            key: key.clone(),
            value: value.clone(),
            conditions: vec![WriteCondition::ExpectNotExists],
            take_prev_value: false,
        }],
        vec![],
    );
    let r = write_intent(&engine, &mut latch_guard, &req);
    match r {
        Err(Error::CasFailed(0, 0, Some(prev))) => {
            assert_eq!(prev.content, Some(value.clone()));
        }
        other => panic!("expect cas failure: {other:?}"),
    }

    // expect_value with the wrong bytes fails; with the right bytes it passes.
    let req = build_write_intent(
        30,
        vec![PutRequest {
            put_type: PutType::Direct,
            key: key.clone(),
            value: value.clone(),
            conditions: vec![WriteCondition::ExpectValue(b"rust".to_vec())],
            take_prev_value: false,
        }],
        vec![],
    );
    let r = write_intent(&engine, &mut latch_guard, &req);
    assert!(matches!(r, Err(Error::CasFailed(0, 0, Some(_)))), "{r:?}");

    let req = build_write_intent(
        30,
        vec![PutRequest {
            put_type: PutType::Direct,
            key: key.clone(),
            value: value.clone(),
            conditions: vec![WriteCondition::ExpectValue(value.clone())],
            take_prev_value: false,
        }],
        vec![],
    );
    let r = write_intent(&engine, &mut latch_guard, &req);
    assert!(r.is_ok());
}

#[test]
fn add_i64_accumulates_to_two_thousand() {
    let mut engine = GroupEngine::new();
    let mut latch_guard = NopLatchGuard {};
    let key = b"book_name".to_vec();

    let mut version = 1u64;
    for _ in 0..2000u32 {
        let req = build_write_intent(
            version,
            vec![PutRequest {
                put_type: PutType::AddI64,
                key: key.clone(),
                value: 1i64.to_be_bytes().to_vec(),
                conditions: vec![],
                take_prev_value: false,
            }],
            vec![],
        );
        let (eval_result, _) = write_intent(&engine, &mut latch_guard, &req).unwrap();
        apply(&mut engine, &eval_result.unwrap());
        let req = CommitIntentRequest {
            shard_id: 1,
            start_version: version,
            commit_version: version + 1,
            keys: vec![key.clone()],
        };
        let eval_result = commit_intent(&engine, &mut latch_guard, &req).unwrap();
        apply(&mut engine, &eval_result.unwrap());
        version += 2;
    }

    let got = engine.get(1, &key).unwrap();
    let total = sekas_core::bytes::decode_i64(&got.content.unwrap()).unwrap();
    assert_eq!(total, 2000);
}

#[test]
fn cross_shard_writes_commit_at_equal_version() {
    let mut engine = GroupEngine::new();
    let mut latch_guard = NopLatchGuard {};
    let key = b"book_name".to_vec();
    let start_version = 40;
    let commit_version = 41;

    for shard_id in [1u64, 2u64] {
        let req = WriteIntentRequest {
            start_version,
            write: Some(ShardWriteRequest {
                shard_id,
                deletes: vec![],
                puts: vec![PutRequest {
                    put_type: PutType::Direct,
                    key: key.clone(),
                    value: b"rust_in_actions".to_vec(),
                    conditions: vec![],
                    take_prev_value: false,
                }],
            }),
        };
        let (eval_result, _) = write_intent(&engine, &mut latch_guard, &req).unwrap();
        apply(&mut engine, &eval_result.unwrap());
        let req = CommitIntentRequest {
            shard_id,
            start_version,
            commit_version,
            keys: vec![key.clone()],
        };
        let eval_result = commit_intent(&engine, &mut latch_guard, &req).unwrap();
        apply(&mut engine, &eval_result.unwrap());
    }

    let one = engine.get(1, &key).unwrap();
    let two = engine.get(2, &key).unwrap();
    assert_eq!(one.version, two.version);
    assert_eq!(one.content, Some(b"rust_in_actions".to_vec()));
    assert_eq!(two.content, Some(b"rust_in_actions".to_vec()));
}

#[test]
fn nop_commit_writes_nothing() {
    let mut engine = GroupEngine::new();
    let mut latch_guard = NopLatchGuard {};
    let key = b"counter".to_vec();
    commit_values(&mut engine, &key, &[Value::with_value(b"old".to_vec(), 5)]);

    let req = build_write_intent(
        10,
        vec![PutRequest {
            put_type: PutType::Nop,
            key: key.clone(),
            value: vec![],
            conditions: vec![],
            take_prev_value: false,
        }],
        vec![],
    );
    let (eval_result, _) = write_intent(&engine, &mut latch_guard, &req).unwrap();
    // The no-op still stages an intent: the key is latched while pending.
    apply(&mut engine, &eval_result.unwrap());
    let top = engine.get(1, &key).unwrap();
    assert_eq!(top.version, TXN_INTENT_VERSION);

    let req = CommitIntentRequest {
        shard_id: 1,
        start_version: 10,
        commit_version: 11,
        keys: vec![key.clone()],
    };
    let eval_result = commit_intent(&engine, &mut latch_guard, &req).unwrap();
    apply(&mut engine, &eval_result.unwrap());

    // Nothing was written at the commit version: the old value shows.
    let got = engine.get(1, &key).unwrap();
    assert_eq!(got.version, 5);
    assert_eq!(got.content, Some(b"old".to_vec()));
}

#[test]
fn corrupt_intent_is_invalid_data() {
    let mut engine = GroupEngine::new();
    let mut latch_guard = NopLatchGuard {};
    let key = b"bad".to_vec();
    // An undecodable record at the intent version is on-disk corruption.
    commit_values(
        &mut engine,
        &key,
        &[Value::with_value(vec![0xff, 0xff], TXN_INTENT_VERSION)],
    );

    let r = read_intent_and_next_key(&engine, 10, 1, &key);
    assert!(matches!(r, Err(Error::InvalidData(_))), "{r:?}");

    let req = CommitIntentRequest {
        shard_id: 1,
        start_version: 10,
        commit_version: 11,
        keys: vec![key.clone()],
    };
    let r = commit_intent(&engine, &mut latch_guard, &req);
    assert!(matches!(r, Err(Error::InvalidData(_))), "{r:?}");

    let req = ClearIntentRequest { shard_id: 1, start_version: 10, keys: vec![key.clone()] };
    let r = clear_intent(&engine, &mut latch_guard, &req);
    assert!(matches!(r, Err(Error::InvalidData(_))), "{r:?}");
}

struct ResolvingLatchGuard {
    resolved: Option<Value>,
}

impl LatchGuard for ResolvingLatchGuard {
    fn resolve_txn(
        &mut self,
        _shard_id: u64,
        _key: &Vec<u8>,
        _txn_intent: TxnIntent,
    ) -> Result<Option<Value>, Error> {
        Ok(self.resolved.clone())
    }

    fn signal_all(&mut self, _txn_state: TxnState, _commit_version: Option<u64>) {}
}

#[test]
fn foreign_intent_is_resolved_before_evaluation() {
    let mut engine = GroupEngine::new();
    let mut nop = NopLatchGuard {};
    let key = b"K".to_vec();

    // Txn A leaves a pending intent at start_version 10.
    let req = write_intent_request(10, key.clone());
    let (eval_result, _) = write_intent(&engine, &mut nop, &req).unwrap();
    apply(&mut engine, &eval_result.unwrap());

    // Txn B at start_version 20 sees A's intent; the guard reports that A
    // committed the value below, and B observes it as the previous value.
    let committed = Value::with_value(b"from_a".to_vec(), 12);
    let mut guard = ResolvingLatchGuard { resolved: Some(committed.clone()) };
    let req = write_intent_request(20, key.clone());
    let (_, resp) = write_intent(&engine, &mut guard, &req).unwrap();
    let puts = resp.write.unwrap().puts;
    assert_eq!(puts[0].prev_value, Some(committed));

    // With A observed aborted, B sees the pre-A state instead: nothing.
    let mut guard = ResolvingLatchGuard { resolved: None };
    let req = write_intent_request(20, key.clone());
    let (_, resp) = write_intent(&engine, &mut guard, &req).unwrap();
    let puts = resp.write.unwrap().puts;
    assert_eq!(puts[0].prev_value, None);
}
