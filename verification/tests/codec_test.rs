//! Tests of the byte codecs: big-endian integers and the intent record.

use sekas_core::bytes::{decode_i64, encode_i64, get_u64_be, put_u64_be};
use sekas_core::intent::TxnIntent;

#[test]
fn u64_round_trip() {
    for x in [0u64, 1, 255, 256, 0xdead_beef, u64::MAX - 1, u64::MAX] {
        let mut out: Vec<u8> = Vec::new();
        put_u64_be(&mut out, x);
        assert_eq!(out.len(), 8);
        assert_eq!(get_u64_be(&out, 0), x);
    }
}

#[test]
fn u64_bytes_are_big_endian() {
    let mut out: Vec<u8> = Vec::new();
    put_u64_be(&mut out, 0x0102_0304_0506_0708);
    assert_eq!(out, vec![1, 2, 3, 4, 5, 6, 7, 8]);
}

#[test]
fn i64_round_trip() {
    for x in [0i64, 1, -1, i64::MAX, i64::MIN, 42, -9999] {
        let bytes = encode_i64(x);
        assert_eq!(decode_i64(&bytes), Some(x));
    }
}

#[test]
fn i64_rejects_wrong_lengths() {
    assert_eq!(decode_i64(&vec![]), None);
    assert_eq!(decode_i64(&vec![1u8]), None);
    assert_eq!(decode_i64(&vec![0u8; 7]), None);
    assert_eq!(decode_i64(&vec![0u8; 9]), None);
}

#[test]
fn intent_round_trip() {
    let cases = vec![
        TxnIntent::tombstone(7),
        TxnIntent::with_put(9394, Some(b"value".to_vec())),
        TxnIntent::with_put(9394, Some(vec![])),
        TxnIntent::with_put(123321, None),
        TxnIntent::tombstone(u64::MAX - 1),
    ];
    for intent in cases {
        let bytes = intent.encode_to_vec();
        let decoded = TxnIntent::decode(&bytes).unwrap();
        assert_eq!(decoded, intent);
    }
}

#[test]
fn intent_decode_rejects_malformed_bytes() {
    // Too short to hold the tag and start version.
    assert_eq!(TxnIntent::decode(&vec![]), None);
    assert_eq!(TxnIntent::decode(&vec![0u8; 8]), None);
    // Unknown tag byte.
    assert_eq!(TxnIntent::decode(&vec![9u8, 0, 0, 0, 0, 0, 0, 0, 0]), None);
    // A value-less tag with trailing bytes.
    assert_eq!(TxnIntent::decode(&vec![0u8, 0, 0, 0, 0, 0, 0, 0, 0, 1]), None);
    assert_eq!(TxnIntent::decode(&vec![1u8, 0, 0, 0, 0, 0, 0, 0, 0, 1]), None);
}

#[test]
fn tombstone_intent_marks_delete() {
    let intent = TxnIntent::tombstone(5);
    assert!(intent.is_delete);
    assert_eq!(intent.start_version, 5);
    assert_eq!(intent.value, None);
    let put = TxnIntent::with_put(5, Some(b"x".to_vec()));
    assert!(!put.is_delete);
    assert_eq!(put.value, Some(b"x".to_vec()));
}
