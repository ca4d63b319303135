//! Big-endian byte encodings for `u64` and `i64` values.
//!
//! Versions and typed counters are stored as eight big-endian bytes; the
//! sign of an `i64` is carried in two's complement through its `u64` bit
//! pattern.

use vstd::prelude::*;

verus! {

/// The big-endian bytes of `x`, most significant byte first.
pub open spec fn spec_u64_to_be_bytes(x: u64) -> Seq<u8> {
    seq![
        ((x >> 56) & 0xff) as u8,
        ((x >> 48) & 0xff) as u8,
        ((x >> 40) & 0xff) as u8,
        ((x >> 32) & 0xff) as u8,
        ((x >> 24) & 0xff) as u8,
        ((x >> 16) & 0xff) as u8,
        ((x >> 8) & 0xff) as u8,
        (x & 0xff) as u8,
    ]
}

/// The `u64` denoted by eight big-endian bytes.
pub open spec fn spec_u64_from_be_bytes(s: Seq<u8>) -> u64
    recommends
        s.len() == 8,
{
    (s[0] as u64) << 56 | (s[1] as u64) << 48 | (s[2] as u64) << 40 | (s[3] as u64) << 32
        | (s[4] as u64) << 24 | (s[5] as u64) << 16 | (s[6] as u64) << 8 | (s[7] as u64)
}

/// The `u64` bit pattern of `x` in two's complement.
pub open spec fn spec_i64_to_bits(x: i64) -> u64 {
    if x >= 0 {
        x as u64
    } else {
        (x + 0x1_0000_0000_0000_0000) as u64
    }
}

/// The `i64` denoted by the two's-complement bit pattern `u`.
pub open spec fn spec_i64_from_bits(u: u64) -> i64 {
    if u < 0x8000_0000_0000_0000 {
        u as i64
    } else {
        (u - 0x1_0000_0000_0000_0000) as i64
    }
}

/// The big-endian bytes of an `i64`, via its two's-complement bit pattern.
pub open spec fn spec_i64_to_be_bytes(x: i64) -> Seq<u8> {
    spec_u64_to_be_bytes(spec_i64_to_bits(x))
}

/// The `i64` denoted by a byte string, or nothing when the length is not 8.
pub open spec fn spec_decode_i64(s: Seq<u8>) -> Option<i64> {
    if s.len() == 8 {
        Some(spec_i64_from_bits(spec_u64_from_be_bytes(s)))
    } else {
        None
    }
}

/// Reading back the big-endian bytes of `x` yields `x` again.
pub proof fn lemma_u64_be_bytes_round_trip(x: u64)
    ensures
        spec_u64_to_be_bytes(x).len() == 8,
        spec_u64_from_be_bytes(spec_u64_to_be_bytes(x)) == x,
{
    assert((((x >> 56) & 0xff) << 56) | (((x >> 48) & 0xff) << 48) | (((x >> 40) & 0xff) << 40)
        | (((x >> 32) & 0xff) << 32) | (((x >> 24) & 0xff) << 24) | (((x >> 16) & 0xff) << 16)
        | (((x >> 8) & 0xff) << 8) | (x & 0xff) == x) by (bit_vector);
    assert((((x >> 56) & 0xff) as u8) as u64 == (x >> 56) & 0xff) by (bit_vector);
    assert((((x >> 48) & 0xff) as u8) as u64 == (x >> 48) & 0xff) by (bit_vector);
    assert((((x >> 40) & 0xff) as u8) as u64 == (x >> 40) & 0xff) by (bit_vector);
    assert((((x >> 32) & 0xff) as u8) as u64 == (x >> 32) & 0xff) by (bit_vector);
    assert((((x >> 24) & 0xff) as u8) as u64 == (x >> 24) & 0xff) by (bit_vector);
    assert((((x >> 16) & 0xff) as u8) as u64 == (x >> 16) & 0xff) by (bit_vector);
    assert((((x >> 8) & 0xff) as u8) as u64 == (x >> 8) & 0xff) by (bit_vector);
    assert(((x & 0xff) as u8) as u64 == x & 0xff) by (bit_vector);
}

/// The two's-complement bit pattern reads back to the same `i64`.
pub proof fn lemma_i64_bits_round_trip(x: i64)
    ensures
        spec_i64_from_bits(spec_i64_to_bits(x)) == x,
{
}

/// Reading back the big-endian bytes of an `i64` yields it again.
pub proof fn lemma_i64_be_bytes_round_trip(x: i64)
    ensures
        spec_decode_i64(spec_i64_to_be_bytes(x)) == Some(x),
{
    lemma_u64_be_bytes_round_trip(spec_i64_to_bits(x));
    lemma_i64_bits_round_trip(x);
}

/// Byte-string equality, settled element by element.
pub fn bytes_eq(a: &Vec<u8>, b: &Vec<u8>) -> (r: bool)
    ensures
        r == (a@ == b@),
{
    let n = a.len();
    if n != b.len() {
        assert(a@ != b@);
        return false;
    }
    let mut i: usize = 0;
    while i < n
        invariant
            i <= n,
            n == a@.len() && n == b@.len(),
            forall|j: int| 0 <= j < i ==> a@[j] == b@[j],
        decreases n - i,
    {
        if a[i] != b[i] {
            assert(a@ != b@);
            return false;
        }
        i = i + 1;
    }
    assert(a@ =~= b@);
    true
}

/// A fresh copy of a byte string.
pub fn clone_bytes(v: &Vec<u8>) -> (r: Vec<u8>)
    ensures
        r@ == v@,
{
    let mut out: Vec<u8> = Vec::new();
    let n = v.len();
    let mut i: usize = 0;
    while i < n
        invariant
            i <= n,
            n == v@.len(),
            out@ == v@.subrange(0, i as int),
        decreases n - i,
    {
        out.push(v[i]);
        i = i + 1;
        assert(v@.subrange(0, i as int) =~= v@.subrange(0, i - 1).push(v@[i - 1]));
    }
    assert(v@.subrange(0, n as int) =~= v@);
    out
}

/// Appends the eight big-endian bytes of `x` to `out`.
pub fn put_u64_be(out: &mut Vec<u8>, x: u64)
    ensures
        final(out)@ == old(out)@ + spec_u64_to_be_bytes(x),
{
    out.push(((x >> 56) & 0xff) as u8);
    out.push(((x >> 48) & 0xff) as u8);
    out.push(((x >> 40) & 0xff) as u8);
    out.push(((x >> 32) & 0xff) as u8);
    out.push(((x >> 24) & 0xff) as u8);
    out.push(((x >> 16) & 0xff) as u8);
    out.push(((x >> 8) & 0xff) as u8);
    out.push((x & 0xff) as u8);
    assert(final(out)@ =~= old(out)@ + spec_u64_to_be_bytes(x));
}

/// Reads a `u64` from eight big-endian bytes starting at `at`.
pub fn get_u64_be(s: &Vec<u8>, at: usize) -> (x: u64)
    requires
        at + 8 <= s@.len(),
    ensures
        x == spec_u64_from_be_bytes(s@.subrange(at as int, at + 8)),
{
    let n = s.len();
    assert(at + 8 <= n);
    let x = (s[at] as u64) << 56 | (s[at + 1] as u64) << 48 | (s[at + 2] as u64) << 40
        | (s[at + 3] as u64) << 32 | (s[at + 4] as u64) << 24 | (s[at + 5] as u64) << 16
        | (s[at + 6] as u64) << 8 | (s[at + 7] as u64);
    proof {
        let sub = s@.subrange(at as int, at + 8);
        assert(sub[0] == s@[at as int]);
        assert(sub[1] == s@[at + 1]);
        assert(sub[2] == s@[at + 2]);
        assert(sub[3] == s@[at + 3]);
        assert(sub[4] == s@[at + 4]);
        assert(sub[5] == s@[at + 5]);
        assert(sub[6] == s@[at + 6]);
        assert(sub[7] == s@[at + 7]);
    }
    x
}

/// Encodes `x` as eight big-endian bytes.
pub fn encode_i64(x: i64) -> (r: Vec<u8>)
    ensures
        r@ == spec_i64_to_be_bytes(x),
{
    let bits: u64 = if x >= 0 {
        x as u64
    } else {
        ((x as i128) + 0x1_0000_0000_0000_0000i128) as u64
    };
    assert(bits == spec_i64_to_bits(x));
    let mut out: Vec<u8> = Vec::new();
    put_u64_be(&mut out, bits);
    out
}

/// Decodes eight big-endian bytes as an `i64`; any other length is invalid.
pub fn decode_i64(s: &Vec<u8>) -> (r: Option<i64>)
    ensures
        r == spec_decode_i64(s@),
{
    if s.len() != 8 {
        return None;
    }
    let bits = get_u64_be(s, 0);
    proof {
        assert(s@.subrange(0, 8) =~= s@);
    }
    let x: i64 = if bits < 0x8000_0000_0000_0000u64 {
        bits as i64
    } else {
        ((bits as i128) - 0x1_0000_0000_0000_0000i128) as i64
    };
    Some(x)
}

} // verus!
