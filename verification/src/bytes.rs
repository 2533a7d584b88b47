//! Fixed-width integers as byte strings, in both byte orders.

use vstd::prelude::*;

verus! {

/// The eight bytes of `value`, least significant first.
#[verifier::opaque]
pub open spec fn le_bytes(value: u64) -> Seq<u8> {
    seq![
        (value % 0x100) as u8,
        (value / 0x100 % 0x100) as u8,
        (value / 0x1_0000 % 0x100) as u8,
        (value / 0x100_0000 % 0x100) as u8,
        (value / 0x1_0000_0000 % 0x100) as u8,
        (value / 0x100_0000_0000 % 0x100) as u8,
        (value / 0x1_0000_0000_0000 % 0x100) as u8,
        (value / 0x100_0000_0000_0000 % 0x100) as u8,
    ]
}

/// The number whose little-endian digits are the first eight bytes of `bytes`.
#[verifier::opaque]
pub open spec fn le_value(bytes: Seq<u8>) -> int
    recommends
        bytes.len() >= 8,
{
    bytes[0] + 0x100 * bytes[1] + 0x1_0000 * bytes[2] + 0x100_0000 * bytes[3] + 0x1_0000_0000
        * bytes[4] + 0x100_0000_0000 * bytes[5] + 0x1_0000_0000_0000 * bytes[6]
        + 0x100_0000_0000_0000 * bytes[7]
}

/// The number whose big-endian digits are the first eight bytes of `bytes`.
#[verifier::opaque]
pub open spec fn be_value(bytes: Seq<u8>) -> int
    recommends
        bytes.len() >= 8,
{
    bytes[7] + 0x100 * bytes[6] + 0x1_0000 * bytes[5] + 0x100_0000 * bytes[4] + 0x1_0000_0000
        * bytes[3] + 0x100_0000_0000 * bytes[2] + 0x1_0000_0000_0000 * bytes[1]
        + 0x100_0000_0000_0000 * bytes[0]
}

/// The 32 bytes of `value` as a 256-bit number, most significant first:
/// 24 zero bytes, then the eight bytes of `value`.
pub open spec fn be_bytes_32(value: u64) -> Seq<u8> {
    Seq::new(32, |i: int| if i < 24 { 0u8 } else { le_bytes(value)[31 - i] })
}

/// Dividing by `base` and then by 256 is dividing by their product.
proof fn lemma_div_step(value: int, base: int)
    requires
        0 <= value,
        0 < base,
    ensures
        value / (base * 0x100) == value / base / 0x100,
{
    let q1 = value / base;
    let q2 = q1 / 0x100;
    assert(base * q1 <= value < base * q1 + base) by (nonlinear_arith)
        requires
            q1 == value / base,
            0 < base,
            0 <= value,
    ;
    assert(0x100 * q2 <= q1 < 0x100 * q2 + 0x100);
    assert((base * 0x100) * q2 <= value < (base * 0x100) * q2 + base * 0x100) by (nonlinear_arith)
        requires
            base * q1 <= value < base * q1 + base,
            0x100 * q2 <= q1 < 0x100 * q2 + 0x100,
            0 < base,
    ;
    assert(value / (base * 0x100) == q2) by (nonlinear_arith)
        requires
            (base * 0x100) * q2 <= value < (base * 0x100) * q2 + base * 0x100,
            0 < base,
    ;
}

/// The quotients of `value` by the powers of 256 are its repeated quotients
/// by 256.
proof fn lemma_quotients(value: int)
    requires
        0 <= value,
    ensures
        value / 0x1_0000 == value / 0x100 / 0x100,
        value / 0x100_0000 == value / 0x1_0000 / 0x100,
        value / 0x1_0000_0000 == value / 0x100_0000 / 0x100,
        value / 0x100_0000_0000 == value / 0x1_0000_0000 / 0x100,
        value / 0x1_0000_0000_0000 == value / 0x100_0000_0000 / 0x100,
        value / 0x100_0000_0000_0000 == value / 0x1_0000_0000_0000 / 0x100,
{
    lemma_div_step(value, 0x100);
    lemma_div_step(value, 0x1_0000);
    lemma_div_step(value, 0x100_0000);
    lemma_div_step(value, 0x1_0000_0000);
    lemma_div_step(value, 0x100_0000_0000);
    lemma_div_step(value, 0x1_0000_0000_0000);
}

/// Reading back the little-endian bytes of a number gives the number.
pub proof fn lemma_le_round_trip(value: u64)
    ensures
        le_bytes(value).len() == 8,
        le_value(le_bytes(value)) == value,
{
    reveal(le_bytes);
    reveal(le_value);
    let v = value as int;
    lemma_quotients(v);
    let q1 = v / 0x100;
    let q2 = v / 0x1_0000;
    let q3 = v / 0x100_0000;
    let q4 = v / 0x1_0000_0000;
    let q5 = v / 0x100_0000_0000;
    let q6 = v / 0x1_0000_0000_0000;
    let q7 = v / 0x100_0000_0000_0000;
    assert(q7 < 0x100);
    assert(v == v % 0x100 + 0x100 * q1);
    assert(q1 == q1 % 0x100 + 0x100 * q2);
    assert(q2 == q2 % 0x100 + 0x100 * q3);
    assert(q3 == q3 % 0x100 + 0x100 * q4);
    assert(q4 == q4 % 0x100 + 0x100 * q5);
    assert(q5 == q5 % 0x100 + 0x100 * q6);
    assert(q6 == q6 % 0x100 + 0x100 * q7);
    assert(q7 == q7 % 0x100);
}

/// Eight bytes are the little-endian bytes of the number they spell.
pub proof fn lemma_le_bytes_of_value(bytes: Seq<u8>)
    requires
        bytes.len() == 8,
    ensures
        0 <= le_value(bytes) <= u64::MAX,
        le_bytes(le_value(bytes) as u64) == bytes,
{
    reveal(le_bytes);
    reveal(le_value);
    let t7 = bytes[7] as int;
    let t6 = bytes[6] + 0x100 * t7;
    let t5 = bytes[5] + 0x100 * t6;
    let t4 = bytes[4] + 0x100 * t5;
    let t3 = bytes[3] + 0x100 * t4;
    let t2 = bytes[2] + 0x100 * t3;
    let t1 = bytes[1] + 0x100 * t2;
    let t0 = bytes[0] + 0x100 * t1;
    assert(t0 == le_value(bytes));
    lemma_quotients(t0);
    assert(t0 / 0x100 == t1);
    assert(t1 / 0x100 == t2);
    assert(t2 / 0x100 == t3);
    assert(t3 / 0x100 == t4);
    assert(t4 / 0x100 == t5);
    assert(t5 / 0x100 == t6);
    assert(t6 / 0x100 == t7);
    assert(t0 % 0x100 == bytes[0]);
    assert(t1 % 0x100 == bytes[1]);
    assert(t2 % 0x100 == bytes[2]);
    assert(t3 % 0x100 == bytes[3]);
    assert(t4 % 0x100 == bytes[4]);
    assert(t5 % 0x100 == bytes[5]);
    assert(t6 % 0x100 == bytes[6]);
    assert(t7 % 0x100 == bytes[7]);
    assert(le_bytes(t0 as u64) =~= bytes);
}

/// The little-endian number of a byte string is that of its first eight
/// bytes, and fits in 64 bits.
pub proof fn lemma_le_value_of_prefix(bytes: Seq<u8>, prefix: Seq<u8>)
    requires
        prefix.len() >= 8,
        bytes.len() >= 8,
        forall|i: int| 0 <= i < 8 ==> bytes[i] == prefix[i],
    ensures
        le_value(bytes) == le_value(prefix),
        0 <= le_value(bytes) <= u64::MAX,
{
    reveal(le_value);
}

/// The 32-byte form of a number holds the number in its last eight bytes,
/// and nothing but zeros in its first eight.
pub proof fn lemma_be_bytes_32(value: u64)
    ensures
        be_bytes_32(value).len() == 32,
        be_value(be_bytes_32(value).skip(24)) == value,
        be_value(be_bytes_32(value)) == 0,
{
    lemma_le_round_trip(value);
    reveal(le_value);
    reveal(be_value);
}

/// Reads a little-endian `u64` from the first eight bytes of `bytes`.
pub fn u64_from_le(bytes: &[u8]) -> (value: u64)
    requires
        bytes@.len() >= 8,
    ensures
        value == le_value(bytes@),
{
    let b0: u64 = bytes[0] as u64;
    let b1: u64 = bytes[1] as u64;
    let b2: u64 = bytes[2] as u64;
    let b3: u64 = bytes[3] as u64;
    let b4: u64 = bytes[4] as u64;
    let b5: u64 = bytes[5] as u64;
    let b6: u64 = bytes[6] as u64;
    let b7: u64 = bytes[7] as u64;
    proof {
        reveal(le_value);
    }
    b0 + 0x100 * b1 + 0x1_0000 * b2 + 0x100_0000 * b3 + 0x1_0000_0000 * b4 + 0x100_0000_0000 * b5
        + 0x1_0000_0000_0000 * b6 + 0x100_0000_0000_0000 * b7
}

/// Reads a big-endian `u64` from the first eight bytes of `bytes`.
pub fn u64_from_be(bytes: &[u8]) -> (value: u64)
    requires
        bytes@.len() >= 8,
    ensures
        value == be_value(bytes@),
{
    let b0: u64 = bytes[0] as u64;
    let b1: u64 = bytes[1] as u64;
    let b2: u64 = bytes[2] as u64;
    let b3: u64 = bytes[3] as u64;
    let b4: u64 = bytes[4] as u64;
    let b5: u64 = bytes[5] as u64;
    let b6: u64 = bytes[6] as u64;
    let b7: u64 = bytes[7] as u64;
    proof {
        reveal(be_value);
    }
    b7 + 0x100 * b6 + 0x1_0000 * b5 + 0x100_0000 * b4 + 0x1_0000_0000 * b3 + 0x100_0000_0000 * b2
        + 0x1_0000_0000_0000 * b1 + 0x100_0000_0000_0000 * b0
}

} // verus!
