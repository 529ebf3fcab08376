//! Little-endian integers: the byte order of every number that the engine
//! stores, whatever the host.

use vstd::prelude::*;

verus! {

/// The eight bytes of `x`, least significant first.
pub open spec fn le_bytes_u64(x: u64) -> Seq<u8> {
    seq![
        (x & 0xff) as u8,
        ((x >> 8) & 0xff) as u8,
        ((x >> 16) & 0xff) as u8,
        ((x >> 24) & 0xff) as u8,
        ((x >> 32) & 0xff) as u8,
        ((x >> 40) & 0xff) as u8,
        ((x >> 48) & 0xff) as u8,
        ((x >> 56) & 0xff) as u8,
    ]
}

/// The number whose little-endian form is the first eight bytes of `b`.
pub open spec fn le_value_u64(b: Seq<u8>) -> u64
    recommends
        b.len() >= 8,
{
    (b[0] as u64) | (b[1] as u64) << 8 | (b[2] as u64) << 16 | (b[3] as u64) << 24 | (b[4] as u64)
        << 32 | (b[5] as u64) << 40 | (b[6] as u64) << 48 | (b[7] as u64) << 56
}

/// The four bytes of `x`, least significant first.
pub open spec fn le_bytes_u32(x: u32) -> Seq<u8> {
    seq![
        (x & 0xff) as u8,
        ((x >> 8) & 0xff) as u8,
        ((x >> 16) & 0xff) as u8,
        ((x >> 24) & 0xff) as u8,
    ]
}

/// The number whose little-endian form is the first four bytes of `b`.
pub open spec fn le_value_u32(b: Seq<u8>) -> u32
    recommends
        b.len() >= 4,
{
    (b[0] as u32) | (b[1] as u32) << 8 | (b[2] as u32) << 16 | (b[3] as u32) << 24
}

/// Eight bytes written and read back give the number that was written.
pub proof fn lemma_le_u64_round_trip(x: u64)
    ensures
        le_bytes_u64(x).len() == 8,
        le_value_u64(le_bytes_u64(x)) == x,
{
    assert(((x & 0xff) as u8 as u64) | (((x >> 8) & 0xff) as u8 as u64) << 8 | (((x >> 16)
        & 0xff) as u8 as u64) << 16 | (((x >> 24) & 0xff) as u8 as u64) << 24 | (((x >> 32)
        & 0xff) as u8 as u64) << 32 | (((x >> 40) & 0xff) as u8 as u64) << 40 | (((x >> 48)
        & 0xff) as u8 as u64) << 48 | (((x >> 56) & 0xff) as u8 as u64) << 56 == x)
        by (bit_vector);
}

/// Eight bytes read and written back give the bytes that were read.
pub proof fn lemma_le_u64_bytes_round_trip(b: Seq<u8>)
    requires
        b.len() == 8,
    ensures
        le_bytes_u64(le_value_u64(b)) == b,
{
    let (b0, b1, b2, b3, b4, b5, b6, b7) = (b[0], b[1], b[2], b[3], b[4], b[5], b[6], b[7]);
    let x = le_value_u64(b);
    assert((x & 0xff) as u8 == b0 && ((x >> 8) & 0xff) as u8 == b1 && ((x >> 16) & 0xff) as u8
        == b2 && ((x >> 24) & 0xff) as u8 == b3 && ((x >> 32) & 0xff) as u8 == b4 && ((x >> 40)
        & 0xff) as u8 == b5 && ((x >> 48) & 0xff) as u8 == b6 && ((x >> 56) & 0xff) as u8 == b7)
        by (bit_vector)
        requires
            x == (b0 as u64) | (b1 as u64) << 8 | (b2 as u64) << 16 | (b3 as u64) << 24 | (
            b4 as u64) << 32 | (b5 as u64) << 40 | (b6 as u64) << 48 | (b7 as u64) << 56,
    ;
    assert(le_bytes_u64(x) =~= b);
}

/// Four bytes written and read back give the number that was written.
pub proof fn lemma_le_u32_round_trip(x: u32)
    ensures
        le_bytes_u32(x).len() == 4,
        le_value_u32(le_bytes_u32(x)) == x,
{
    assert(((x & 0xff) as u8 as u32) | (((x >> 8) & 0xff) as u8 as u32) << 8 | (((x >> 16)
        & 0xff) as u8 as u32) << 16 | (((x >> 24) & 0xff) as u8 as u32) << 24 == x)
        by (bit_vector);
}

/// Four bytes read and written back give the bytes that were read.
pub proof fn lemma_le_u32_bytes_round_trip(b: Seq<u8>)
    requires
        b.len() == 4,
    ensures
        le_bytes_u32(le_value_u32(b)) == b,
{
    let (b0, b1, b2, b3) = (b[0], b[1], b[2], b[3]);
    let x = le_value_u32(b);
    assert((x & 0xff) as u8 == b0 && ((x >> 8) & 0xff) as u8 == b1 && ((x >> 16) & 0xff) as u8
        == b2 && ((x >> 24) & 0xff) as u8 == b3) by (bit_vector)
        requires
            x == (b0 as u32) | (b1 as u32) << 8 | (b2 as u32) << 16 | (b3 as u32) << 24,
    ;
    assert(le_bytes_u32(x) =~= b);
}

/// Write `x` as eight little-endian bytes.
pub fn u64_to_le(x: u64) -> (b: Vec<u8>)
    ensures
        b@ == le_bytes_u64(x),
{
    assert(x & 0xff < 256 && (x >> 8) & 0xff < 256 && (x >> 16) & 0xff < 256 && (x >> 24) & 0xff
        < 256 && (x >> 32) & 0xff < 256 && (x >> 40) & 0xff < 256 && (x >> 48) & 0xff < 256 && (x
        >> 56) & 0xff < 256) by (bit_vector);
    let mut b: Vec<u8> = Vec::new();
    b.push((x & 0xff) as u8);
    b.push(((x >> 8) & 0xff) as u8);
    b.push(((x >> 16) & 0xff) as u8);
    b.push(((x >> 24) & 0xff) as u8);
    b.push(((x >> 32) & 0xff) as u8);
    b.push(((x >> 40) & 0xff) as u8);
    b.push(((x >> 48) & 0xff) as u8);
    b.push(((x >> 56) & 0xff) as u8);
    assert(b@ =~= le_bytes_u64(x));
    b
}

/// Read the first eight bytes of `b` as a little-endian number.
pub fn u64_from_le(b: &[u8]) -> (x: u64)
    requires
        b@.len() >= 8,
    ensures
        x == le_value_u64(b@),
{
    (b[0] as u64) | (b[1] as u64) << 8 | (b[2] as u64) << 16 | (b[3] as u64) << 24 | (b[4] as u64)
        << 32 | (b[5] as u64) << 40 | (b[6] as u64) << 48 | (b[7] as u64) << 56
}

/// Write `x` as four little-endian bytes.
pub fn u32_to_le(x: u32) -> (b: Vec<u8>)
    ensures
        b@ == le_bytes_u32(x),
{
    assert(x & 0xff < 256 && (x >> 8) & 0xff < 256 && (x >> 16) & 0xff < 256 && (x >> 24) & 0xff
        < 256) by (bit_vector);
    let mut b: Vec<u8> = Vec::new();
    b.push((x & 0xff) as u8);
    b.push(((x >> 8) & 0xff) as u8);
    b.push(((x >> 16) & 0xff) as u8);
    b.push(((x >> 24) & 0xff) as u8);
    assert(b@ =~= le_bytes_u32(x));
    b
}

/// Read the first four bytes of `b` as a little-endian number.
pub fn u32_from_le(b: &[u8]) -> (x: u32)
    requires
        b@.len() >= 4,
    ensures
        x == le_value_u32(b@),
{
    (b[0] as u32) | (b[1] as u32) << 8 | (b[2] as u32) << 16 | (b[3] as u32) << 24
}

} // verus!
