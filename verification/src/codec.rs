//! Fixed-width big-endian byte-layout conversions: the numeric codec that
//! backs the NBT value reader and writer.
//!
//! Each width has a total `to_bytes` direction and a partial `from_bytes`
//! direction that fails exactly when the slice length differs from the
//! width. Floats travel as their IEEE-754 bit patterns (`u32` and `u64`),
//! so the conversions round-trip bit-for-bit.

use vstd::prelude::*;

verus! {

/// The two big-endian bytes of a 16-bit value, most significant first.
pub open spec fn spec_u16_to_be_bytes(x: u16) -> Seq<u8> {
    seq![(x >> 8) as u8, x as u8]
}

/// The 16-bit value read from two big-endian bytes.
pub open spec fn spec_u16_from_be_bytes(s: Seq<u8>) -> u16
    recommends
        s.len() == 2,
{
    ((s[0] as u16) << 8) | (s[1] as u16)
}

/// The four big-endian bytes of a 32-bit value, most significant first.
pub open spec fn spec_u32_to_be_bytes(x: u32) -> Seq<u8> {
    seq![(x >> 24) as u8, (x >> 16) as u8, (x >> 8) as u8, x as u8]
}

/// The 32-bit value read from four big-endian bytes.
pub open spec fn spec_u32_from_be_bytes(s: Seq<u8>) -> u32
    recommends
        s.len() == 4,
{
    ((s[0] as u32) << 24) | ((s[1] as u32) << 16) | ((s[2] as u32) << 8) | (s[3] as u32)
}

/// The eight big-endian bytes of a 64-bit value, most significant first.
pub open spec fn spec_u64_to_be_bytes(x: u64) -> Seq<u8> {
    seq![
        (x >> 56) as u8,
        (x >> 48) as u8,
        (x >> 40) as u8,
        (x >> 32) as u8,
        (x >> 24) as u8,
        (x >> 16) as u8,
        (x >> 8) as u8,
        x as u8,
    ]
}

/// The 64-bit value read from eight big-endian bytes.
pub open spec fn spec_u64_from_be_bytes(s: Seq<u8>) -> u64
    recommends
        s.len() == 8,
{
    ((s[0] as u64) << 56) | ((s[1] as u64) << 48) | ((s[2] as u64) << 40) | ((s[3] as u64) << 32)
        | ((s[4] as u64) << 24) | ((s[5] as u64) << 16) | ((s[6] as u64) << 8) | (s[7] as u64)
}

/// Reading back the two big-endian bytes of a 16-bit value recovers it.
pub proof fn lemma_u16_be_bytes_inverse(x: u16)
    ensures
        spec_u16_from_be_bytes(spec_u16_to_be_bytes(x)) == x,
{
    assert(((((x >> 8) as u8) as u16) << 8) | ((x as u8) as u16) == x) by (bit_vector);
}

/// Reading back the four big-endian bytes of a 32-bit value recovers it.
pub proof fn lemma_u32_be_bytes_inverse(x: u32)
    ensures
        spec_u32_from_be_bytes(spec_u32_to_be_bytes(x)) == x,
{
    assert(((((x >> 24) as u8) as u32) << 24) | ((((x >> 16) as u8) as u32) << 16) | ((((x
        >> 8) as u8) as u32) << 8) | ((x as u8) as u32) == x) by (bit_vector);
}

/// Reading back the eight big-endian bytes of a 64-bit value recovers it.
pub proof fn lemma_u64_be_bytes_inverse(x: u64)
    ensures
        spec_u64_from_be_bytes(spec_u64_to_be_bytes(x)) == x,
{
    assert(((((x >> 56) as u8) as u64) << 56) | ((((x >> 48) as u8) as u64) << 48) | ((((x
        >> 40) as u8) as u64) << 40) | ((((x >> 32) as u8) as u64) << 32) | ((((x
        >> 24) as u8) as u64) << 24) | ((((x >> 16) as u8) as u64) << 16) | ((((x
        >> 8) as u8) as u64) << 8) | ((x as u8) as u64) == x) by (bit_vector);
}

/// The two big-endian bytes of a 16-bit value.
pub fn u16_to_be_bytes(x: u16) -> (r: Vec<u8>)
    ensures
        r@ == spec_u16_to_be_bytes(x),
{
    let mut v: Vec<u8> = Vec::new();
    v.push((x >> 8) as u8);
    v.push(x as u8);
    proof {
        assert(v@ =~= spec_u16_to_be_bytes(x));
    }
    v
}

/// The 16-bit value read from a slice, which must hold exactly two bytes.
pub fn u16_from_be_bytes(d: &[u8]) -> (r: Option<u16>)
    ensures
        r is Some <==> d@.len() == 2,
        d@.len() == 2 ==> r == Some(spec_u16_from_be_bytes(d@)),
{
    if d.len() != 2 {
        None
    } else {
        Some(((d[0] as u16) << 8) | (d[1] as u16))
    }
}

/// The four big-endian bytes of a 32-bit value.
pub fn u32_to_be_bytes(x: u32) -> (r: Vec<u8>)
    ensures
        r@ == spec_u32_to_be_bytes(x),
{
    let mut v: Vec<u8> = Vec::new();
    v.push((x >> 24) as u8);
    v.push((x >> 16) as u8);
    v.push((x >> 8) as u8);
    v.push(x as u8);
    proof {
        assert(v@ =~= spec_u32_to_be_bytes(x));
    }
    v
}

/// The 32-bit value read from a slice, which must hold exactly four bytes.
pub fn u32_from_be_bytes(d: &[u8]) -> (r: Option<u32>)
    ensures
        r is Some <==> d@.len() == 4,
        d@.len() == 4 ==> r == Some(spec_u32_from_be_bytes(d@)),
{
    if d.len() != 4 {
        None
    } else {
        Some(((d[0] as u32) << 24) | ((d[1] as u32) << 16) | ((d[2] as u32) << 8) | (d[3] as u32))
    }
}

/// The eight big-endian bytes of a 64-bit value.
pub fn u64_to_be_bytes(x: u64) -> (r: Vec<u8>)
    ensures
        r@ == spec_u64_to_be_bytes(x),
{
    let mut v: Vec<u8> = Vec::new();
    v.push((x >> 56) as u8);
    v.push((x >> 48) as u8);
    v.push((x >> 40) as u8);
    v.push((x >> 32) as u8);
    v.push((x >> 24) as u8);
    v.push((x >> 16) as u8);
    v.push((x >> 8) as u8);
    v.push(x as u8);
    proof {
        assert(v@ =~= spec_u64_to_be_bytes(x));
    }
    v
}

/// The 64-bit value read from a slice, which must hold exactly eight bytes.
pub fn u64_from_be_bytes(d: &[u8]) -> (r: Option<u64>)
    ensures
        r is Some <==> d@.len() == 8,
        d@.len() == 8 ==> r == Some(spec_u64_from_be_bytes(d@)),
{
    if d.len() != 8 {
        None
    } else {
        Some(
            ((d[0] as u64) << 56) | ((d[1] as u64) << 48) | ((d[2] as u64) << 40) | ((d[3] as u64)
                << 32) | ((d[4] as u64) << 24) | ((d[5] as u64) << 16) | ((d[6] as u64) << 8) | (
            d[7] as u64),
        )
    }
}

/// The single byte of an 8-bit signed value.
pub open spec fn spec_i8_to_be_bytes(x: i8) -> Seq<u8> {
    seq![x as u8]
}

/// The 8-bit signed value read from one byte.
pub open spec fn spec_i8_from_be_bytes(s: Seq<u8>) -> i8
    recommends
        s.len() == 1,
{
    s[0] as i8
}

/// The two big-endian bytes of a 16-bit signed value.
pub open spec fn spec_i16_to_be_bytes(x: i16) -> Seq<u8> {
    spec_u16_to_be_bytes(x as u16)
}

/// The 16-bit signed value read from two big-endian bytes.
pub open spec fn spec_i16_from_be_bytes(s: Seq<u8>) -> i16
    recommends
        s.len() == 2,
{
    spec_u16_from_be_bytes(s) as i16
}

/// The four big-endian bytes of a 32-bit signed value.
pub open spec fn spec_i32_to_be_bytes(x: i32) -> Seq<u8> {
    spec_u32_to_be_bytes(x as u32)
}

/// The 32-bit signed value read from four big-endian bytes.
pub open spec fn spec_i32_from_be_bytes(s: Seq<u8>) -> i32
    recommends
        s.len() == 4,
{
    spec_u32_from_be_bytes(s) as i32
}

/// The eight big-endian bytes of a 64-bit signed value.
pub open spec fn spec_i64_to_be_bytes(x: i64) -> Seq<u8> {
    spec_u64_to_be_bytes(x as u64)
}

/// The 64-bit signed value read from eight big-endian bytes.
pub open spec fn spec_i64_from_be_bytes(s: Seq<u8>) -> i64
    recommends
        s.len() == 8,
{
    spec_u64_from_be_bytes(s) as i64
}

/// Reading back the byte of an 8-bit signed value recovers it.
pub proof fn lemma_i8_be_bytes_inverse(x: i8)
    ensures
        spec_i8_from_be_bytes(spec_i8_to_be_bytes(x)) == x,
{
    assert((x as u8) as i8 == x) by (bit_vector);
}

/// Reading back the two big-endian bytes of a 16-bit signed value recovers it.
pub proof fn lemma_i16_be_bytes_inverse(x: i16)
    ensures
        spec_i16_from_be_bytes(spec_i16_to_be_bytes(x)) == x,
{
    lemma_u16_be_bytes_inverse(x as u16);
    assert((x as u16) as i16 == x) by (bit_vector);
}

/// Reading back the four big-endian bytes of a 32-bit signed value recovers it.
pub proof fn lemma_i32_be_bytes_inverse(x: i32)
    ensures
        spec_i32_from_be_bytes(spec_i32_to_be_bytes(x)) == x,
{
    lemma_u32_be_bytes_inverse(x as u32);
    assert((x as u32) as i32 == x) by (bit_vector);
}

/// Reading back the eight big-endian bytes of a 64-bit signed value recovers it.
pub proof fn lemma_i64_be_bytes_inverse(x: i64)
    ensures
        spec_i64_from_be_bytes(spec_i64_to_be_bytes(x)) == x,
{
    lemma_u64_be_bytes_inverse(x as u64);
    assert((x as u64) as i64 == x) by (bit_vector);
}

/// The single byte of an 8-bit signed value.
pub fn i8_to_be_bytes(x: i8) -> (r: Vec<u8>)
    ensures
        r@ == spec_i8_to_be_bytes(x),
{
    let mut v: Vec<u8> = Vec::new();
    v.push(x as u8);
    proof {
        assert(v@ =~= spec_i8_to_be_bytes(x));
    }
    v
}

/// The 8-bit signed value read from a slice, which must hold exactly one byte.
pub fn i8_from_be_bytes(d: &[u8]) -> (r: Option<i8>)
    ensures
        r is Some <==> d@.len() == 1,
        d@.len() == 1 ==> r == Some(spec_i8_from_be_bytes(d@)),
{
    if d.len() != 1 {
        None
    } else {
        Some(d[0] as i8)
    }
}

/// The two big-endian bytes of a 16-bit signed value.
pub fn i16_to_be_bytes(x: i16) -> (r: Vec<u8>)
    ensures
        r@ == spec_i16_to_be_bytes(x),
{
    u16_to_be_bytes(x as u16)
}

/// The 16-bit signed value read from a slice, which must hold exactly two bytes.
pub fn i16_from_be_bytes(d: &[u8]) -> (r: Option<i16>)
    ensures
        r is Some <==> d@.len() == 2,
        d@.len() == 2 ==> r == Some(spec_i16_from_be_bytes(d@)),
{
    match u16_from_be_bytes(d) {
        Some(x) => Some(x as i16),
        None => None,
    }
}

/// The four big-endian bytes of a 32-bit signed value.
pub fn i32_to_be_bytes(x: i32) -> (r: Vec<u8>)
    ensures
        r@ == spec_i32_to_be_bytes(x),
{
    u32_to_be_bytes(x as u32)
}

/// The 32-bit signed value read from a slice, which must hold exactly four bytes.
pub fn i32_from_be_bytes(d: &[u8]) -> (r: Option<i32>)
    ensures
        r is Some <==> d@.len() == 4,
        d@.len() == 4 ==> r == Some(spec_i32_from_be_bytes(d@)),
{
    match u32_from_be_bytes(d) {
        Some(x) => Some(x as i32),
        None => None,
    }
}

/// The eight big-endian bytes of a 64-bit signed value.
pub fn i64_to_be_bytes(x: i64) -> (r: Vec<u8>)
    ensures
        r@ == spec_i64_to_be_bytes(x),
{
    u64_to_be_bytes(x as u64)
}

/// The 64-bit signed value read from a slice, which must hold exactly eight bytes.
pub fn i64_from_be_bytes(d: &[u8]) -> (r: Option<i64>)
    ensures
        r is Some <==> d@.len() == 8,
        d@.len() == 8 ==> r == Some(spec_i64_from_be_bytes(d@)),
{
    match u64_from_be_bytes(d) {
        Some(x) => Some(x as i64),
        None => None,
    }
}

} // verus!
