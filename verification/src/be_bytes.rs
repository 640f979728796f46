//! Big-endian byte encodings of fixed-width integers, shared by the data
//! streams and the tag format.
use vstd::prelude::*;

verus! {

/// The two bytes of `x`, most significant first.
pub open spec fn be2(x: u16) -> Seq<u8> {
    seq![(x >> 8u16) as u8, x as u8]
}

/// The four bytes of `x`, most significant first.
pub open spec fn be4(x: u32) -> Seq<u8> {
    seq![(x >> 24u32) as u8, (x >> 16u32) as u8, (x >> 8u32) as u8, x as u8]
}

/// The eight bytes of `x`, most significant first.
pub open spec fn be8(x: u64) -> Seq<u8> {
    seq![
        (x >> 56u64) as u8,
        (x >> 48u64) as u8,
        (x >> 40u64) as u8,
        (x >> 32u64) as u8,
        (x >> 24u64) as u8,
        (x >> 16u64) as u8,
        (x >> 8u64) as u8,
        x as u8,
    ]
}

/// The 16-bit value whose big-endian bytes are `b[0], b[1]`.
pub open spec fn from_be2(b: Seq<u8>) -> u16 {
    ((b[0] as u16) << 8u16) | (b[1] as u16)
}

/// The 32-bit value whose big-endian bytes are `b[0..4]`.
pub open spec fn from_be4(b: Seq<u8>) -> u32 {
    ((b[0] as u32) << 24u32) | ((b[1] as u32) << 16u32) | ((b[2] as u32) << 8u32) | (b[3] as u32)
}

/// The 64-bit value whose big-endian bytes are `b[0..8]`.
pub open spec fn from_be8(b: Seq<u8>) -> u64 {
    ((b[0] as u64) << 56u64) | ((b[1] as u64) << 48u64) | ((b[2] as u64) << 40u64) | ((b[3] as u64)
        << 32u64) | ((b[4] as u64) << 24u64) | ((b[5] as u64) << 16u64) | ((b[6] as u64) << 8u64)
        | (b[7] as u64)
}

/// Decoding the encoding of a 16-bit value gives the value back.
pub proof fn lemma_be2_roundtrip(x: u16)
    ensures
        from_be2(be2(x)) == x,
        be2(x).len() == 2,
{
    let b = be2(x);
    assert(b[0] == (x >> 8u16) as u8 && b[1] == x as u8);
    assert(((((x >> 8u16) as u8) as u16) << 8u16) | ((x as u8) as u16) == x) by (bit_vector);
}

/// Decoding the encoding of a 32-bit value gives the value back.
pub proof fn lemma_be4_roundtrip(x: u32)
    ensures
        from_be4(be4(x)) == x,
        be4(x).len() == 4,
{
    let b = be4(x);
    assert(b[0] == (x >> 24u32) as u8 && b[1] == (x >> 16u32) as u8 && b[2] == (x >> 8u32) as u8
        && b[3] == x as u8);
    assert(((((x >> 24u32) as u8) as u32) << 24u32) | ((((x >> 16u32) as u8) as u32) << 16u32) | (((
    (x >> 8u32) as u8) as u32) << 8u32) | ((x as u8) as u32) == x) by (bit_vector);
}

/// Decoding the encoding of a 64-bit value gives the value back.
pub proof fn lemma_be8_roundtrip(x: u64)
    ensures
        from_be8(be8(x)) == x,
        be8(x).len() == 8,
{
    let b = be8(x);
    assert(b[0] == (x >> 56u64) as u8 && b[1] == (x >> 48u64) as u8 && b[2] == (x >> 40u64) as u8
        && b[3] == (x >> 32u64) as u8 && b[4] == (x >> 24u64) as u8 && b[5] == (x >> 16u64) as u8
        && b[6] == (x >> 8u64) as u8 && b[7] == x as u8);
    assert(((((x >> 56u64) as u8) as u64) << 56u64) | ((((x >> 48u64) as u8) as u64) << 48u64) | (((
    (x >> 40u64) as u8) as u64) << 40u64) | ((((x >> 32u64) as u8) as u64) << 32u64) | ((((x
        >> 24u64) as u8) as u64) << 24u64) | ((((x >> 16u64) as u8) as u64) << 16u64) | ((((x
        >> 8u64) as u8) as u64) << 8u64) | ((x as u8) as u64) == x) by (bit_vector);
}

/// Encoding the value decoded from two bytes gives the bytes back.
pub proof fn lemma_from_be2_roundtrip(b: Seq<u8>)
    requires
        b.len() == 2,
    ensures
        be2(from_be2(b)) == b,
{
    let (b0, b1) = (b[0], b[1]);
    let v = from_be2(b);
    assert(((((b0 as u16) << 8u16) | (b1 as u16)) >> 8u16) as u8 == b0) by (bit_vector);
    assert((((b0 as u16) << 8u16) | (b1 as u16)) as u8 == b1) by (bit_vector);
    assert(be2(v) =~= b);
}

/// Encoding the value decoded from four bytes gives the bytes back.
pub proof fn lemma_from_be4_roundtrip(b: Seq<u8>)
    requires
        b.len() == 4,
    ensures
        be4(from_be4(b)) == b,
{
    let (b0, b1, b2, b3) = (b[0], b[1], b[2], b[3]);
    let v = from_be4(b);
    assert(v == ((b0 as u32) << 24u32) | ((b1 as u32) << 16u32) | ((b2 as u32) << 8u32) | (
    b3 as u32));
    assert(v == ((b0 as u32) << 24u32) | ((b1 as u32) << 16u32) | ((b2 as u32) << 8u32) | (
    b3 as u32) ==> (v >> 24u32) as u8 == b0 && (v >> 16u32) as u8 == b1 && (v >> 8u32) as u8 == b2
        && v as u8 == b3) by (bit_vector);
    assert(be4(v) =~= b);
}

/// Encoding the value decoded from eight bytes gives the bytes back.
pub proof fn lemma_from_be8_roundtrip(b: Seq<u8>)
    requires
        b.len() == 8,
    ensures
        be8(from_be8(b)) == b,
{
    let (b0, b1, b2, b3, b4, b5, b6, b7) = (b[0], b[1], b[2], b[3], b[4], b[5], b[6], b[7]);
    let v = from_be8(b);
    assert(v == ((b0 as u64) << 56u64) | ((b1 as u64) << 48u64) | ((b2 as u64) << 40u64) | ((
    b3 as u64) << 32u64) | ((b4 as u64) << 24u64) | ((b5 as u64) << 16u64) | ((b6 as u64) << 8u64)
        | (b7 as u64));
    assert(v == ((b0 as u64) << 56u64) | ((b1 as u64) << 48u64) | ((b2 as u64) << 40u64) | ((
    b3 as u64) << 32u64) | ((b4 as u64) << 24u64) | ((b5 as u64) << 16u64) | ((b6 as u64) << 8u64)
        | (b7 as u64) ==> (v >> 56u64) as u8 == b0 && (v >> 48u64) as u8 == b1 && (v >> 40u64) as u8
        == b2 && (v >> 32u64) as u8 == b3 && (v >> 24u64) as u8 == b4 && (v >> 16u64) as u8 == b5 && (v
        >> 8u64) as u8 == b6 && v as u8 == b7) by (bit_vector);
    assert(be8(v) =~= b);
}

/// Reinterpreting a signed value as unsigned and back gives it back.
pub proof fn lemma_signed_casts(a: i8, b: i16, c: i32, d: i64)
    ensures
        (a as u8) as i8 == a,
        (b as u16) as i16 == b,
        (c as u32) as i32 == c,
        (d as u64) as i64 == d,
{
    assert((a as u8) as i8 == a) by (bit_vector);
    assert((b as u16) as i16 == b) by (bit_vector);
    assert((c as u32) as i32 == c) by (bit_vector);
    assert((d as u64) as i64 == d) by (bit_vector);
}

/// Appends the two big-endian bytes of `x` to `out`.
pub fn push_be2(out: &mut Vec<u8>, x: u16)
    ensures
        final(out)@ == old(out)@ + be2(x),
{
    out.push((x >> 8u16) as u8);
    out.push(x as u8);
    assert(final(out)@ =~= old(out)@ + be2(x));
}

/// Appends the four big-endian bytes of `x` to `out`.
pub fn push_be4(out: &mut Vec<u8>, x: u32)
    ensures
        final(out)@ == old(out)@ + be4(x),
{
    out.push((x >> 24u32) as u8);
    out.push((x >> 16u32) as u8);
    out.push((x >> 8u32) as u8);
    out.push(x as u8);
    assert(final(out)@ =~= old(out)@ + be4(x));
}

/// Appends the eight big-endian bytes of `x` to `out`.
pub fn push_be8(out: &mut Vec<u8>, x: u64)
    ensures
        final(out)@ == old(out)@ + be8(x),
{
    out.push((x >> 56u64) as u8);
    out.push((x >> 48u64) as u8);
    out.push((x >> 40u64) as u8);
    out.push((x >> 32u64) as u8);
    out.push((x >> 24u64) as u8);
    out.push((x >> 16u64) as u8);
    out.push((x >> 8u64) as u8);
    out.push(x as u8);
    assert(final(out)@ =~= old(out)@ + be8(x));
}

/// The 16-bit value stored big-endian in `b[at..at + 2]`.
pub fn get_be2(b: &[u8], at: usize) -> (r: u16)
    requires
        at + 2 <= b@.len(),
    ensures
        r == from_be2(b@.subrange(at as int, at + 2)),
{
    ((b[at] as u16) << 8u16) | (b[at + 1] as u16)
}

/// The 32-bit value stored big-endian in `b[at..at + 4]`.
pub fn get_be4(b: &[u8], at: usize) -> (r: u32)
    requires
        at + 4 <= b@.len(),
    ensures
        r == from_be4(b@.subrange(at as int, at + 4)),
{
    ((b[at] as u32) << 24u32) | ((b[at + 1] as u32) << 16u32) | ((b[at + 2] as u32) << 8u32) | (b[at
        + 3] as u32)
}

/// The 64-bit value stored big-endian in `b[at..at + 8]`.
pub fn get_be8(b: &[u8], at: usize) -> (r: u64)
    requires
        at + 8 <= b@.len(),
    ensures
        r == from_be8(b@.subrange(at as int, at + 8)),
{
    ((b[at] as u64) << 56u64) | ((b[at + 1] as u64) << 48u64) | ((b[at + 2] as u64) << 40u64) | ((
    b[at + 3] as u64) << 32u64) | ((b[at + 4] as u64) << 24u64) | ((b[at + 5] as u64) << 16u64) | ((
    b[at + 6] as u64) << 8u64) | (b[at + 7] as u64)
}

/// Appends all of `data` to `out`.
pub fn push_all(out: &mut Vec<u8>, data: &[u8])
    ensures
        final(out)@ == old(out)@ + data@,
{
    let mut i: usize = 0;
    while i < data.len()
        invariant
            i <= data@.len(),
            out@ == old(out)@ + data@.take(i as int),
        decreases data@.len() - i,
    {
        out.push(data[i]);
        i = i + 1;
        assert(out@ =~= old(out)@ + data@.take(i as int));
    }
    assert(data@.take(i as int) =~= data@);
}

} // verus!
