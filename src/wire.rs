//! Byte-level helpers: little-endian integers, byte runs and namespaces.

use vstd::prelude::*;
use byteorder::{ByteOrder, LittleEndian, WriteBytesExt};

verus! {

/// The four little-endian bytes of a 32-bit integer.
pub open spec fn le32(v: i32) -> Seq<u8> {
    seq![
        (v & 0xff) as u8,
        ((v >> 8u32) & 0xff) as u8,
        ((v >> 16u32) & 0xff) as u8,
        ((v >> 24u32) & 0xff) as u8,
    ]
}

/// The eight little-endian bytes of a 64-bit integer.
pub open spec fn le64(v: i64) -> Seq<u8> {
    seq![
        (v & 0xff) as u8,
        ((v >> 8u64) & 0xff) as u8,
        ((v >> 16u64) & 0xff) as u8,
        ((v >> 24u64) & 0xff) as u8,
        ((v >> 32u64) & 0xff) as u8,
        ((v >> 40u64) & 0xff) as u8,
        ((v >> 48u64) & 0xff) as u8,
        ((v >> 56u64) & 0xff) as u8,
    ]
}

/// Two integers with the same four little-endian bytes are equal.
pub proof fn lemma_le32_injective(a: i32, b: i32)
    requires
        le32(a) == le32(b),
    ensures
        a == b,
{
    assert(le32(a)[0] == le32(b)[0]);
    assert(le32(a)[1] == le32(b)[1]);
    assert(le32(a)[2] == le32(b)[2]);
    assert(le32(a)[3] == le32(b)[3]);
    assert(((a & 0xff) as u8 == (b & 0xff) as u8 && ((a >> 8u32) & 0xff) as u8 == ((b >> 8u32)
        & 0xff) as u8 && ((a >> 16u32) & 0xff) as u8 == ((b >> 16u32) & 0xff) as u8 && ((a
        >> 24u32) & 0xff) as u8 == ((b >> 24u32) & 0xff) as u8) ==> a == b) by (bit_vector);
}

/// Whether a byte sequence holds a zero byte.
pub open spec fn has_nul(b: Seq<u8>) -> bool {
    exists|i: int| 0 <= i < b.len() && b[i] == 0u8
}

/// Relies on byteorder's `WriteBytesExt::write_i32::<LittleEndian>`: appends the
/// four little-endian bytes of `v`; a write into a `Vec` does not fail.
#[verifier::external_body]
pub(crate) fn push_i32(buf: &mut Vec<u8>, v: i32)
    ensures
        final(buf)@ == old(buf)@ + le32(v),
{
    let _ = buf.write_i32::<LittleEndian>(v);
}

/// Relies on byteorder's `WriteBytesExt::write_i64::<LittleEndian>`: appends the
/// eight little-endian bytes of `v`; a write into a `Vec` does not fail.
#[verifier::external_body]
pub(crate) fn push_i64(buf: &mut Vec<u8>, v: i64)
    ensures
        final(buf)@ == old(buf)@ + le64(v),
{
    let _ = buf.write_i64::<LittleEndian>(v);
}

/// Relies on byteorder's `LittleEndian::read_i32`: the integer whose little-endian
/// bytes are the first four of the slice (it panics on fewer than four).
#[verifier::external_body]
pub(crate) fn read_i32_at(b: &[u8], pos: usize) -> (r: i32)
    requires
        pos + 4 <= b@.len(),
    ensures
        le32(r) == b@.subrange(pos as int, pos + 4),
{
    LittleEndian::read_i32(&b[pos..])
}

/// Relies on byteorder's `LittleEndian::read_i64`: the integer whose little-endian
/// bytes are the first eight of the slice (it panics on fewer than eight).
#[verifier::external_body]
pub(crate) fn read_i64_at(b: &[u8], pos: usize) -> (r: i64)
    requires
        pos + 8 <= b@.len(),
    ensures
        le64(r) == b@.subrange(pos as int, pos + 8),
{
    LittleEndian::read_i64(&b[pos..])
}

/// Appends `src` to `buf`.
pub fn append_bytes(buf: &mut Vec<u8>, src: &[u8])
    ensures
        final(buf)@ == old(buf)@ + src@,
{
    let mut i: usize = 0;
    while i < src.len()
        invariant
            i <= src@.len(),
            buf@ == old(buf)@ + src@.subrange(0, i as int),
        decreases src@.len() - i,
    {
        buf.push(src[i]);
        i = i + 1;
        assert(src@.subrange(0, i as int) == src@.subrange(0, i - 1) + seq![src@[i - 1]]);
    }
    assert(src@.subrange(0, src@.len() as int) == src@);
}

/// Whether `b` holds a zero byte.
pub fn contains_nul(b: &[u8]) -> (r: bool)
    ensures
        r == has_nul(b@),
{
    let mut i: usize = 0;
    while i < b.len()
        invariant
            i <= b@.len(),
            forall|j: int| 0 <= j < i ==> b@[j] != 0u8,
        decreases b@.len() - i,
    {
        if b[i] == 0u8 {
            return true;
        }
        i = i + 1;
    }
    false
}

/// The largest frame length the 32-bit length field can hold.
pub const MAX_FRAME: usize = 0x7fff_ffff;

/// `total + n`, where that sum still fits a frame's length field.
pub fn add_len(total: usize, n: usize) -> (r: Option<usize>)
    requires
        total <= MAX_FRAME,
    ensures
        r is Some <==> total + n <= MAX_FRAME,
        r matches Some(t) ==> t == total + n,
{
    if n > MAX_FRAME - total {
        None
    } else {
        Some(total + n)
    }
}

} // verus!
