//! Big- and little-endian integer encodings shared by the wire formats.
use vstd::prelude::*;

verus! {

/// How far a walk at `i` is from `end`: a measure for walks over buffers.
pub open spec fn steps_left(i: int, end: int) -> nat {
    if i < end { (end - i) as nat } else { 0 }
}

/// The big-endian 16-bit value stored at `s[i..i + 2]`.
pub open spec fn be16_at(s: Seq<u8>, i: int) -> int {
    s[i] as int * 256 + s[i + 1] as int
}

/// The big-endian 32-bit value stored at `s[i..i + 4]`.
pub open spec fn be32_at(s: Seq<u8>, i: int) -> int {
    s[i] as int * 16777216 + s[i + 1] as int * 65536 + s[i + 2] as int * 256 + s[i + 3] as int
}

/// The little-endian 32-bit value stored at `s[i..i + 4]`.
pub open spec fn le32_at(s: Seq<u8>, i: int) -> int {
    s[i + 3] as int * 16777216 + s[i + 2] as int * 65536 + s[i + 1] as int * 256 + s[i] as int
}

/// Big-endian bytes of a 16-bit value.
pub open spec fn be16_bytes(v: u16) -> Seq<u8> {
    seq![(v / 256) as u8, (v % 256) as u8]
}

/// Big-endian bytes of a 32-bit value.
pub open spec fn be32_bytes(v: u32) -> Seq<u8> {
    seq![(v / 16777216) as u8, (v / 65536 % 256) as u8, (v / 256 % 256) as u8, (v % 256) as u8]
}

/// Little-endian bytes of a 32-bit value.
pub open spec fn le32_bytes(v: u32) -> Seq<u8> {
    seq![(v % 256) as u8, (v / 256 % 256) as u8, (v / 65536 % 256) as u8, (v / 16777216) as u8]
}

pub fn read_be16(s: &[u8], i: usize) -> (r: u16)
    requires
        i + 2 <= s@.len(),
    ensures
        r == be16_at(s@, i as int),
{
    (s[i] as u16) * 256 + (s[i + 1] as u16)
}

pub fn read_be32(s: &[u8], i: usize) -> (r: u32)
    requires
        i + 4 <= s@.len(),
    ensures
        r == be32_at(s@, i as int),
{
    (s[i] as u32) * 16777216 + (s[i + 1] as u32) * 65536 + (s[i + 2] as u32) * 256 + (s[i + 3] as u32)
}

pub fn read_le32(s: &[u8], i: usize) -> (r: u32)
    requires
        i + 4 <= s@.len(),
    ensures
        r == le32_at(s@, i as int),
{
    (s[i] as u32) + (s[i + 1] as u32) * 256 + (s[i + 2] as u32) * 65536 + (s[i + 3] as u32) * 16777216
}

pub fn push_be16(buffer: &mut Vec<u8>, v: u16)
    ensures
        final(buffer)@ == old(buffer)@ + be16_bytes(v),
{
    buffer.push((v / 256) as u8);
    buffer.push((v % 256) as u8);
}

pub fn push_be32(buffer: &mut Vec<u8>, v: u32)
    ensures
        final(buffer)@ == old(buffer)@ + be32_bytes(v),
{
    buffer.push((v / 16777216) as u8);
    buffer.push((v / 65536 % 256) as u8);
    buffer.push((v / 256 % 256) as u8);
    buffer.push((v % 256) as u8);
}

pub fn push_le32(buffer: &mut Vec<u8>, v: u32)
    ensures
        final(buffer)@ == old(buffer)@ + le32_bytes(v),
{
    buffer.push((v % 256) as u8);
    buffer.push((v / 256 % 256) as u8);
    buffer.push((v / 65536 % 256) as u8);
    buffer.push((v / 16777216) as u8);
}

/// Reading back what `be16_bytes` wrote gives the value.
pub proof fn lemma_be16_roundtrip(v: u16)
    ensures
        be16_at(be16_bytes(v), 0) == v,
{
}

/// Reading back what `be32_bytes` wrote gives the value.
pub proof fn lemma_be32_roundtrip(v: u32)
    ensures
        be32_at(be32_bytes(v), 0) == v,
{
}

/// Reading back what `le32_bytes` wrote gives the value.
pub proof fn lemma_le32_roundtrip(v: u32)
    ensures
        le32_at(le32_bytes(v), 0) == v,
{
}

} // verus!
