//! Byte-level helpers shared by the wire formats.
use vstd::prelude::*;

verus! {

/// The two big-endian bytes of a 16-bit value.
pub open spec fn be16_bytes(value: u16) -> Seq<u8> {
    seq![(value / 256) as u8, (value % 256) as u8]
}

/// The four big-endian bytes of a 32-bit value.
pub open spec fn be32_bytes(value: u32) -> Seq<u8> {
    seq![
        (value / 0x100_0000) as u8,
        ((value / 0x1_0000) % 256) as u8,
        ((value / 256) % 256) as u8,
        (value % 256) as u8,
    ]
}

/// The value of two bytes read in big-endian order.
pub open spec fn be16_value(hi: u8, lo: u8) -> u16 {
    (hi * 256 + lo) as u16
}

/// The value of two bytes read in little-endian order.
pub open spec fn le16_value(lo: u8, hi: u8) -> u16 {
    (hi * 256 + lo) as u16
}

/// The value of four bytes read in big-endian order.
pub open spec fn be32_value(b0: u8, b1: u8, b2: u8, b3: u8) -> u32 {
    (b0 * 0x100_0000 + b1 * 0x1_0000 + b2 * 256 + b3) as u32
}

/// The value of four bytes read in little-endian order.
pub open spec fn le32_value(b0: u8, b1: u8, b2: u8, b3: u8) -> u32 {
    be32_value(b3, b2, b1, b0)
}

/// Reads two bytes as a big-endian value.
pub fn read_be16(hi: u8, lo: u8) -> (value: u16)
    ensures
        value == be16_value(hi, lo),
        value as int == hi * 256 + lo,
{
    (hi as u16) * 256 + (lo as u16)
}

/// Reads two bytes as a little-endian value.
pub fn read_le16(lo: u8, hi: u8) -> (value: u16)
    ensures
        value == le16_value(lo, hi),
        value as int == hi * 256 + lo,
{
    (hi as u16) * 256 + (lo as u16)
}

/// Reads four bytes as a big-endian value.
pub fn read_be32(b0: u8, b1: u8, b2: u8, b3: u8) -> (value: u32)
    ensures
        value == be32_value(b0, b1, b2, b3),
        value as int == b0 * 0x100_0000 + b1 * 0x1_0000 + b2 * 256 + b3,
{
    (b0 as u32) * 0x100_0000 + (b1 as u32) * 0x1_0000 + (b2 as u32) * 256 + (b3 as u32)
}

/// Reads four bytes as a little-endian value.
pub fn read_le32(b0: u8, b1: u8, b2: u8, b3: u8) -> (value: u32)
    ensures
        value == le32_value(b0, b1, b2, b3),
        value as int == b3 * 0x100_0000 + b2 * 0x1_0000 + b1 * 256 + b0,
{
    read_be32(b3, b2, b1, b0)
}

/// Appends the big-endian bytes of a 16-bit value.
pub fn push_be16(out: &mut Vec<u8>, value: u16)
    ensures
        final(out)@ == old(out)@ + be16_bytes(value),
{
    out.push((value / 256) as u8);
    out.push((value % 256) as u8);
}

/// Appends the little-endian bytes of a 16-bit value.
pub fn push_le16(out: &mut Vec<u8>, value: u16)
    ensures
        final(out)@ == old(out)@ + seq![(value % 256) as u8, (value / 256) as u8],
{
    out.push((value % 256) as u8);
    out.push((value / 256) as u8);
}

/// Appends the big-endian bytes of a 32-bit value.
pub fn push_be32(out: &mut Vec<u8>, value: u32)
    ensures
        final(out)@ == old(out)@ + be32_bytes(value),
{
    out.push((value / 0x100_0000) as u8);
    out.push(((value / 0x1_0000) % 256) as u8);
    out.push(((value / 256) % 256) as u8);
    out.push((value % 256) as u8);
}

/// Appends the little-endian bytes of a 32-bit value.
pub fn push_le32(out: &mut Vec<u8>, value: u32)
    ensures
        final(out)@ == old(out)@ + seq![
            (value % 256) as u8,
            ((value / 256) % 256) as u8,
            ((value / 0x1_0000) % 256) as u8,
            (value / 0x100_0000) as u8,
        ],
{
    out.push((value % 256) as u8);
    out.push(((value / 256) % 256) as u8);
    out.push(((value / 0x1_0000) % 256) as u8);
    out.push((value / 0x100_0000) as u8);
}

/// Appends every byte of `src` to `out`.
pub fn extend_bytes(out: &mut Vec<u8>, src: &[u8])
    ensures
        final(out)@ == old(out)@ + src@,
{
    let mut i: usize = 0;
    while i < src.len()
        invariant
            i <= src@.len(),
            out@ == old(out)@ + src@.subrange(0, i as int),
        decreases src@.len() - i,
    {
        out.push(src[i]);
        i = i + 1;
        assert(out@ =~= old(out)@ + src@.subrange(0, i as int));
    }
    assert(src@.subrange(0, src@.len() as int) =~= src@);
}

/// Copies `src[start..end]` into a new vector.
pub fn copy_range(src: &[u8], start: usize, end: usize) -> (out: Vec<u8>)
    requires
        start <= end <= src@.len(),
    ensures
        out@ == src@.subrange(start as int, end as int),
{
    let mut out: Vec<u8> = Vec::with_capacity(end - start);
    let mut i: usize = start;
    while i < end
        invariant
            start <= i <= end <= src@.len(),
            out@ == src@.subrange(start as int, i as int),
        decreases end - i,
    {
        out.push(src[i]);
        i = i + 1;
        assert(out@ =~= src@.subrange(start as int, i as int));
    }
    out
}

/// Whether two byte slices hold the same bytes.
pub fn bytes_equal(a: &[u8], b: &[u8]) -> (same: bool)
    ensures
        same == (a@ == b@),
{
    if a.len() != b.len() {
        return false;
    }
    let mut i: usize = 0;
    while i < a.len()
        invariant
            a@.len() == b@.len(),
            i <= a@.len(),
            forall|j: int| 0 <= j < i ==> a@[j] == b@[j],
        decreases a@.len() - i,
    {
        if a[i] != b[i] {
            return false;
        }
        i = i + 1;
    }
    assert(a@ =~= b@);
    true
}

} // verus!
