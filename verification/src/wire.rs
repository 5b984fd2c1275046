//! Little-endian integer encoding and decoding over byte sequences.
use vstd::prelude::*;

verus! {

/// The unsigned 16-bit little-endian value stored at `p`.
pub open spec fn le16(s: Seq<u8>, p: int) -> int {
    s[p] as int + s[p + 1] as int * 0x100
}

/// The unsigned 32-bit little-endian value stored at `p`.
pub open spec fn le32(s: Seq<u8>, p: int) -> int {
    le16(s, p) + le16(s, p + 2) * 0x10000
}

/// The unsigned 64-bit little-endian value stored at `p`.
pub open spec fn le64(s: Seq<u8>, p: int) -> int {
    le32(s, p) + le32(s, p + 4) * 0x1_0000_0000
}

/// The two little-endian bytes of `x`.
pub open spec fn bytes16(x: int) -> Seq<u8> {
    seq![(x % 0x100) as u8, ((x / 0x100) % 0x100) as u8]
}

/// The four little-endian bytes of `x`.
pub open spec fn bytes32(x: int) -> Seq<u8> {
    bytes16(x % 0x10000) + bytes16((x / 0x10000) % 0x10000)
}

/// The eight little-endian bytes of `x`.
pub open spec fn bytes64(x: int) -> Seq<u8> {
    bytes32(x % 0x1_0000_0000) + bytes32((x / 0x1_0000_0000) % 0x1_0000_0000)
}

/// Reads the little-endian `u16` at `p`.
pub fn read_u16(b: &[u8], p: usize) -> (r: u16)
    requires
        p + 2 <= b@.len(),
    ensures
        r as int == le16(b@, p as int),
{
    b[p] as u16 + (b[p + 1] as u16) * 0x100
}

/// Reads the little-endian `u32` at `p`.
pub fn read_u32(b: &[u8], p: usize) -> (r: u32)
    requires
        p + 4 <= b@.len(),
    ensures
        r as int == le32(b@, p as int),
{
    let _n = b.len();
    read_u16(b, p) as u32 + (read_u16(b, p + 2) as u32) * 0x10000
}

/// Reads the little-endian `u64` at `p`.
pub fn read_u64(b: &[u8], p: usize) -> (r: u64)
    requires
        p + 8 <= b@.len(),
    ensures
        r as int == le64(b@, p as int),
{
    let _n = b.len();
    read_u32(b, p) as u64 + (read_u32(b, p + 4) as u64) * 0x1_0000_0000
}

/// Appends the little-endian bytes of `x`.
pub fn push_u16(v: &mut Vec<u8>, x: u16)
    ensures
        final(v)@ == old(v)@ + bytes16(x as int),
{
    v.push((x % 0x100) as u8);
    v.push(((x / 0x100) % 0x100) as u8);
}

/// Appends the little-endian bytes of `x`.
pub fn push_u32(v: &mut Vec<u8>, x: u32)
    ensures
        final(v)@ == old(v)@ + bytes32(x as int),
{
    push_u16(v, (x % 0x10000) as u16);
    push_u16(v, ((x / 0x10000) % 0x10000) as u16);
}

/// Appends the little-endian bytes of `x`.
pub fn push_u64(v: &mut Vec<u8>, x: u64)
    ensures
        final(v)@ == old(v)@ + bytes64(x as int),
{
    push_u32(v, (x % 0x1_0000_0000) as u32);
    push_u32(v, ((x / 0x1_0000_0000) % 0x1_0000_0000) as u32);
}


/// Decoding what was encoded gives the value back (16 bits).
pub proof fn lemma_le16_bytes16(x: int)
    requires
        0 <= x < 0x10000,
    ensures
        bytes16(x).len() == 2,
        le16(bytes16(x), 0) == x,
{
}

/// Decoding what was encoded gives the value back (32 bits).
pub proof fn lemma_le32_bytes32(x: int)
    requires
        0 <= x < 0x1_0000_0000,
    ensures
        bytes32(x).len() == 4,
        le32(bytes32(x), 0) == x,
{
    lemma_le16_bytes16(x % 0x10000);
    lemma_le16_bytes16((x / 0x10000) % 0x10000);
    assert(le16(bytes32(x), 2) == le16(bytes16((x / 0x10000) % 0x10000), 0));
}

/// Decoding what was encoded gives the value back (64 bits).
pub proof fn lemma_le64_bytes64(x: int)
    requires
        0 <= x < 0x1_0000_0000_0000_0000,
    ensures
        bytes64(x).len() == 8,
        le64(bytes64(x), 0) == x,
{
    lemma_le32_bytes32(x % 0x1_0000_0000);
    lemma_le32_bytes32((x / 0x1_0000_0000) % 0x1_0000_0000);
    let a = bytes32(x % 0x1_0000_0000);
    let b = bytes32((x / 0x1_0000_0000) % 0x1_0000_0000);
    assert(le16(a + b, 4) == le16(b, 0));
    assert(le16(a + b, 6) == le16(b, 2));
    assert(le16(a + b, 0) == le16(a, 0));
    assert(le16(a + b, 2) == le16(a, 2));
}

/// A read inside a part of a sequence reads that part.
pub proof fn lemma_le_in_middle(a: Seq<u8>, b: Seq<u8>, c: Seq<u8>, p: int)
    requires
        0 <= p && p + 8 <= b.len(),
    ensures
        le16(a + b + c, a.len() + p) == le16(b, p),
        le32(a + b + c, a.len() + p) == le32(b, p),
        le64(a + b + c, a.len() + p) == le64(b, p),
{
    let s = a + b + c;
    assert(s[a.len() + p + 0] == b[p + 0]);
    assert(s[a.len() + p + 1] == b[p + 1]);
    assert(s[a.len() + p + 2] == b[p + 2]);
    assert(s[a.len() + p + 3] == b[p + 3]);
    assert(s[a.len() + p + 4] == b[p + 4]);
    assert(s[a.len() + p + 5] == b[p + 5]);
    assert(s[a.len() + p + 6] == b[p + 6]);
    assert(s[a.len() + p + 7] == b[p + 7]);
}

/// A 16- or 32-bit read inside a part of a sequence reads that part.
pub proof fn lemma_le32_in_middle(a: Seq<u8>, b: Seq<u8>, c: Seq<u8>, p: int)
    requires
        0 <= p && p + 4 <= b.len(),
    ensures
        le16(a + b + c, a.len() + p) == le16(b, p),
        le32(a + b + c, a.len() + p) == le32(b, p),
{
    let s = a + b + c;
    assert(s[a.len() + p + 0] == b[p + 0]);
    assert(s[a.len() + p + 1] == b[p + 1]);
    assert(s[a.len() + p + 2] == b[p + 2]);
    assert(s[a.len() + p + 3] == b[p + 3]);
}

} // verus!
