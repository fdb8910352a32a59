//! Little-endian integers in byte buffers.
use vstd::prelude::*;

verus! {

/// Little-endian 16-bit value at `o`.
#[verifier::opaque]
pub open spec fn le16(d: Seq<u8>, o: int) -> u16 {
    (d[o] as u16) | ((d[o + 1] as u16) << 8u16)
}

/// Little-endian 32-bit value at `o`.
#[verifier::opaque]
pub open spec fn le32(d: Seq<u8>, o: int) -> u32 {
    (le16(d, o) as u32) | ((le16(d, o + 2) as u32) << 16u32)
}

/// Little-endian 64-bit value at `o`.
#[verifier::opaque]
pub open spec fn le64(d: Seq<u8>, o: int) -> u64 {
    (le32(d, o) as u64) | ((le32(d, o + 4) as u64) << 32u64)
}

pub fn read16(d: &[u8], o: usize) -> (r: u16)
    requires
        o + 2 <= d@.len(),
    ensures
        r == le16(d@, o as int),
{
    reveal(le16);
    (d[o] as u16) | ((d[o + 1] as u16) << 8)
}

pub fn read32(d: &[u8], o: usize) -> (r: u32)
    requires
        o + 4 <= d@.len(),
    ensures
        r == le32(d@, o as int),
{
    reveal(le32);
    let _n = d.len();
    (read16(d, o) as u32) | ((read16(d, o + 2) as u32) << 16)
}

pub fn read64(d: &[u8], o: usize) -> (r: u64)
    requires
        o + 8 <= d@.len(),
    ensures
        r == le64(d@, o as int),
{
    reveal(le64);
    let _n = d.len();
    (read32(d, o) as u64) | ((read32(d, o + 4) as u64) << 32)
}

/// `d` with the 16-bit value `v` written little-endian at `o`.
pub open spec fn put16_spec(d: Seq<u8>, o: int, v: u16) -> Seq<u8> {
    d.update(o, (v & 0xFF) as u8).update(o + 1, (v >> 8u16) as u8)
}

/// `d` with the 32-bit value `v` written little-endian at `o`.
pub open spec fn put32_spec(d: Seq<u8>, o: int, v: u32) -> Seq<u8> {
    put16_spec(put16_spec(d, o, (v & 0xFFFF) as u16), o + 2, (v >> 16u32) as u16)
}

/// Write `v` little-endian at `o`.
pub fn write16(d: &mut Vec<u8>, o: usize, v: u16)
    requires
        o + 2 <= old(d)@.len(),
    ensures
        final(d)@ == put16_spec(old(d)@, o as int, v),
        le16(final(d)@, o as int) == v,
{
    let _n = d.len();
    d.set(o, (v & 0xFF) as u8);
    d.set(o + 1, (v >> 8) as u8);
    proof {
        reveal(le16);
        let lo = (v & 0xFF) as u8;
        let hi = (v >> 8u16) as u8;
        assert(d@[o as int] == lo);
        assert(d@[o + 1] == hi);
        assert(((lo as u16) | ((hi as u16) << 8u16)) == v) by (bit_vector)
            requires
                lo == (v & 0xFF) as u8,
                hi == (v >> 8u16) as u8,
        ;
    }
}

/// Write `v` little-endian at `o`.
pub fn write32(d: &mut Vec<u8>, o: usize, v: u32)
    requires
        o + 4 <= old(d)@.len(),
    ensures
        final(d)@ == put32_spec(old(d)@, o as int, v),
        le32(final(d)@, o as int) == v,
{
    let _n = d.len();
    write16(d, o, (v & 0xFFFF) as u16);
    let ghost mid = d@;
    write16(d, o + 2, (v >> 16) as u16);
    proof {
        reveal(le32);
        reveal(le16);
        let lo = (v & 0xFFFF) as u16;
        let hi = (v >> 16u32) as u16;
        assert(le16(d@, o as int) == le16(mid, o as int));
        assert(((lo as u32) | ((hi as u32) << 16u32)) == v) by (bit_vector)
            requires
                lo == (v & 0xFFFF) as u16,
                hi == (v >> 16u32) as u16,
        ;
    }
}

/// Byte `j` (0 or 1) of a 16-bit value, little-endian.
pub open spec fn byte16(v: u16, j: int) -> u8 {
    if j == 0 { (v & 0xFF) as u8 } else { (v >> 8u16) as u8 }
}

/// Byte `j` (0 to 3) of a 32-bit value, little-endian.
pub open spec fn byte32(v: u32, j: int) -> u8 {
    if j == 0 {
        (v & 0xFF) as u8
    } else if j == 1 {
        ((v >> 8u32) & 0xFF) as u8
    } else if j == 2 {
        ((v >> 16u32) & 0xFF) as u8
    } else {
        (v >> 24u32) as u8
    }
}

pub fn byte16_exec(v: u16, j: usize) -> (b: u8)
    requires
        j < 2,
    ensures
        b == byte16(v, j as int),
{
    if j == 0 { (v & 0xFF) as u8 } else { (v >> 8) as u8 }
}

pub fn byte32_exec(v: u32, j: usize) -> (b: u8)
    requires
        j < 4,
    ensures
        b == byte32(v, j as int),
{
    if j == 0 {
        (v & 0xFF) as u8
    } else if j == 1 {
        ((v >> 8) & 0xFF) as u8
    } else if j == 2 {
        ((v >> 16) & 0xFF) as u8
    } else {
        (v >> 24) as u8
    }
}

/// Bytes laid out by `byte16` read back as the value.
pub proof fn lemma_le16_bytes(d: Seq<u8>, o: int, v: u16)
    requires
        0 <= o,
        o + 2 <= d.len(),
        d[o] == byte16(v, 0),
        d[o + 1] == byte16(v, 1),
    ensures
        le16(d, o) == v,
{
    reveal(le16);
    let b0 = d[o];
    let b1 = d[o + 1];
    assert(((b0 as u16) | ((b1 as u16) << 8u16)) == v) by (bit_vector)
        requires
            b0 == (v & 0xFF) as u8,
            b1 == (v >> 8u16) as u8,
    ;
}

/// Bytes laid out by `byte32` read back as the value.
pub proof fn lemma_le32_bytes(d: Seq<u8>, o: int, v: u32)
    requires
        0 <= o,
        o + 4 <= d.len(),
        d[o] == byte32(v, 0),
        d[o + 1] == byte32(v, 1),
        d[o + 2] == byte32(v, 2),
        d[o + 3] == byte32(v, 3),
    ensures
        le32(d, o) == v,
{
    reveal(le32);
    reveal(le16);
    let b0 = d[o];
    let b1 = d[o + 1];
    let b2 = d[o + 2];
    let b3 = d[o + 3];
    assert(((((b0 as u16) | ((b1 as u16) << 8u16)) as u32) | ((((b2 as u16) | ((b3 as u16) << 8u16)) as u32) << 16u32)) == v) by (bit_vector)
        requires
            b0 == (v & 0xFF) as u8,
            b1 == ((v >> 8u32) & 0xFF) as u8,
            b2 == ((v >> 16u32) & 0xFF) as u8,
            b3 == (v >> 24u32) as u8,
    ;
}

/// A 16-bit value read where two buffers agree.
pub proof fn lemma_le16_frame(a: Seq<u8>, b: Seq<u8>, o: int)
    requires
        0 <= o,
        o + 2 <= a.len(),
        o + 2 <= b.len(),
        a[o] == b[o],
        a[o + 1] == b[o + 1],
    ensures
        le16(b, o) == le16(a, o),
{
    reveal(le16);
}

/// A 32-bit value read where two buffers agree.
pub proof fn lemma_le32_frame(a: Seq<u8>, b: Seq<u8>, o: int)
    requires
        0 <= o,
        o + 4 <= a.len(),
        o + 4 <= b.len(),
        a[o] == b[o],
        a[o + 1] == b[o + 1],
        a[o + 2] == b[o + 2],
        a[o + 3] == b[o + 3],
    ensures
        le32(b, o) == le32(a, o),
{
    reveal(le16);
    reveal(le32);
}

} // verus!
