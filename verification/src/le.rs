//! Little-endian field readers shared by every fixed-binary parser.
use vstd::prelude::*;

verus! {

/// Unsigned little-endian value of `b[off..off+2]`.
pub open spec fn le16(b: Seq<u8>, off: int) -> int {
    b[off] + b[off + 1] * 256
}

/// Unsigned little-endian value of `b[off..off+4]`.
pub open spec fn le32(b: Seq<u8>, off: int) -> int {
    le16(b, off) + le16(b, off + 2) * 65536
}

/// Unsigned little-endian value of `b[off..off+8]`.
pub open spec fn le64(b: Seq<u8>, off: int) -> int {
    le32(b, off) + le32(b, off + 4) * 0x1_0000_0000
}

pub fn u16le(b: &[u8], off: usize) -> (r: u16)
    requires
        off + 2 <= b.len(),
    ensures
        r == le16(b@, off as int),
{
    b[off] as u16 + (b[off + 1] as u16) * 256
}

pub fn u32le(b: &[u8], off: usize) -> (r: u32)
    requires
        off + 4 <= b.len(),
    ensures
        r == le32(b@, off as int),
{
    let lo = u16le(b, off);
    let hi = u16le(b, off + 2);
    lo as u32 + (hi as u32) * 65536
}

pub fn u64le(b: &[u8], off: usize) -> (r: u64)
    requires
        off + 8 <= b.len(),
    ensures
        r == le64(b@, off as int),
{
    let lo = u32le(b, off);
    let hi = u32le(b, off + 4);
    lo as u64 + (hi as u64) * 0x1_0000_0000
}

/// Two's-complement reinterpretation of a little-endian `u32` field.
pub fn i32le(b: &[u8], off: usize) -> (r: i32)
    requires
        off + 4 <= b.len(),
    ensures
        r == (le32(b@, off as int) as u32) as i32,
{
    let v = u32le(b, off);
    v as i32
}

/// Little-endian bytes of `x`.
pub fn u64_to_le(x: u64) -> (b: [u8; 8])
    ensures
        b@.len() == 8,
        le64(b@, 0) == x,
{
    let b0 = (x % 256) as u8;
    let x1 = x / 256;
    let b1 = (x1 % 256) as u8;
    let x2 = x1 / 256;
    let b2 = (x2 % 256) as u8;
    let x3 = x2 / 256;
    let b3 = (x3 % 256) as u8;
    let x4 = x3 / 256;
    let b4 = (x4 % 256) as u8;
    let x5 = x4 / 256;
    let b5 = (x5 % 256) as u8;
    let x6 = x5 / 256;
    let b6 = (x6 % 256) as u8;
    let x7 = x6 / 256;
    let b7 = (x7 % 256) as u8;
    assert(x7 < 256) by (nonlinear_arith)
        requires x1 == x / 256, x2 == x1 / 256, x3 == x2 / 256, x4 == x3 / 256, x5 == x4 / 256,
            x6 == x5 / 256, x7 == x6 / 256, x <= u64::MAX;
    let b = [b0, b1, b2, b3, b4, b5, b6, b7];
    proof {
        broadcast use vstd::array::group_array_axioms;
        assert(b@[0] == b0 && b@[1] == b1 && b@[2] == b2 && b@[3] == b3);
        assert(b@[4] == b4 && b@[5] == b5 && b@[6] == b6 && b@[7] == b7);
        assert(le64(b@, 0) == b0 + b1 * 256 + b2 * 65536 + b3 * 16777216
            + (b4 + b5 * 256 + b6 * 65536 + b7 * 16777216) * 0x1_0000_0000);
        assert(x6 == b6 + 256 * x7);
        assert(x5 == b5 + 256 * x6);
        assert(x4 == b4 + 256 * x5);
        assert(x3 == b3 + 256 * x4);
        assert(x2 == b2 + 256 * x3);
        assert(x1 == b1 + 256 * x2);
        assert(x == b0 + 256 * x1);
    }
    b
}

/// Eight bytes of `b` at `off` equal to `le` carry the same value.
pub proof fn lemma_le64_of_bytes(b: Seq<u8>, off: int, le: Seq<u8>, x: u64)
    requires
        0 <= off,
        off + 8 <= b.len(),
        le.len() == 8,
        b.subrange(off, off + 8) == le,
        le64(le, 0) == x,
    ensures
        le64(b, off) == x,
{
    assert forall|k: int| 0 <= k < 8 implies b[off + k] == le[k] by {
        assert(b.subrange(off, off + 8)[k] == b[off + k]);
    }
}

/// Little-endian bytes of `x`.
pub fn u32_to_le(x: u32) -> (b: [u8; 4])
    ensures
        b@.len() == 4,
        le32(b@, 0) == x,
{
    let b0 = (x % 256) as u8;
    let x1 = x / 256;
    let b1 = (x1 % 256) as u8;
    let x2 = x1 / 256;
    let b2 = (x2 % 256) as u8;
    let x3 = x2 / 256;
    let b3 = (x3 % 256) as u8;
    assert(x3 < 256) by (nonlinear_arith)
        requires x1 == x / 256, x2 == x1 / 256, x3 == x2 / 256, x <= u32::MAX;
    let b = [b0, b1, b2, b3];
    proof {
        broadcast use vstd::array::group_array_axioms;
        assert(b@[0] == b0 && b@[1] == b1 && b@[2] == b2 && b@[3] == b3);
        assert(x2 == b2 + 256 * x3);
        assert(x1 == b1 + 256 * x2);
        assert(x == b0 + 256 * x1);
    }
    b
}

/// Little-endian bytes of `x`.
pub fn u16_to_le(x: u16) -> (b: [u8; 2])
    ensures
        b@.len() == 2,
        le16(b@, 0) == x,
{
    let b = [(x % 256) as u8, (x / 256) as u8];
    proof {
        broadcast use vstd::array::group_array_axioms;
    }
    b
}

} // verus!
