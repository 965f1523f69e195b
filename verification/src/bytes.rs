//! Fixed-endianness integer reads from a byte buffer.
//!
//! All multi-byte fields of the on-disk format are decoded with these
//! little-endian readers; each reader's result is pinned exactly by an open
//! spec function over the byte sequence.
use vstd::prelude::*;

verus! {

/// The 16-bit little-endian integer stored at byte offset `i` of `b`.
pub open spec fn le16(b: Seq<u8>, i: int) -> u16
    recommends
        0 <= i,
        i + 2 <= b.len(),
{
    (b[i] + 0x100 * b[i + 1]) as u16
}

/// The 32-bit little-endian integer stored at byte offset `i` of `b`.
pub open spec fn le32(b: Seq<u8>, i: int) -> u32
    recommends
        0 <= i,
        i + 4 <= b.len(),
{
    (b[i] + 0x100 * b[i + 1] + 0x1_0000 * b[i + 2] + 0x100_0000 * b[i + 3]) as u32
}

/// The 64-bit little-endian integer stored at byte offset `i` of `b`.
pub open spec fn le64(b: Seq<u8>, i: int) -> u64
    recommends
        0 <= i,
        i + 8 <= b.len(),
{
    (b[i] + 0x100 * b[i + 1] + 0x1_0000 * b[i + 2] + 0x100_0000 * b[i + 3] + 0x1_0000_0000 * b[i
        + 4] + 0x100_0000_0000 * b[i + 5] + 0x1_0000_0000_0000 * b[i + 6] + 0x100_0000_0000_0000
        * b[i + 7]) as u64
}

/// Compares two byte slices for equality.
pub fn bytes_eq(a: &[u8], b: &[u8]) -> (r: bool)
    ensures
        r == (a@ == b@),
{
    let n = a.len();
    if n != b.len() {
        proof {
            assert(a@ != b@);
        }
        return false;
    }
    let mut i: usize = 0;
    while i < n
        invariant
            n == a@.len() == b@.len(),
            i <= n,
            forall|j: int| 0 <= j < i ==> a@[j] == b@[j],
        decreases n - i,
    {
        if a[i] != b[i] {
            proof {
                assert(a@ != b@);
            }
            return false;
        }
        i = i + 1;
    }
    proof {
        assert(a@ =~= b@);
    }
    true
}

/// Reads the 16-bit little-endian integer at byte offset `i` of `b`.
pub fn read_u16(b: &[u8], i: usize) -> (r: u16)
    requires
        i + 2 <= b@.len(),
    ensures
        r == le16(b@, i as int),
{
    b[i] as u16 + 0x100u16 * (b[i + 1] as u16)
}

/// Reads the 32-bit little-endian integer at byte offset `i` of `b`.
pub fn read_u32(b: &[u8], i: usize) -> (r: u32)
    requires
        i + 4 <= b@.len(),
    ensures
        r == le32(b@, i as int),
{
    b[i] as u32 + 0x100u32 * (b[i + 1] as u32) + 0x1_0000u32 * (b[i + 2] as u32) + 0x100_0000u32
        * (b[i + 3] as u32)
}

/// Reads the 64-bit little-endian integer at byte offset `i` of `b`.
pub fn read_u64(b: &[u8], i: usize) -> (r: u64)
    requires
        i + 8 <= b@.len(),
    ensures
        r == le64(b@, i as int),
{
    b[i] as u64 + 0x100u64 * (b[i + 1] as u64) + 0x1_0000u64 * (b[i + 2] as u64) + 0x100_0000u64
        * (b[i + 3] as u64) + 0x1_0000_0000u64 * (b[i + 4] as u64) + 0x100_0000_0000u64 * (b[i
        + 5] as u64) + 0x1_0000_0000_0000u64 * (b[i + 6] as u64) + 0x100_0000_0000_0000u64 * (b[i
        + 7] as u64)
}

} // verus!
