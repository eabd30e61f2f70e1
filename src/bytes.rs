//! Little-endian integer reads and alignment over byte buffers.

use vstd::prelude::*;

verus! {

/// The 16-bit little-endian integer stored at `b[i..i + 2]`.
pub open spec fn le16(b: Seq<u8>, i: int) -> int {
    b[i] as int + b[i + 1] as int * 256
}

/// The 32-bit little-endian integer stored at `b[i..i + 4]`.
pub open spec fn le32(b: Seq<u8>, i: int) -> int {
    le16(b, i) + le16(b, i + 2) * 65536
}

/// The 64-bit little-endian integer stored at `b[i..i + 8]`.
pub open spec fn le64(b: Seq<u8>, i: int) -> int {
    le32(b, i) + le32(b, i + 4) * 4294967296
}

/// `n` rounded up to the next multiple of four.
pub open spec fn align4(n: int) -> int {
    (n + 3) / 4 * 4
}

/// The byte at `b[i]`.
pub fn read_u8(b: &[u8], i: usize) -> (r: u8)
    requires
        i < b@.len(),
    ensures
        r == b@[i as int],
{
    b[i]
}

/// The little-endian `u16` at `b[i..i + 2]`.
pub fn read_u16(b: &[u8], i: usize) -> (r: u16)
    requires
        i + 2 <= b@.len(),
    ensures
        r as int == le16(b@, i as int),
{
    b[i] as u16 + (b[i + 1] as u16) * 256
}

/// The little-endian `u32` at `b[i..i + 4]`.
pub fn read_u32(b: &[u8], i: usize) -> (r: u32)
    requires
        i + 4 <= b@.len(),
    ensures
        r as int == le32(b@, i as int),
{
    let len = b.len();
    assert(i + 2 < len);
    let lo = read_u16(b, i);
    let hi = read_u16(b, i + 2);
    lo as u32 + (hi as u32) * 65536
}

/// The little-endian `u64` at `b[i..i + 8]`.
pub fn read_u64(b: &[u8], i: usize) -> (r: u64)
    requires
        i + 8 <= b@.len(),
    ensures
        r as int == le64(b@, i as int),
{
    let len = b.len();
    assert(i + 4 < len);
    let lo = read_u32(b, i);
    let hi = read_u32(b, i + 4);
    lo as u64 + (hi as u64) * 4294967296
}

/// Copies `N` bytes starting at `b[i]` into an array.
pub fn read_array<const N: usize>(b: &[u8], i: usize) -> (r: [u8; N])
    requires
        i + N <= b@.len(),
    ensures
        r@ == b@.subrange(i as int, i + N),
{
    let n = b.len();
    let mut r: [u8; N] = [0u8; N];
    let mut k: usize = 0;
    while k < N
        invariant
            k <= N,
            i + N <= b@.len(),
            n == b@.len(),
            r@.len() == N,
            forall|m: int| 0 <= m < k ==> r@[m] == b@[i + m],
        decreases N - k,
    {
        r[k] = b[i + k];
        k = k + 1;
    }
    assert(r@ =~= b@.subrange(i as int, i + N));
    r
}

/// The smallest multiple of four that is at least `n`.
pub fn align_up4(n: usize) -> (r: usize)
    requires
        n + 3 <= usize::MAX,
    ensures
        r as int == align4(n as int),
{
    (n + 3) / 4 * 4
}

} // verus!
