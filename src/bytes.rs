use vstd::prelude::*;

verus! {

/// The little-endian unsigned 32-bit integer held at `b[p..p + 4]`.
pub open spec fn u32_at(b: Seq<u8>, p: int) -> u32 {
    (b[p] as int + b[p + 1] as int * 0x100 + b[p + 2] as int * 0x1_0000 + b[p + 3] as int
        * 0x100_0000) as u32
}

/// The little-endian unsigned 64-bit integer held at `b[p..p + 8]`.
pub open spec fn u64_at(b: Seq<u8>, p: int) -> u64 {
    (u32_at(b, p) as int + u32_at(b, p + 4) as int * 0x1_0000_0000) as u64
}

/// The little-endian two's-complement 64-bit integer held at `b[p..p + 8]`.
pub open spec fn i64_at(b: Seq<u8>, p: int) -> i64 {
    let u = u64_at(b, p) as int;
    if u < 0x8000_0000_0000_0000 {
        u as i64
    } else {
        (u - 0x1_0000_0000_0000_0000) as i64
    }
}

/// Reads the little-endian `u32` at `b[p..p + 4]`.
pub fn read_u32(b: &[u8], p: usize) -> (r: u32)
    requires
        p + 4 <= b@.len(),
    ensures
        r == u32_at(b@, p as int),
{
    let b0 = b[p] as u32;
    let b1 = b[p + 1] as u32;
    let b2 = b[p + 2] as u32;
    let b3 = b[p + 3] as u32;
    b0 + b1 * 0x100 + b2 * 0x1_0000 + b3 * 0x100_0000
}

/// Reads the little-endian `i64` at `b[p..p + 8]`.
pub fn read_i64(b: &[u8], p: usize) -> (r: i64)
    requires
        p + 8 <= b@.len(),
    ensures
        r == i64_at(b@, p as int),
{
    let lo = read_u32(b, p) as u64;
    assert(b@.len() == b.len());
    let hi = read_u32(b, p + 4) as u64;
    let u: u64 = lo + hi * 0x1_0000_0000;
    if u < 0x8000_0000_0000_0000 {
        u as i64
    } else {
        let v = (u - 0x8000_0000_0000_0000) as i64;
        v + i64::MIN
    }
}

} // verus!
