//! Small byte-level helpers shared by the serializers: slice equality and
//! little-endian integer framing over a growing byte vector.

use vstd::prelude::*;
use vstd::bytes::*;

verus! {

/// Decides equality of two byte slices.
pub fn bytes_eq(a: &[u8], b: &[u8]) -> (r: bool)
    ensures
        r <==> a@ == b@,
{
    if a.len() != b.len() {
        return false;
    }
    let mut i: usize = 0;
    while i < a.len()
        invariant
            i <= a@.len(),
            a@.len() == b@.len(),
            forall|j: int| 0 <= j < i ==> a@[j] == b@[j],
        decreases a@.len() - i,
    {
        if a[i] != b[i] {
            return false;
        }
        i = i + 1;
    }
    proof {
        assert(a@ =~= b@);
    }
    true
}

/// Appends the whole of `src` to `out`.
pub fn put_bytes(out: &mut Vec<u8>, src: &[u8])
    ensures
        final(out)@ == old(out)@ + src@,
{
    let mut i: usize = 0;
    while i < src.len()
        invariant
            i <= src@.len(),
            out@ == old(out)@ + src@.take(i as int),
        decreases src@.len() - i,
    {
        out.push(src[i]);
        proof {
            assert(old(out)@ + src@.take(i + 1 as int) =~= (old(out)@ + src@.take(
                i as int,
            )).push(src@[i as int]));
        }
        i = i + 1;
    }
    proof {
        assert(src@.take(src@.len() as int) =~= src@);
    }
}

/// Appends a `u16` in little-endian order.
pub fn put_u16_le(out: &mut Vec<u8>, x: u16)
    ensures
        final(out)@ == old(out)@ + spec_u16_to_le_bytes(x),
{
    let b = u16_to_le_bytes(x);
    put_bytes(out, b.as_slice());
}

/// Appends a `u32` in little-endian order.
pub fn put_u32_le(out: &mut Vec<u8>, x: u32)
    ensures
        final(out)@ == old(out)@ + spec_u32_to_le_bytes(x),
{
    let b = u32_to_le_bytes(x);
    put_bytes(out, b.as_slice());
}

/// Appends a `u64` in little-endian order.
pub fn put_u64_le(out: &mut Vec<u8>, x: u64)
    ensures
        final(out)@ == old(out)@ + spec_u64_to_le_bytes(x),
{
    let b = u64_to_le_bytes(x);
    put_bytes(out, b.as_slice());
}

/// Copies `len` bytes of `src` starting at `at` into a fresh vector.
pub fn read_bytes(src: &[u8], at: usize, len: usize) -> (r: Vec<u8>)
    requires
        at + len <= src@.len(),
    ensures
        r@ == src@.subrange(at as int, at + len),
{
    let n: usize = src.len();
    let mut r: Vec<u8> = Vec::new();
    let mut i: usize = 0;
    while i < len
        invariant
            i <= len,
            at + len <= n,
            n == src@.len(),
            r@ == src@.subrange(at as int, at + i),
        decreases len - i,
    {
        r.push(src[at + i]);
        proof {
            assert(src@.subrange(at as int, at + i + 1) =~= src@.subrange(at as int, at + i).push(
                src@[at + i],
            ));
        }
        i = i + 1;
    }
    r
}

/// Reads a `u16` stored in little-endian order at `at`.
pub fn read_u16_le(src: &[u8], at: usize) -> (x: u16)
    requires
        at + 2 <= src@.len(),
    ensures
        x == spec_u16_from_le_bytes(src@.subrange(at as int, at + 2)),
{
    let b = read_bytes(src, at, 2);
    u16_from_le_bytes(b.as_slice())
}

/// Reads a `u32` stored in little-endian order at `at`.
pub fn read_u32_le(src: &[u8], at: usize) -> (x: u32)
    requires
        at + 4 <= src@.len(),
    ensures
        x == spec_u32_from_le_bytes(src@.subrange(at as int, at + 4)),
{
    let b = read_bytes(src, at, 4);
    u32_from_le_bytes(b.as_slice())
}

/// Reads a `u64` stored in little-endian order at `at`.
pub fn read_u64_le(src: &[u8], at: usize) -> (x: u64)
    requires
        at + 8 <= src@.len(),
    ensures
        x == spec_u64_from_le_bytes(src@.subrange(at as int, at + 8)),
{
    let b = read_bytes(src, at, 8);
    u64_from_le_bytes(b.as_slice())
}

} // verus!
