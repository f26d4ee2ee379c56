//! Fixed big-endian reads and writes of multi-byte integers at explicit
//! offsets within a byte buffer. Writers return the offset immediately past
//! the bytes written, enabling cursor-style chaining.

use vstd::prelude::*;

verus! {

broadcast use vstd::std_specs::vec::group_vec_axioms;

/// The big-endian `u16` held at bytes `start` and `start + 1` of `s`.
pub open spec fn spec_read_u16(s: Seq<u8>, start: int) -> u16 {
    ((s[start] as u16) << 8) | (s[start + 1] as u16)
}

/// The big-endian `i16` held at bytes `start` and `start + 1` of `s`.
pub open spec fn spec_read_i16(s: Seq<u8>, start: int) -> i16 {
    spec_read_u16(s, start) as i16
}

/// The big-endian `u32` held at bytes `start .. start + 4` of `s`.
pub open spec fn spec_read_u32(s: Seq<u8>, start: int) -> u32 {
    ((s[start] as u32) << 24) | ((s[start + 1] as u32) << 16) | ((s[start + 2] as u32) << 8)
        | (s[start + 3] as u32)
}

/// The big-endian `u64` held at bytes `start .. start + 8` of `s`.
pub open spec fn spec_read_u64(s: Seq<u8>, start: int) -> u64 {
    ((s[start] as u64) << 56) | ((s[start + 1] as u64) << 48) | ((s[start + 2] as u64) << 40)
        | ((s[start + 3] as u64) << 32) | ((s[start + 4] as u64) << 24)
        | ((s[start + 5] as u64) << 16) | ((s[start + 6] as u64) << 8) | (s[start + 7] as u64)
}

pub fn read_i16(v: &Vec<u8>, start: usize) -> (r: i16)
    requires
        start + 2 <= v.len(),
    ensures
        r == spec_read_i16(v@, start as int),
{
    read_u16(v, start) as i16
}

pub fn read_u16(v: &Vec<u8>, start: usize) -> (r: u16)
    requires
        start + 2 <= v.len(),
    ensures
        r == spec_read_u16(v@, start as int),
{
    ((v[start] as u16) << 8u16) | (v[start + 1] as u16)
}

pub fn read_u32(v: &Vec<u8>, start: usize) -> (r: u32)
    requires
        start + 4 <= v.len(),
    ensures
        r == spec_read_u32(v@, start as int),
{
    ((v[start] as u32) << 24u32) | ((v[start + 1] as u32) << 16u32) | ((v[start + 2] as u32)
        << 8u32) | (v[start + 3] as u32)
}

pub fn read_u64(v: &Vec<u8>, start: usize) -> (r: u64)
    requires
        start + 8 <= v.len(),
    ensures
        r == spec_read_u64(v@, start as int),
{
    ((v[start] as u64) << 56u64) | ((v[start + 1] as u64) << 48u64) | ((v[start + 2] as u64)
        << 40u64) | ((v[start + 3] as u64) << 32u64) | ((v[start + 4] as u64) << 24u64) | ((v[start
        + 5] as u64) << 16u64) | ((v[start + 6] as u64) << 8u64) | (v[start + 7] as u64)
}

/// Copies `bytes` into `v` starting at `start`, leaving every other byte of
/// `v` unchanged.
pub fn write_bytes(v: &mut Vec<u8>, start: usize, bytes: &Vec<u8>) -> (r: usize)
    requires
        start + bytes.len() <= old(v).len(),
    ensures
        r == start + bytes@.len(),
        final(v)@.len() == old(v)@.len(),
        forall|j: int|
            start <= j < start + bytes@.len() ==> final(v)@[j] == bytes@[j - start],
        forall|j: int|
            0 <= j < old(v)@.len() && !(start <= j < start + bytes@.len())
                ==> final(v)@[j] == old(v)@[j],
{
    let mut i: usize = 0;
    while i < bytes.len()
        invariant
            i <= bytes@.len(),
            start + bytes.len() <= old(v).len(),
            v@.len() == old(v)@.len(),
            forall|j: int| start <= j < start + i ==> v@[j] == bytes@[j - start],
            forall|j: int|
                0 <= j < old(v)@.len() && !(start <= j < start + i) ==> v@[j] == old(v)@[j],
        decreases bytes@.len() - i,
    {
        v[start + i] = bytes[i];
        i = i + 1;
    }
    start + bytes.len()
}

/// Writes `n` in big-endian at bytes `start` and `start + 1` of `v`, leaving
/// every other byte unchanged.
pub fn write_u16(v: &mut Vec<u8>, start: usize, n: u16) -> (r: usize)
    requires
        start + 2 <= old(v).len(),
    ensures
        r == start + 2,
        final(v)@.len() == old(v)@.len(),
        spec_read_u16(final(v)@, start as int) == n,
        forall|j: int|
            0 <= j < old(v)@.len() && !(start <= j < start + 2) ==> final(v)@[j] == old(v)@[j],
{
    proof {
        assert((n >> 8u16) < 256 && (n & 0xffu16) < 256) by (bit_vector);
        assert((((n >> 8u16) as u8 as u16) << 8u16) | ((n & 0xffu16) as u8 as u16) == n)
            by (bit_vector);
    }
    v[start] = (n >> 8u16) as u8;
    v[start + 1] = (n & 0xffu16) as u8;
    start + 2
}

/// Writes `n` in big-endian at bytes `start .. start + 4` of `v`, leaving
/// every other byte unchanged.
pub fn write_u32(v: &mut Vec<u8>, start: usize, n: u32) -> (r: usize)
    requires
        start + 4 <= old(v).len(),
    ensures
        r == start + 4,
        final(v)@.len() == old(v)@.len(),
        spec_read_u32(final(v)@, start as int) == n,
        forall|j: int|
            0 <= j < old(v)@.len() && !(start <= j < start + 4) ==> final(v)@[j] == old(v)@[j],
{
    proof {
        assert((n >> 24u32) < 256 && ((n >> 16u32) & 0xffu32) < 256 && ((n >> 8u32) & 0xffu32)
            < 256 && (n & 0xffu32) < 256) by (bit_vector);
        assert((((n >> 24u32) as u8 as u32) << 24u32) | ((((n >> 16u32) & 0xffu32) as u8 as u32)
            << 16u32) | ((((n >> 8u32) & 0xffu32) as u8 as u32) << 8u32) | ((n
            & 0xffu32) as u8 as u32) == n) by (bit_vector);
    }
    v[start] = (n >> 24u32) as u8;
    v[start + 1] = ((n >> 16u32) & 0xffu32) as u8;
    v[start + 2] = ((n >> 8u32) & 0xffu32) as u8;
    v[start + 3] = (n & 0xffu32) as u8;
    start + 4
}

/// Writes `n` in big-endian at bytes `start .. start + 8` of `v`, leaving
/// every other byte unchanged.
pub fn write_u64(v: &mut Vec<u8>, start: usize, n: u64) -> (r: usize)
    requires
        start + 8 <= old(v).len(),
    ensures
        r == start + 8,
        final(v)@.len() == old(v)@.len(),
        spec_read_u64(final(v)@, start as int) == n,
        forall|j: int|
            0 <= j < old(v)@.len() && !(start <= j < start + 8) ==> final(v)@[j] == old(v)@[j],
{
    proof {
        assert((n >> 56u64) < 256 && ((n >> 48u64) & 0xffu64) < 256 && ((n >> 40u64) & 0xffu64)
            < 256 && ((n >> 32u64) & 0xffu64) < 256 && ((n >> 24u64) & 0xffu64) < 256 && ((n
            >> 16u64) & 0xffu64) < 256 && ((n >> 8u64) & 0xffu64) < 256 && (n & 0xffu64) < 256)
            by (bit_vector);
        assert((((n >> 56u64) as u8 as u64) << 56u64) | ((((n >> 48u64) & 0xffu64) as u8 as u64)
            << 48u64) | ((((n >> 40u64) & 0xffu64) as u8 as u64) << 40u64) | ((((n >> 32u64)
            & 0xffu64) as u8 as u64) << 32u64) | ((((n >> 24u64) & 0xffu64) as u8 as u64)
            << 24u64) | ((((n >> 16u64) & 0xffu64) as u8 as u64) << 16u64) | ((((n >> 8u64)
            & 0xffu64) as u8 as u64) << 8u64) | ((n & 0xffu64) as u8 as u64) == n)
            by (bit_vector);
    }
    v[start] = (n >> 56u64) as u8;
    v[start + 1] = ((n >> 48u64) & 0xffu64) as u8;
    v[start + 2] = ((n >> 40u64) & 0xffu64) as u8;
    v[start + 3] = ((n >> 32u64) & 0xffu64) as u8;
    v[start + 4] = ((n >> 24u64) & 0xffu64) as u8;
    v[start + 5] = ((n >> 16u64) & 0xffu64) as u8;
    v[start + 6] = ((n >> 8u64) & 0xffu64) as u8;
    v[start + 7] = (n & 0xffu64) as u8;
    start + 8
}

} // verus!
