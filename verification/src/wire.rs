//! Big-endian, fixed-width integers as they stand on the wire.
//!
//! Every multi-byte field of the tracker protocol is an unsigned big-endian
//! integer without padding. The spec functions here say which bytes an
//! integer becomes and which integer a run of bytes stands for; the
//! executable functions write to and read from byte buffers accordingly.
use vstd::prelude::*;

verus! {

/// The two bytes of `x`, most significant first.
#[verifier::opaque]
pub open spec fn be_u16(x: u16) -> Seq<u8> {
    seq![(x / 0x100) as u8, (x % 0x100) as u8]
}

/// The four bytes of `x`, most significant first.
#[verifier::opaque]
pub open spec fn be_u32(x: u32) -> Seq<u8> {
    be_u16((x / 0x1_0000) as u16) + be_u16((x % 0x1_0000) as u16)
}

/// The eight bytes of `x`, most significant first.
#[verifier::opaque]
pub open spec fn be_u64(x: u64) -> Seq<u8> {
    be_u32((x / 0x1_0000_0000) as u32) + be_u32((x % 0x1_0000_0000) as u32)
}

/// The integer that the first two bytes of `s` stand for.
#[verifier::opaque]
pub open spec fn u16_from_be(s: Seq<u8>) -> u16
    recommends
        s.len() >= 2,
{
    (s[0] * 0x100 + s[1]) as u16
}

/// The integer that the first four bytes of `s` stand for.
#[verifier::opaque]
pub open spec fn u32_from_be(s: Seq<u8>) -> u32
    recommends
        s.len() >= 4,
{
    (u16_from_be(s) * 0x1_0000 + u16_from_be(s.skip(2))) as u32
}

/// The integer that the first eight bytes of `s` stand for.
#[verifier::opaque]
pub open spec fn u64_from_be(s: Seq<u8>) -> u64
    recommends
        s.len() >= 8,
{
    (u32_from_be(s) * 0x1_0000_0000 + u32_from_be(s.skip(4))) as u64
}

/// Reading back what was written gives the integer that was written,
/// whatever follows it in the buffer.
pub proof fn lemma_u16_round_trip(x: u16, rest: Seq<u8>)
    ensures
        be_u16(x).len() == 2,
        u16_from_be(be_u16(x) + rest) == x,
{
    reveal(be_u16);
    reveal(u16_from_be);
}

/// Reading back what was written gives the integer that was written,
/// whatever follows it in the buffer.
pub proof fn lemma_u32_round_trip(x: u32, rest: Seq<u8>)
    ensures
        be_u32(x).len() == 4,
        u32_from_be(be_u32(x) + rest) == x,
{
    reveal(be_u32);
    reveal(u32_from_be);
    let hi = (x / 0x1_0000) as u16;
    let lo = (x % 0x1_0000) as u16;
    lemma_u16_round_trip(hi, be_u16(lo) + rest);
    lemma_u16_round_trip(lo, rest);
    assert(be_u32(x) + rest =~= be_u16(hi) + (be_u16(lo) + rest));
    assert((be_u32(x) + rest).skip(2) =~= be_u16(lo) + rest);
}

/// Reading back what was written gives the integer that was written,
/// whatever follows it in the buffer.
pub proof fn lemma_u64_round_trip(x: u64, rest: Seq<u8>)
    ensures
        be_u64(x).len() == 8,
        u64_from_be(be_u64(x) + rest) == x,
{
    reveal(be_u64);
    reveal(u64_from_be);
    let hi = (x / 0x1_0000_0000) as u32;
    let lo = (x % 0x1_0000_0000) as u32;
    lemma_u32_round_trip(hi, be_u32(lo) + rest);
    lemma_u32_round_trip(lo, rest);
    assert(be_u64(x) + rest =~= be_u32(hi) + (be_u32(lo) + rest));
    assert((be_u64(x) + rest).skip(4) =~= be_u32(lo) + rest);
}

/// A two-byte integer is read from the first two bytes alone.
pub proof fn lemma_u16_reads_prefix(s: Seq<u8>, t: Seq<u8>)
    requires
        s.len() >= 2,
        t.len() >= 2,
        s.take(2) == t.take(2),
    ensures
        u16_from_be(s) == u16_from_be(t),
{
    reveal(u16_from_be);
    assert(s[0] == s.take(2)[0] && s[1] == s.take(2)[1]);
    assert(t[0] == t.take(2)[0] && t[1] == t.take(2)[1]);
}

/// A four-byte integer is read from the first four bytes alone.
pub proof fn lemma_u32_reads_prefix(s: Seq<u8>, t: Seq<u8>)
    requires
        s.len() >= 4,
        t.len() >= 4,
        s.take(4) == t.take(4),
    ensures
        u32_from_be(s) == u32_from_be(t),
{
    reveal(u32_from_be);
    assert(s.take(2) =~= s.take(4).take(2));
    assert(t.take(2) =~= t.take(4).take(2));
    assert(s.skip(2).take(2) =~= s.take(4).skip(2));
    assert(t.skip(2).take(2) =~= t.take(4).skip(2));
    lemma_u16_reads_prefix(s, t);
    lemma_u16_reads_prefix(s.skip(2), t.skip(2));
}

/// Appends the two bytes of `x` to `out`.
pub fn put_u16(out: &mut Vec<u8>, x: u16)
    ensures
        final(out)@ == old(out)@ + be_u16(x),
{
    out.push((x / 0x100) as u8);
    out.push((x % 0x100) as u8);
    assert(out@ =~= old(out)@ + be_u16(x)) by {
        reveal(be_u16);
    }
}

/// Appends the four bytes of `x` to `out`.
pub fn put_u32(out: &mut Vec<u8>, x: u32)
    ensures
        final(out)@ == old(out)@ + be_u32(x),
{
    put_u16(out, (x / 0x1_0000) as u16);
    put_u16(out, (x % 0x1_0000) as u16);
    assert(out@ =~= old(out)@ + be_u32(x)) by {
        reveal(be_u32);
    }
}

/// Appends the eight bytes of `x` to `out`.
pub fn put_u64(out: &mut Vec<u8>, x: u64)
    ensures
        final(out)@ == old(out)@ + be_u64(x),
{
    put_u32(out, (x / 0x1_0000_0000) as u32);
    put_u32(out, (x % 0x1_0000_0000) as u32);
    assert(out@ =~= old(out)@ + be_u64(x)) by {
        reveal(be_u64);
    }
}

/// Appends every byte of `bytes` to `out`, in order.
pub fn put_bytes(out: &mut Vec<u8>, bytes: &[u8])
    ensures
        final(out)@ == old(out)@ + bytes@,
{
    let mut i: usize = 0;
    while i < bytes.len()
        invariant
            i <= bytes.len(),
            out@ == old(out)@ + bytes@.take(i as int),
        decreases bytes.len() - i,
    {
        out.push(bytes[i]);
        i += 1;
        assert(out@ =~= old(out)@ + bytes@.take(i as int));
    }
    assert(bytes@.take(i as int) =~= bytes@);
}

/// Reads the two-byte integer that starts at offset `at`.
pub fn get_u16(bytes: &[u8], at: usize) -> (x: u16)
    requires
        at + 2 <= bytes.len(),
    ensures
        x == u16_from_be(bytes@.skip(at as int)),
{
    let hi: u16 = bytes[at] as u16;
    let lo: u16 = bytes[at + 1] as u16;
    proof {
        reveal(u16_from_be);
    }
    hi * 0x100 + lo
}

/// Reads the four-byte integer that starts at offset `at`.
pub fn get_u32(bytes: &[u8], at: usize) -> (x: u32)
    requires
        at + 4 <= bytes.len(),
    ensures
        x == u32_from_be(bytes@.skip(at as int)),
{
    let hi: u32 = get_u16(bytes, at) as u32;
    let lo: u32 = get_u16(bytes, at + 2) as u32;
    proof {
        reveal(u32_from_be);
        assert(bytes@.skip(at as int).skip(2) =~= bytes@.skip(at + 2));
    }
    hi * 0x1_0000 + lo
}

/// Reads the eight-byte integer that starts at offset `at`.
pub fn get_u64(bytes: &[u8], at: usize) -> (x: u64)
    requires
        at + 8 <= bytes.len(),
    ensures
        x == u64_from_be(bytes@.skip(at as int)),
{
    let hi: u64 = get_u32(bytes, at) as u64;
    let lo: u64 = get_u32(bytes, at + 4) as u64;
    proof {
        reveal(u64_from_be);
        assert(bytes@.skip(at as int).skip(4) =~= bytes@.skip(at + 4));
    }
    hi * 0x1_0000_0000 + lo
}

/// Reads the twenty bytes that start at offset `at`.
pub fn get_bytes20(bytes: &[u8], at: usize) -> (a: [u8; 20])
    requires
        at + 20 <= bytes.len(),
    ensures
        a@ == bytes@.subrange(at as int, at + 20),
{
    let mut a: [u8; 20] = [0u8; 20];
    let mut i: usize = 0;
    while i < 20
        invariant
            i <= 20,
            at + 20 <= bytes.len(),
            forall|j: int| 0 <= j < i ==> a@[j] == bytes@[at + j],
        decreases 20 - i,
    {
        a[i] = bytes[at + i];
        i += 1;
    }
    assert(a@ =~= bytes@.subrange(at as int, at + 20));
    a
}

/// The unsigned integer with the same 32 bits as `x` in two's complement.
pub open spec fn u32_of_i32(x: i32) -> u32 {
    if x >= 0 {
        x as u32
    } else {
        (x + 0x1_0000_0000) as u32
    }
}

/// The signed integer with the same 32 bits as `x` in two's complement.
pub open spec fn i32_of_u32(x: u32) -> i32 {
    if x < 0x8000_0000 {
        x as i32
    } else {
        (x - 0x1_0000_0000) as i32
    }
}

/// The two readings of 32 bits, signed and unsigned, are inverse to each
/// other.
pub proof fn lemma_i32_round_trip(x: i32, y: u32)
    ensures
        i32_of_u32(u32_of_i32(x)) == x,
        u32_of_i32(i32_of_u32(y)) == y,
{
}

/// Reinterprets a signed 32-bit integer as unsigned.
pub fn i32_to_u32(x: i32) -> (y: u32)
    ensures
        y == u32_of_i32(x),
{
    if x >= 0 {
        x as u32
    } else {
        (x as i64 + 0x1_0000_0000) as u32
    }
}

/// Reinterprets an unsigned 32-bit integer as signed.
pub fn u32_to_i32(x: u32) -> (y: i32)
    ensures
        y == i32_of_u32(x),
{
    if x < 0x8000_0000 {
        x as i32
    } else {
        (x as i64 - 0x1_0000_0000) as i32
    }
}

} // verus!
