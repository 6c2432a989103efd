//! Big endian integers, the way they travel in protocol frames.

use vstd::prelude::*;

verus! {

/// The 16 bit integer stored in the first two bytes of `s`.
pub open spec fn be_u16(s: Seq<u8>) -> u16 {
    (s[0] * 0x100 + s[1]) as u16
}

/// The 24 bit integer stored in the first three bytes of `s`.
pub open spec fn be_u24(s: Seq<u8>) -> u32 {
    (s[0] * 0x1_0000 + s[1] * 0x100 + s[2]) as u32
}

/// The 32 bit integer stored in the first four bytes of `s`.
pub open spec fn be_u32(s: Seq<u8>) -> u32 {
    (s[0] * 0x100_0000 + s[1] * 0x1_0000 + s[2] * 0x100 + s[3]) as u32
}

/// The 64 bit integer stored in the first eight bytes of `s`.
pub open spec fn be_u64(s: Seq<u8>) -> u64 {
    (be_u32(s) * 0x1_0000_0000 + be_u32(s.skip(4))) as u64
}

/// The two bytes of `n`, most significant first.
pub open spec fn u16_bytes(n: u16) -> Seq<u8> {
    seq![(n / 0x100) as u8, (n % 0x100) as u8]
}

/// The three low bytes of `n`, most significant first.
pub open spec fn u24_bytes(n: u32) -> Seq<u8> {
    seq![(n / 0x1_0000 % 0x100) as u8, (n / 0x100 % 0x100) as u8, (n % 0x100) as u8]
}

/// The four bytes of `n`, most significant first.
pub open spec fn u32_bytes(n: u32) -> Seq<u8> {
    seq![
        (n / 0x100_0000) as u8,
        (n / 0x1_0000 % 0x100) as u8,
        (n / 0x100 % 0x100) as u8,
        (n % 0x100) as u8,
    ]
}

/// The eight bytes of `n`, most significant first.
pub open spec fn u64_bytes(n: u64) -> Seq<u8> {
    u32_bytes((n / 0x1_0000_0000) as u32) + u32_bytes((n % 0x1_0000_0000) as u32)
}

/// Reading the bytes of a 16 bit integer gives the integer back.
pub proof fn law_u16_round_trip(n: u16, tail: Seq<u8>)
    ensures
        u16_bytes(n).len() == 2,
        be_u16(u16_bytes(n)) == n,
        be_u16(u16_bytes(n) + tail) == n,
{
}

/// Reading the three low bytes of an integer below 2^24 gives the integer back.
pub proof fn law_u24_round_trip(n: u32, tail: Seq<u8>)
    requires
        n < 0x100_0000,
    ensures
        u24_bytes(n).len() == 3,
        be_u24(u24_bytes(n)) == n,
        be_u24(u24_bytes(n) + tail) == n,
{
}

/// Reading the bytes of a 32 bit integer gives the integer back.
pub proof fn law_u32_round_trip(n: u32, tail: Seq<u8>)
    ensures
        u32_bytes(n).len() == 4,
        be_u32(u32_bytes(n)) == n,
        be_u32(u32_bytes(n) + tail) == n,
{
}

/// Reading the bytes of a 64 bit integer gives the integer back.
pub proof fn law_u64_round_trip(n: u64, tail: Seq<u8>)
    ensures
        u64_bytes(n).len() == 8,
        be_u64(u64_bytes(n)) == n,
        be_u64(u64_bytes(n) + tail) == n,
{
    let high = (n / 0x1_0000_0000) as u32;
    let low = (n % 0x1_0000_0000) as u32;
    let s = u64_bytes(n) + tail;
    assert(s =~= u32_bytes(high) + (u32_bytes(low) + tail));
    assert(s.skip(4) =~= u32_bytes(low) + tail);
    law_u32_round_trip(high, u32_bytes(low) + tail);
    law_u32_round_trip(low, tail);
    assert(u64_bytes(n).skip(4) =~= u32_bytes(low));
    assert(be_u32(u64_bytes(n)) == be_u32(u32_bytes(high)));
}

/// Reads the 16 bit integer at the begin of `buf`.
pub fn read_u16(buf: &[u8]) -> (n: u16)
    requires
        buf@.len() >= 2,
    ensures
        n == be_u16(buf@),
{
    buf[0] as u16 * 0x100 + buf[1] as u16
}

/// Reads the 24 bit integer at the begin of `buf`.
pub fn read_u24(buf: &[u8]) -> (n: u32)
    requires
        buf@.len() >= 3,
    ensures
        n == be_u24(buf@),
        n < 0x100_0000,
{
    buf[0] as u32 * 0x1_0000 + buf[1] as u32 * 0x100 + buf[2] as u32
}

/// Reads the 32 bit integer at the begin of `buf`.
pub fn read_u32(buf: &[u8]) -> (n: u32)
    requires
        buf@.len() >= 4,
    ensures
        n == be_u32(buf@),
{
    buf[0] as u32 * 0x100_0000 + buf[1] as u32 * 0x1_0000 + buf[2] as u32 * 0x100 + buf[3] as u32
}

/// Reads the 64 bit integer at the begin of `buf`.
pub fn read_u64(buf: &[u8]) -> (n: u64)
    requires
        buf@.len() >= 8,
    ensures
        n == be_u64(buf@),
{
    let high: u32 = read_u32(buf);
    let rest: &[u8] = vstd::slice::slice_subrange(buf, 4, buf.len());
    let low: u32 = read_u32(rest);
    proof {
        assert(rest@ =~= buf@.skip(4));
    }
    high as u64 * 0x1_0000_0000 + low as u64
}

/// Appends the two bytes of `n` to `out`.
pub fn push_u16(out: &mut Vec<u8>, n: u16)
    ensures
        final(out)@ == old(out)@ + u16_bytes(n),
{
    out.push((n / 0x100) as u8);
    out.push((n % 0x100) as u8);
    proof {
        assert(out@ =~= old(out)@ + u16_bytes(n));
    }
}

/// Appends the three low bytes of `n` to `out`.
pub fn push_u24(out: &mut Vec<u8>, n: u32)
    ensures
        final(out)@ == old(out)@ + u24_bytes(n),
{
    out.push((n / 0x1_0000 % 0x100) as u8);
    out.push((n / 0x100 % 0x100) as u8);
    out.push((n % 0x100) as u8);
    proof {
        assert(out@ =~= old(out)@ + u24_bytes(n));
    }
}

/// Appends the four bytes of `n` to `out`.
pub fn push_u32(out: &mut Vec<u8>, n: u32)
    ensures
        final(out)@ == old(out)@ + u32_bytes(n),
{
    out.push((n / 0x100_0000) as u8);
    out.push((n / 0x1_0000 % 0x100) as u8);
    out.push((n / 0x100 % 0x100) as u8);
    out.push((n % 0x100) as u8);
    proof {
        assert(out@ =~= old(out)@ + u32_bytes(n));
    }
}

/// Appends the eight bytes of `n` to `out`.
pub fn push_u64(out: &mut Vec<u8>, n: u64)
    ensures
        final(out)@ == old(out)@ + u64_bytes(n),
{
    push_u32(out, (n / 0x1_0000_0000) as u32);
    push_u32(out, (n % 0x1_0000_0000) as u32);
    proof {
        assert(out@ =~= old(out)@ + u64_bytes(n));
    }
}

} // verus!
