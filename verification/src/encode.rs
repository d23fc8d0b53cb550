//! Canonical little-endian byte encoding of the primitive values that make up
//! a fingerprint input. Every integer field is written with a fixed width, so
//! the encoding of a compound value is unambiguous.

use vstd::prelude::*;

verus! {

/// The `n` low-order bytes of `x`, least significant first.
pub open spec fn le_bytes(x: int, n: nat) -> Seq<u8>
    decreases n,
{
    if n == 0 {
        Seq::empty()
    } else {
        seq![(x % 256) as u8] + le_bytes(x / 256, (n - 1) as nat)
    }
}

/// One byte, as a sequence.
pub open spec fn enc_u8(x: u8) -> Seq<u8> {
    le_bytes(x as int, 1)
}

/// Four little-endian bytes.
pub open spec fn enc_u32(x: u32) -> Seq<u8> {
    le_bytes(x as int, 4)
}

/// Eight little-endian bytes.
pub open spec fn enc_u64(x: u64) -> Seq<u8> {
    le_bytes(x as int, 8)
}

/// Sixteen little-endian bytes.
pub open spec fn enc_u128(x: u128) -> Seq<u8> {
    le_bytes(x as int, 16)
}

/// A collection length, written as eight little-endian bytes.
pub open spec fn enc_len(n: nat) -> Seq<u8> {
    le_bytes(n as int, 8)
}

/// Appends the `width` low-order bytes of `x` to `out`, least significant
/// first.
pub fn push_le(out: &mut Vec<u8>, x: u128, width: usize)
    ensures
        final(out)@ == old(out)@ + le_bytes(x as int, width as nat),
{
    let mut y: u128 = x;
    let mut i: usize = 0;
    while i < width
        invariant
            i <= width,
            out@ + le_bytes(y as int, (width - i) as nat)
                == old(out)@ + le_bytes(x as int, width as nat),
        decreases width - i,
    {
        let b: u8 = (y % 256) as u8;
        proof {
            assert(le_bytes(y as int, (width - i) as nat)
                == seq![b] + le_bytes(y as int / 256, (width - i - 1) as nat));
            assert(out@.push(b) + le_bytes(y as int / 256, (width - i - 1) as nat)
                =~= out@ + le_bytes(y as int, (width - i) as nat));
        }
        out.push(b);
        y = y / 256;
        i = i + 1;
    }
    proof {
        assert(out@ + le_bytes(y as int, 0) =~= out@);
    }
}

/// Appends the one-byte encoding of `x`.
pub fn push_u8(out: &mut Vec<u8>, x: u8)
    ensures
        final(out)@ == old(out)@ + enc_u8(x),
{
    push_le(out, x as u128, 1);
}

/// Appends the four-byte encoding of `x`.
pub fn push_u32(out: &mut Vec<u8>, x: u32)
    ensures
        final(out)@ == old(out)@ + enc_u32(x),
{
    push_le(out, x as u128, 4);
}

/// Appends the eight-byte encoding of `x`.
pub fn push_u64(out: &mut Vec<u8>, x: u64)
    ensures
        final(out)@ == old(out)@ + enc_u64(x),
{
    push_le(out, x as u128, 8);
}

/// Appends the sixteen-byte encoding of `x`.
pub fn push_u128(out: &mut Vec<u8>, x: u128)
    ensures
        final(out)@ == old(out)@ + enc_u128(x),
{
    push_le(out, x, 16);
}

/// Appends the eight-byte encoding of a collection length.
pub fn push_len(out: &mut Vec<u8>, n: usize)
    ensures
        final(out)@ == old(out)@ + enc_len(n as nat),
{
    push_le(out, n as u128, 8);
}

} // verus!
