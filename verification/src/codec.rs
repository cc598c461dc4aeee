//! Little-endian integers, the building blocks of every on-disk structure.

use vstd::prelude::*;
use crate::error::Error;

verus! {

/// The four bytes that store `v`, least significant first.
#[verifier::opaque]
pub open spec fn spec_u32_le(v: u32) -> Seq<u8> {
    seq![
        (v % 256) as u8,
        (v / 256 % 256) as u8,
        (v / 65536 % 256) as u8,
        (v / 16777216 % 256) as u8,
    ]
}

/// The number stored in the first four bytes of `b`, least significant first.
#[verifier::opaque]
pub open spec fn spec_u32_from_le(b: Seq<u8>) -> u32
    recommends
        b.len() >= 4,
{
    (b[0] as int + 256 * (b[1] as int) + 65536 * (b[2] as int) + 16777216 * (b[3] as int)) as u32
}

/// The eight bytes that store `v`, least significant first.
#[verifier::opaque]
pub open spec fn spec_u64_le(v: u64) -> Seq<u8> {
    spec_u32_le((v % 0x1_0000_0000) as u32) + spec_u32_le((v / 0x1_0000_0000) as u32)
}

/// The number stored in the first eight bytes of `b`, least significant first.
#[verifier::opaque]
pub open spec fn spec_u64_from_le(b: Seq<u8>) -> u64
    recommends
        b.len() >= 8,
{
    (spec_u32_from_le(b.subrange(0, 4)) as int + 0x1_0000_0000 * (spec_u32_from_le(
        b.subrange(4, 8),
    ) as int)) as u64
}

/// Every 32-bit number takes four bytes and every 64-bit number eight.
pub proof fn lemma_le_len()
    ensures
        forall|v: u32| #[trigger] spec_u32_le(v).len() == 4,
        forall|v: u64| #[trigger] spec_u64_le(v).len() == 8,
{
    reveal(spec_u32_le);
    reveal(spec_u64_le);
}

/// Decoding the encoding of a 32-bit number gives the number back, whatever follows.
pub proof fn lemma_u32_le_roundtrip(v: u32, rest: Seq<u8>)
    ensures
        spec_u32_le(v).len() == 4,
        spec_u32_from_le(spec_u32_le(v) + rest) == v,
{
    reveal(spec_u32_le);
    reveal(spec_u32_from_le);
}

/// Decoding the encoding of a 64-bit number gives the number back, whatever follows.
pub proof fn lemma_u64_le_roundtrip(v: u64, rest: Seq<u8>)
    ensures
        spec_u64_le(v).len() == 8,
        spec_u64_from_le(spec_u64_le(v) + rest) == v,
{
    reveal(spec_u64_le);
    reveal(spec_u64_from_le);
    let lo = (v % 0x1_0000_0000) as u32;
    let hi = (v / 0x1_0000_0000) as u32;
    let b = spec_u64_le(v) + rest;
    lemma_le_len();
    assert(b.subrange(0, 4) =~= spec_u32_le(lo) + Seq::<u8>::empty());
    assert(b.subrange(4, 8) =~= spec_u32_le(hi) + Seq::<u8>::empty());
    lemma_u32_le_roundtrip(lo, Seq::<u8>::empty());
    lemma_u32_le_roundtrip(hi, Seq::<u8>::empty());
}

/// Appends the four little-endian bytes of `v` to `out`.
pub fn encode_u32(out: &mut Vec<u8>, v: u32)
    ensures
        final(out)@ == old(out)@ + spec_u32_le(v),
{
    out.push((v % 256) as u8);
    out.push((v / 256 % 256) as u8);
    out.push((v / 65536 % 256) as u8);
    out.push((v / 16777216 % 256) as u8);
    proof {
        reveal(spec_u32_le);
    }
}

/// Appends the eight little-endian bytes of `v` to `out`.
pub fn encode_u64(out: &mut Vec<u8>, v: u64)
    ensures
        final(out)@ == old(out)@ + spec_u64_le(v),
{
    encode_u32(out, (v % 0x1_0000_0000) as u32);
    encode_u32(out, (v / 0x1_0000_0000) as u32);
    proof {
        reveal(spec_u64_le);
    }
}

/// What reading a 32-bit number at `pos` gives: the number and the position
/// behind it, or nothing where fewer than four bytes remain.
pub open spec fn spec_read_u32(data: Seq<u8>, pos: int) -> Option<(u32, int)> {
    if 0 <= pos && pos + 4 <= data.len() {
        Some((spec_u32_from_le(data.subrange(pos, pos + 4)), pos + 4))
    } else {
        None
    }
}

/// What reading a 64-bit number at `pos` gives: the number and the position
/// behind it, or nothing where fewer than eight bytes remain.
pub open spec fn spec_read_u64(data: Seq<u8>, pos: int) -> Option<(u64, int)> {
    if 0 <= pos && pos + 8 <= data.len() {
        Some((spec_u64_from_le(data.subrange(pos, pos + 8)), pos + 8))
    } else {
        None
    }
}

/// Reads a little-endian 32-bit number at `pos`.
pub fn decode_u32(data: &[u8], pos: usize) -> (r: Result<(u32, usize), Error>)
    ensures
        match r {
            Ok((v, next)) => spec_read_u32(data@, pos as int) == Some((v, next as int)),
            Err(e) => e == Error::Truncated && spec_read_u32(data@, pos as int).is_none(),
        },
{
    if data.len() < 4 || pos > data.len() - 4 {
        return Err(Error::Truncated);
    }
    let b0: u32 = data[pos] as u32;
    let b1: u32 = data[pos + 1] as u32;
    let b2: u32 = data[pos + 2] as u32;
    let b3: u32 = data[pos + 3] as u32;
    let v: u32 = b0 + 256 * b1 + 65536 * b2 + 16777216 * b3;
    proof {
        reveal(spec_u32_from_le);
    }
    Ok((v, pos + 4))
}

/// Reads a little-endian 64-bit number at `pos`.
pub fn decode_u64(data: &[u8], pos: usize) -> (r: Result<(u64, usize), Error>)
    ensures
        match r {
            Ok((v, next)) => spec_read_u64(data@, pos as int) == Some((v, next as int)),
            Err(e) => e == Error::Truncated && spec_read_u64(data@, pos as int).is_none(),
        },
{
    if data.len() < 8 || pos > data.len() - 8 {
        return Err(Error::Truncated);
    }
    let lo = decode_u32(data, pos);
    let hi = decode_u32(data, pos + 4);
    match (lo, hi) {
        (Ok((lo, _)), Ok((hi, _))) => {
            proof {
                reveal(spec_u64_from_le);
                let b = data@.subrange(pos as int, pos + 8);
                assert(b.subrange(0, 4) =~= data@.subrange(pos as int, pos + 4));
                assert(b.subrange(4, 8) =~= data@.subrange(pos + 4, pos + 8));
            }
            let v: u64 = lo as u64 + 0x1_0000_0000 * (hi as u64);
            Ok((v, pos + 8))
        },
        _ => Err(Error::Truncated),
    }
}

} // verus!
