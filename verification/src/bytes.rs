//! Fixed-width words as byte sequences.
//!
//! ZMODEM writes its 16-bit checks most significant byte first and its 32-bit
//! checks and file positions least significant byte first. The capability
//! word of a `ZRINIT` header is read most significant byte first.

use vstd::prelude::*;

verus! {

/// The bytes of a 16-bit word, most significant first.
pub open spec fn be16(x: u16) -> Seq<u8> {
    seq![(x >> 8) as u8, (x & 0xff) as u8]
}

/// The bytes of a 32-bit word, least significant first.
pub open spec fn le32(x: u32) -> Seq<u8> {
    seq![
        (x & 0xff) as u8,
        ((x >> 8) & 0xff) as u8,
        ((x >> 16) & 0xff) as u8,
        ((x >> 24) & 0xff) as u8,
    ]
}

/// The bytes of a 32-bit word, most significant first.
pub open spec fn be32(x: u32) -> Seq<u8> {
    le32(x).reverse()
}

/// The 32-bit word whose bytes, least significant first, are `s[0..4]`.
pub open spec fn from_le32(s: Seq<u8>) -> u32 {
    (s[0] as u32) | (s[1] as u32) << 8 | (s[2] as u32) << 16 | (s[3] as u32) << 24
}

/// The 32-bit word whose bytes, most significant first, are `s[0..4]`.
pub open spec fn from_be32(s: Seq<u8>) -> u32 {
    (s[3] as u32) | (s[2] as u32) << 8 | (s[1] as u32) << 16 | (s[0] as u32) << 24
}

/// The bytes of `x`, most significant first.
pub fn u16_be(x: u16) -> (b: [u8; 2])
    ensures
        b@ == be16(x),
{
    [(x >> 8) as u8, (x & 0xff) as u8]
}

/// The bytes of `x`, least significant first.
pub fn u32_le(x: u32) -> (b: [u8; 4])
    ensures
        b@ == le32(x),
{
    [(x & 0xff) as u8, ((x >> 8) & 0xff) as u8, ((x >> 16) & 0xff) as u8, ((x >> 24) & 0xff) as u8]
}

/// The bytes of `x`, most significant first.
pub fn u32_be(x: u32) -> (b: [u8; 4])
    ensures
        b@ == be32(x),
{
    [((x >> 24) & 0xff) as u8, ((x >> 16) & 0xff) as u8, ((x >> 8) & 0xff) as u8, (x & 0xff) as u8]
}

/// A 32-bit word read least significant byte first is the word that was
/// written so.
pub proof fn le32_round_trip(x: u32)
    ensures
        from_le32(le32(x)) == x,
{
    assert(({
        let b0 = (x & 0xff) as u8;
        let b1 = ((x >> 8) & 0xff) as u8;
        let b2 = ((x >> 16) & 0xff) as u8;
        let b3 = ((x >> 24) & 0xff) as u8;
        (b0 as u32) | (b1 as u32) << 8 | (b2 as u32) << 16 | (b3 as u32) << 24
    }) == x) by (bit_vector);
}

/// A 32-bit word read most significant byte first is the word that was
/// written so.
pub proof fn be32_round_trip(x: u32)
    ensures
        from_be32(be32(x)) == x,
{
    le32_round_trip(x);
    let s = be32(x);
    assert(s[0] == le32(x)[3] && s[1] == le32(x)[2] && s[2] == le32(x)[1] && s[3] == le32(x)[0]);
}

} // verus!
