//! Fixed-layout binary encoding used by the typed views onto a cached block.
//!
//! A typed value lives in a block as a run of bytes with a fixed
//! little-endian layout; these functions are the boundary between the raw
//! bytes and the value, and the round-trip lemmas tie the two directions
//! together.

use vstd::prelude::*;

verus! {

/// The value that eight little-endian bytes denote.
pub open spec fn le64_decode(s: Seq<u8>) -> int
    recommends
        s.len() == 8,
{
    s[0] + 0x100 * s[1] + 0x10000 * s[2] + 0x1000000 * s[3] + 0x100000000 * s[4]
        + 0x10000000000 * s[5] + 0x1000000000000 * s[6] + 0x100000000000000 * s[7]
}

/// The eight little-endian bytes that denote `v`.
pub open spec fn le64_encode(v: u64) -> Seq<u8> {
    seq![
        (v % 0x100) as u8,
        ((v / 0x100) % 0x100) as u8,
        ((v / 0x10000) % 0x100) as u8,
        ((v / 0x1000000) % 0x100) as u8,
        ((v / 0x100000000) % 0x100) as u8,
        ((v / 0x10000000000) % 0x100) as u8,
        ((v / 0x1000000000000) % 0x100) as u8,
        ((v / 0x100000000000000) % 0x100) as u8,
    ]
}

/// Decoding the encoding of `v` gives `v` back.
pub proof fn lemma_le64_round_trip(v: u64)
    ensures
        le64_decode(le64_encode(v)) == v,
{
    assert((v % 0x100) as u8 + 0x100 * (((v / 0x100) % 0x100) as u8) + 0x10000 * (((v
        / 0x10000) % 0x100) as u8) + 0x1000000 * (((v / 0x1000000) % 0x100) as u8)
        + 0x100000000 * (((v / 0x100000000) % 0x100) as u8) + 0x10000000000 * (((v
        / 0x10000000000) % 0x100) as u8) + 0x1000000000000 * (((v / 0x1000000000000)
        % 0x100) as u8) + 0x100000000000000 * (((v / 0x100000000000000) % 0x100) as u8)
        == v) by (bit_vector);
}

/// The executable decoder: combines eight bytes, low byte first.
pub fn le64_from_bytes(b0: u8, b1: u8, b2: u8, b3: u8, b4: u8, b5: u8, b6: u8, b7: u8) -> (r:
    u64)
    ensures
        r == le64_decode(seq![b0, b1, b2, b3, b4, b5, b6, b7]),
{
    let r = b0 as u64 + 0x100u64 * b1 as u64 + 0x10000u64 * b2 as u64 + 0x1000000u64 * b3 as u64
        + 0x100000000u64 * b4 as u64 + 0x10000000000u64 * b5 as u64 + 0x1000000000000u64
        * b6 as u64 + 0x100000000000000u64 * b7 as u64;
    r
}

/// The executable encoder: the byte of `v` at position `i` of its layout.
pub fn le64_byte(v: u64, i: usize) -> (r: u8)
    requires
        i < 8,
    ensures
        r == le64_encode(v)[i as int],
{
    if i == 0 {
        (v % 0x100) as u8
    } else if i == 1 {
        ((v / 0x100) % 0x100) as u8
    } else if i == 2 {
        ((v / 0x10000) % 0x100) as u8
    } else if i == 3 {
        ((v / 0x1000000) % 0x100) as u8
    } else if i == 4 {
        ((v / 0x100000000) % 0x100) as u8
    } else if i == 5 {
        ((v / 0x10000000000) % 0x100) as u8
    } else if i == 6 {
        ((v / 0x1000000000000) % 0x100) as u8
    } else {
        ((v / 0x100000000000000) % 0x100) as u8
    }
}

} // verus!
