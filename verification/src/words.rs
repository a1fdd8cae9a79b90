//! Byte-level views of 32-bit bus words.
//!
//! The bus moves whole 32-bit words; the debugger works in bytes.  These
//! functions fix the byte order once for the whole crate: within a word the
//! bytes are little-endian (byte 0 is the least significant), and on the bus
//! wire protocol a word travels most-significant byte first.

use vstd::prelude::*;

verus! {

/// Byte `k` of the word `w`, little-endian: byte 0 is the least significant.
pub open spec fn word_byte(w: u32, k: int) -> u8 {
    if k == 0 {
        (w & 0xff) as u8
    } else if k == 1 {
        ((w >> 8) & 0xff) as u8
    } else if k == 2 {
        ((w >> 16) & 0xff) as u8
    } else {
        ((w >> 24) & 0xff) as u8
    }
}

/// The word `w` with byte `k` replaced by `b` and every other byte kept.
pub open spec fn spec_set_byte(w: u32, k: int, b: u8) -> u32 {
    if k == 0 {
        (w & 0xffffff00) | (b as u32)
    } else if k == 1 {
        (w & 0xffff00ff) | ((b as u32) << 8)
    } else if k == 2 {
        (w & 0xff00ffff) | ((b as u32) << 16)
    } else {
        (w & 0x00ffffff) | ((b as u32) << 24)
    }
}

/// The word whose bytes, least significant first, are `b0 b1 b2 b3`.
pub open spec fn word_from_le_bytes(b0: u8, b1: u8, b2: u8, b3: u8) -> u32 {
    (b0 as u32) | ((b1 as u32) << 8) | ((b2 as u32) << 16) | ((b3 as u32) << 24)
}

/// The word whose bytes, most significant first, are `b0 b1 b2 b3`.
pub open spec fn word_from_be_bytes(b0: u8, b1: u8, b2: u8, b3: u8) -> u32 {
    word_from_le_bytes(b3, b2, b1, b0)
}

/// The wire image of `w` on the bus protocol: most significant byte first.
pub open spec fn be_bytes(w: u32) -> Seq<u8> {
    seq![word_byte(w, 3), word_byte(w, 2), word_byte(w, 1), word_byte(w, 0)]
}

/// The in-memory image of `w`: least significant byte first.
pub open spec fn le_bytes(w: u32) -> Seq<u8> {
    seq![word_byte(w, 0), word_byte(w, 1), word_byte(w, 2), word_byte(w, 3)]
}

/// Replacing byte `k` sets that byte and leaves the other three unchanged.
pub proof fn lemma_set_byte(w: u32, k: int, b: u8)
    requires
        0 <= k < 4,
    ensures
        word_byte(spec_set_byte(w, k, b), k) == b,
        forall|j: int| 0 <= j < 4 && j != k ==> word_byte(spec_set_byte(w, k, b), j) == word_byte(w, j),
{
    if k == 0 {
        let s = (w & 0xffffff00) | (b as u32);
        assert((s & 0xff) as u8 == b && (s >> 8) & 0xff == (w >> 8) & 0xff && (s >> 16) & 0xff == (w
            >> 16) & 0xff && (s >> 24) & 0xff == (w >> 24) & 0xff) by (bit_vector)
            requires
                s == (w & 0xffffff00) | (b as u32),
        ;
    } else if k == 1 {
        let s = (w & 0xffff00ff) | ((b as u32) << 8);
        assert(((s >> 8) & 0xff) as u8 == b && s & 0xff == w & 0xff && (s >> 16) & 0xff == (w >> 16)
            & 0xff && (s >> 24) & 0xff == (w >> 24) & 0xff) by (bit_vector)
            requires
                s == (w & 0xffff00ff) | ((b as u32) << 8),
        ;
    } else if k == 2 {
        let s = (w & 0xff00ffff) | ((b as u32) << 16);
        assert(((s >> 16) & 0xff) as u8 == b && s & 0xff == w & 0xff && (s >> 8) & 0xff == (w >> 8)
            & 0xff && (s >> 24) & 0xff == (w >> 24) & 0xff) by (bit_vector)
            requires
                s == (w & 0xff00ffff) | ((b as u32) << 16),
        ;
    } else {
        let s = (w & 0x00ffffff) | ((b as u32) << 24);
        assert(((s >> 24) & 0xff) as u8 == b && s & 0xff == w & 0xff && (s >> 8) & 0xff == (w >> 8)
            & 0xff && (s >> 16) & 0xff == (w >> 16) & 0xff) by (bit_vector)
            requires
                s == (w & 0x00ffffff) | ((b as u32) << 24),
        ;
    }
}

/// Assembling a word from four bytes and taking a byte back are inverses.
pub proof fn lemma_word_from_le_bytes(b0: u8, b1: u8, b2: u8, b3: u8)
    ensures
        word_byte(word_from_le_bytes(b0, b1, b2, b3), 0) == b0,
        word_byte(word_from_le_bytes(b0, b1, b2, b3), 1) == b1,
        word_byte(word_from_le_bytes(b0, b1, b2, b3), 2) == b2,
        word_byte(word_from_le_bytes(b0, b1, b2, b3), 3) == b3,
{
    let w = (b0 as u32) | ((b1 as u32) << 8) | ((b2 as u32) << 16) | ((b3 as u32) << 24);
    assert((w & 0xff) as u8 == b0 && ((w >> 8) & 0xff) as u8 == b1 && ((w >> 16) & 0xff) as u8 == b2
        && ((w >> 24) & 0xff) as u8 == b3) by (bit_vector)
        requires
            w == (b0 as u32) | ((b1 as u32) << 8) | ((b2 as u32) << 16) | ((b3 as u32) << 24),
    ;
}

/// Byte `k` of `w`, executable form.
pub fn get_byte(w: u32, k: usize) -> (r: u8)
    requires
        k < 4,
    ensures
        r == word_byte(w, k as int),
{
    if k == 0 {
        proof {
            assert(w & 0xff < 256) by (bit_vector);
        }
        (w & 0xff) as u8
    } else if k == 1 {
        proof {
            assert((w >> 8) & 0xff < 256) by (bit_vector);
        }
        ((w >> 8) & 0xff) as u8
    } else if k == 2 {
        proof {
            assert((w >> 16) & 0xff < 256) by (bit_vector);
        }
        ((w >> 16) & 0xff) as u8
    } else {
        proof {
            assert((w >> 24) & 0xff < 256) by (bit_vector);
        }
        ((w >> 24) & 0xff) as u8
    }
}

/// The word `w` with byte `k` replaced by `b`, executable form.
pub fn set_byte(w: u32, k: usize, b: u8) -> (r: u32)
    requires
        k < 4,
    ensures
        r == spec_set_byte(w, k as int, b),
{
    if k == 0 {
        (w & 0xffffff00) | (b as u32)
    } else if k == 1 {
        (w & 0xffff00ff) | ((b as u32) << 8)
    } else if k == 2 {
        (w & 0xff00ffff) | ((b as u32) << 16)
    } else {
        (w & 0x00ffffff) | ((b as u32) << 24)
    }
}

/// Assemble a word from its bytes, least significant first, executable form.
pub fn word_of_le_bytes(b0: u8, b1: u8, b2: u8, b3: u8) -> (r: u32)
    ensures
        r == word_from_le_bytes(b0, b1, b2, b3),
{
    (b0 as u32) | ((b1 as u32) << 8) | ((b2 as u32) << 16) | ((b3 as u32) << 24)
}

/// Assemble a word from its bytes, most significant first, executable form.
pub fn word_of_be_bytes(b0: u8, b1: u8, b2: u8, b3: u8) -> (r: u32)
    ensures
        r == word_from_be_bytes(b0, b1, b2, b3),
{
    word_of_le_bytes(b3, b2, b1, b0)
}

} // verus!
