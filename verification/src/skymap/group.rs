//! Groups of control bytes, scanned a word at a time.
//!
//! Every slot of a table has one control byte. A byte with its top bit clear
//! marks an occupied slot and carries seven bits of the key's hash; the two
//! bytes with the top bit set that a table uses are [`EMPTY`] and [`DELETED`].
//! A [`Group`] holds [`WIDTH`] neighbouring control bytes in one word, byte
//! `i` in bits `8 * i .. 8 * i + 8`, and answers questions about all of them
//! at once with a [`Bitmask`].

use vstd::prelude::*;
use crate::skymap::bitmask::{bit_at, Bitmask};

verus! {

/// Control byte of a slot that was never used.
pub const EMPTY: u8 = 0b1111_1111;

/// Control byte of a slot whose entry was removed: a tombstone.
pub const DELETED: u8 = 0b1000_0000;

/// Number of control bytes in a group.
pub const WIDTH: usize = 8;

/// A group of empty control bytes.
pub const EMPTY_GROUP: [u8; 8] = [0xFF, 0xFF, 0xFF, 0xFF, 0xFF, 0xFF, 0xFF, 0xFF];

const LOW_BITS: u64 = 0x7f7f_7f7f_7f7f_7f7f;

const HIGH_BITS: u64 = 0x8080_8080_8080_8080;

const ONES: u64 = 0x0101_0101_0101_0101;

/// Does the control byte mark an occupied slot?
pub open spec fn is_full(b: u8) -> bool {
    b < 0x80
}

/// Does the control byte mark a slot that holds no entry (empty or
/// tombstone)?
pub open spec fn is_special(b: u8) -> bool {
    b >= 0x80
}

/// The byte of a word that starts at bit `s`.
pub open spec fn byte_at(word: u64, s: u64) -> u8 {
    ((word >> s) & 0xff) as u8
}

/// Byte `i` of a word, counted from the low end.
pub open spec fn byte_of(word: u64, i: int) -> u8 {
    byte_at(word, (8 * i) as u64)
}

/// The word whose bytes are `b0` (lowest) to `b7`.
pub open spec fn pack(b0: u8, b1: u8, b2: u8, b3: u8, b4: u8, b5: u8, b6: u8, b7: u8) -> u64 {
    (b0 as u64) | (b1 as u64) << 8 | (b2 as u64) << 16 | (b3 as u64) << 24 | (b4 as u64) << 32 | (
    b5 as u64) << 40 | (b6 as u64) << 48 | (b7 as u64) << 56
}

/// A group of control bytes that can be scanned in parallel.
#[derive(Clone, Copy)]
pub struct Group(u64);

impl View for Group {
    type V = Seq<u8>;

    /// The control bytes of the group, in slot order.
    open spec fn view(&self) -> Seq<u8> {
        Seq::new(8, |i: int| byte_of(self.word(), i))
    }
}

proof fn lemma_pack(b0: u8, b1: u8, b2: u8, b3: u8, b4: u8, b5: u8, b6: u8, b7: u8)
    by (bit_vector)
    ensures
        byte_at(pack(b0, b1, b2, b3, b4, b5, b6, b7), 0) == b0,
        byte_at(pack(b0, b1, b2, b3, b4, b5, b6, b7), 8) == b1,
        byte_at(pack(b0, b1, b2, b3, b4, b5, b6, b7), 16) == b2,
        byte_at(pack(b0, b1, b2, b3, b4, b5, b6, b7), 24) == b3,
        byte_at(pack(b0, b1, b2, b3, b4, b5, b6, b7), 32) == b4,
        byte_at(pack(b0, b1, b2, b3, b4, b5, b6, b7), 40) == b5,
        byte_at(pack(b0, b1, b2, b3, b4, b5, b6, b7), 48) == b6,
        byte_at(pack(b0, b1, b2, b3, b4, b5, b6, b7), 56) == b7,
{
}

/// The word in which the top bit of a byte is set exactly where the byte of
/// `x` is zero.
spec fn zero_bytes(x: u64) -> u64 {
    !((((x & LOW_BITS) + LOW_BITS) as u64) | x | LOW_BITS)
}

proof fn lemma_zero_bytes(x: u64, s: u64, t: u64)
    by (bit_vector)
    requires
        s < 64,
        s % 8 == 0,
        t == s + 7,
    ensures
        (x & LOW_BITS) + LOW_BITS <= 0xffff_ffff_ffff_ffff,
        bit_at(zero_bytes(x), t) <==> byte_at(x, s) == 0,
{
}

/// The word with `b` in each of its bytes.
spec fn repeated(b: u8) -> u64 {
    ((b as u64) * ONES) as u64
}

proof fn lemma_xor_repeat(w: u64, b: u8, s: u64)
    by (bit_vector)
    requires
        s < 64,
        s % 8 == 0,
    ensures
        (b as u64) * ONES <= 0xffff_ffff_ffff_ffff,
        byte_at(repeated(b), s) == b,
        byte_at(w ^ repeated(b), s) == 0 <==> byte_at(w, s) == b,
{
}

proof fn lemma_high_bits(w: u64, s: u64, t: u64)
    by (bit_vector)
    requires
        s < 64,
        s % 8 == 0,
        t == s + 7,
    ensures
        bit_at(w & HIGH_BITS, t) <==> byte_at(w, s) >= 0x80,
        bit_at(w, t) <==> byte_at(w, s) >= 0x80,
{
}

/// The word in which every byte of `w` with the top bit clear has become
/// `0x80` and every other byte `0xff`.
spec fn transformed(w: u64) -> u64 {
    (!(!w & HIGH_BITS) + ((!w & HIGH_BITS) >> 7)) as u64
}

proof fn lemma_transform(w: u64, s: u64)
    by (bit_vector)
    requires
        s < 64,
        s % 8 == 0,
    ensures
        !(!w & HIGH_BITS) + ((!w & HIGH_BITS) >> 7) <= 0xffff_ffff_ffff_ffff,
        byte_at(transformed(w), s) == (if byte_at(w, s) >= 0x80 {
            0xffu8
        } else {
            0x80u8
        }),
{
}

/// The word with `byte` in each of its bytes.
fn repeat(byte: u8) -> (r: u64)
    ensures
        r == repeated(byte),
        forall|i: int| 0 <= i < 8 ==> byte_of(r, i) == byte,
{
    proof {
        lemma_xor_repeat(0, byte, 0);
        let p = repeated(byte);
        assert forall|i: int| 0 <= i < 8 implies byte_of(p, i) == byte by {
            lemma_xor_repeat(0, byte, (8 * i) as u64);
        }
    }
    (byte as u64) * ONES
}

impl Group {
    /// Number of control bytes in a group.
    pub const WIDTH: usize = 8;

    /// The word behind the group.
    pub closed spec fn word(self) -> u64 {
        self.0
    }

    /// Returns a group's worth of empty control bytes.
    pub fn empty_static() -> (r: &'static [u8; 8])
        ensures
            r@.len() == WIDTH,
            forall|i: int| 0 <= i < 8 ==> r@[i] == EMPTY,
    {
        &EMPTY_GROUP
    }

    /// Loads the group that starts at `bytes[offset]`.
    pub fn load_unaligned(bytes: &[u8], offset: usize) -> (g: Group)
        requires
            offset + WIDTH <= bytes@.len(),
        ensures
            g@ == bytes@.subrange(offset as int, offset + WIDTH),
    {
        let b0 = bytes[offset];
        let b1 = bytes[offset + 1];
        let b2 = bytes[offset + 2];
        let b3 = bytes[offset + 3];
        let b4 = bytes[offset + 4];
        let b5 = bytes[offset + 5];
        let b6 = bytes[offset + 6];
        let b7 = bytes[offset + 7];
        let w = (b0 as u64) | (b1 as u64) << 8 | (b2 as u64) << 16 | (b3 as u64) << 24 | (b4 as u64)
            << 32 | (b5 as u64) << 40 | (b6 as u64) << 48 | (b7 as u64) << 56;
        let g = Group(w);
        proof {
            lemma_pack(b0, b1, b2, b3, b4, b5, b6, b7);
            assert(g@ =~= bytes@.subrange(offset as int, offset + WIDTH));
        }
        g
    }

    /// Loads the group that starts at `bytes[offset]`, where `offset` is a
    /// multiple of the group width.
    pub fn load_aligned(bytes: &[u8], offset: usize) -> (g: Group)
        requires
            offset % WIDTH == 0,
            offset + WIDTH <= bytes@.len(),
        ensures
            g@ == bytes@.subrange(offset as int, offset + WIDTH),
    {
        Group::load_unaligned(bytes, offset)
    }

    /// Returns byte `i` of the group.
    pub fn byte(self, i: usize) -> (r: u8)
        requires
            i < WIDTH,
        ensures
            r == self@[i as int],
    {
        let w = self.0;
        let s: u64 = (i * 8) as u64;
        assert((w >> s) & 0xff < 0x100) by (bit_vector);
        ((w >> s) & 0xff) as u8
    }

    /// Stores the bytes of the group at `bytes[offset..]`, where `offset` is
    /// a multiple of the group width.
    pub fn store_aligned(self, bytes: &mut Vec<u8>, offset: usize)
        requires
            offset % WIDTH == 0,
            offset + WIDTH <= old(bytes)@.len(),
        ensures
            final(bytes)@.len() == old(bytes)@.len(),
            final(bytes)@.subrange(offset as int, offset + WIDTH) == self@,
            forall|i: int|
                0 <= i < old(bytes)@.len() && !(offset <= i < offset + WIDTH) ==> final(bytes)@[i]
                    == old(bytes)@[i],
    {
        let n = bytes.len();
        let mut l: usize = 0;
        while l < WIDTH
            invariant
                l <= WIDTH,
                offset + WIDTH <= n,
                n == bytes@.len(),
                bytes@.len() == old(bytes)@.len(),
                forall|i: int| 0 <= i < l ==> bytes@[offset + i] == self@[i],
                forall|i: int|
                    0 <= i < bytes@.len() && !(offset <= i < offset + WIDTH) ==> bytes@[i] == old(
                        bytes,
                    )@[i],
            decreases WIDTH - l,
        {
            bytes.set(offset + l, self.byte(l));
            l = l + 1;
        }
        assert(bytes@.subrange(offset as int, offset + WIDTH) =~= self@);
    }

    /// Returns a bitmask of the bytes of the group that equal `byte`.
    pub fn match_byte(self, byte: u8) -> (r: Bitmask)
        ensures
            forall|i: int| #[trigger] r@.contains(i) <==> 0 <= i < 8 && self@[i] == byte,
    {
        let w = self.0;
        let x = w ^ repeat(byte);
        proof {
            lemma_zero_bytes(x, 0, 7);
        }
        let m = !(((x & LOW_BITS) + LOW_BITS) | x | LOW_BITS);
        let r = Bitmask::new(m);
        proof {
            assert(m == zero_bytes(x));
            assert forall|i: int| #[trigger] r@.contains(i) <==> 0 <= i < 8 && self@[i] == byte by {
                if 0 <= i < 8 {
                    let s = (8 * i) as u64;
                    let t = (8 * i + 7) as u64;
                    lemma_zero_bytes(x, s, t);
                    lemma_xor_repeat(w, byte, s);
                }
            }
        }
        r
    }

    /// Returns a bitmask of the bytes of the group that are [`EMPTY`].
    pub fn match_empty(self) -> (r: Bitmask)
        ensures
            forall|i: int| #[trigger] r@.contains(i) <==> 0 <= i < 8 && self@[i] == EMPTY,
    {
        self.match_byte(EMPTY)
    }

    /// Returns a bitmask of the bytes of the group that mark a slot without an
    /// entry: those with the top bit set.
    pub fn match_empty_or_deleted(self) -> (r: Bitmask)
        ensures
            forall|i: int| #[trigger] r@.contains(i) <==> 0 <= i < 8 && is_special(self@[i]),
    {
        let w = self.0;
        let r = Bitmask::new(w & HIGH_BITS);
        proof {
            assert forall|i: int| #[trigger] r@.contains(i) <==> 0 <= i < 8 && is_special(self@[i]) by {
                if 0 <= i < 8 {
                    lemma_high_bits(w, (8 * i) as u64, (8 * i + 7) as u64);
                }
            }
        }
        r
    }

    /// Returns a bitmask of the bytes of the group that mark an occupied slot.
    pub fn match_full(self) -> (r: Bitmask)
        ensures
            forall|i: int| #[trigger] r@.contains(i) <==> 0 <= i < 8 && is_full(self@[i]),
    {
        self.match_empty_or_deleted().invert()
    }

    /// Returns the group in which every occupied byte has become a tombstone
    /// and every other byte has become empty.
    pub fn transform_full_to_deleted_and_special_to_empty(self) -> (r: Group)
        ensures
            forall|i: int|
                0 <= i < 8 ==> #[trigger] r@[i] == (if is_special(self@[i]) {
                    EMPTY
                } else {
                    DELETED
                }),
    {
        let w = self.0;
        proof {
            lemma_transform(w, 0);
        }
        let full = !w & HIGH_BITS;
        let r = Group(!full + (full >> 7));
        proof {
            assert(r.0 == transformed(w));
            assert forall|i: int| 0 <= i < 8 implies #[trigger] r@[i] == (if is_special(self@[i]) {
                EMPTY
            } else {
                DELETED
            }) by {
                lemma_transform(w, (8 * i) as u64);
            }
        }
        r
    }
}

} // verus!
