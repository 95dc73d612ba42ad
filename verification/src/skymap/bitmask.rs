//! Bitmasks over the lanes of a control-byte group.
//!
//! A group is scanned a word at a time, so the answer to "which bytes match?"
//! comes back as a word too: lane `i` of the group is reported in bit
//! `8 * i + 7`, the top bit of byte `i`. All other bits are zero.

use vstd::prelude::*;

verus! {

/// The machine word a bitmask is kept in.
pub type BitmaskWord = u64;

/// Distance, in bits, between the bits of two neighbouring lanes.
pub const BITMASK_STRIDE: usize = 8;

/// Every bit that can be set in a bitmask: the top bit of each byte.
pub const BITMASK_MASK: u64 = 0x8080_8080_8080_8080;

/// Number of lanes in a bitmask.
pub const LANES: usize = 8;

/// Is bit `s` of `word` set?
pub open spec fn bit_at(word: u64, s: u64) -> bool {
    (word >> s) & 1 == 1
}

/// Is the bit of lane `i` set in `word`?
pub open spec fn lane_set(word: u64, i: int) -> bool {
    0 <= i < 8 && bit_at(word, (8 * i + 7) as u64)
}

/// Is `s` the position of a lane's bit?
pub open spec fn is_lane_bit(s: u64) -> bool {
    s < 64 && s % 8 == 7
}

const ONE_PER_BYTE: u64 = 0x0101_0101_0101_0101;

const DIAGONAL: u64 = 0x8040_2010_0804_0201;

const LOW_BITS: u64 = 0x7f7f_7f7f_7f7f_7f7f;

/// The word that has the top bit of byte `i` set where bit `i` of `bits` is
/// set, and no other bit.
spec fn spread(bits: u8) -> u64 {
    let one_per_byte = (((bits as u64) * ONE_PER_BYTE) as u64) & DIAGONAL;
    ((((one_per_byte & LOW_BITS) + LOW_BITS) as u64) | one_per_byte) & BITMASK_MASK
}

proof fn lemma_spread(bits: u8, i: u8, s: u64)
    by (bit_vector)
    requires
        i < 8,
        s == 8 * i + 7,
    ensures
        (bits as u64) * ONE_PER_BYTE <= 0xffff_ffff_ffff_ffff,
        ((((bits as u64) * ONE_PER_BYTE) as u64) & DIAGONAL & LOW_BITS) + LOW_BITS
            <= 0xffff_ffff_ffff_ffff,
        bit_at(spread(bits), s) <==> (bits >> i) & 1 == 1,
{
}

/// A set of lanes, kept as one word.
#[derive(Clone, Copy)]
pub struct Bitmask(u64);

impl View for Bitmask {
    type V = Set<int>;

    /// The lanes that are set.
    open spec fn view(&self) -> Set<int> {
        Set::new(|i: int| lane_set(self.word(), i))
    }
}

/// An iterator over the lanes of a bitmask, lowest first.
pub struct BitmaskIterator(Bitmask);

impl Bitmask {
    #[verifier::type_invariant]
    spec fn only_lane_bits(self) -> bool {
        self.0 & !BITMASK_MASK == 0
    }

    /// The word behind the mask.
    pub closed spec fn word(self) -> u64 {
        self.0
    }

    /// Is `i` the lowest lane of the mask?
    pub open spec fn is_lowest(self, i: int) -> bool {
        self@.contains(i) && forall|j: int| 0 <= j < i ==> !self@.contains(j)
    }

    /// Is `i` the highest lane of the mask?
    pub open spec fn is_highest(self, i: int) -> bool {
        self@.contains(i) && forall|j: int| i < j < 8 ==> !self@.contains(j)
    }

    /// No lane is set.
    pub open spec fn is_empty(self) -> bool {
        forall|i: int| !self@.contains(i)
    }

    /// Only the top bit of each byte is ever set, and a mask without bits has
    /// no lanes.
    proof fn lemma_word(self)
        requires
            self.word() & !BITMASK_MASK == 0,
        ensures
            self.word() == 0 <==> self.is_empty(),
            forall|i: int| self@.contains(i) ==> 0 <= i < 8,
    {
        let w = self.word();
        if w != 0 {
            assert(lane_set(w, 0) || lane_set(w, 1) || lane_set(w, 2) || lane_set(w, 3)
                || lane_set(w, 4) || lane_set(w, 5) || lane_set(w, 6) || lane_set(w, 7))
                by (bit_vector)
                requires
                    w != 0,
                    w & !BITMASK_MASK == 0,
            ;
            assert(self@.contains(0) || self@.contains(1) || self@.contains(2) || self@.contains(3)
                || self@.contains(4) || self@.contains(5) || self@.contains(6) || self@.contains(
                7,
            ));
        } else {
            assert forall|i: int| !self@.contains(i) by {
                if 0 <= i < 8 {
                    let s = (8 * i + 7) as u64;
                    assert((0u64 >> s) & 1 == 0) by (bit_vector);
                }
            }
        }
    }

    /// Makes a bitmask of the lane bits of `word`; every other bit is dropped.
    pub fn new(word: u64) -> (r: Bitmask)
        ensures
            r.word() == word & BITMASK_MASK,
            forall|i: int| #[trigger] r@.contains(i) <==> lane_set(word, i),
    {
        let w = word & BITMASK_MASK;
        assert(w & !BITMASK_MASK == 0) by (bit_vector)
            requires
                w == word & BITMASK_MASK,
        ;
        assert forall|i: int| lane_set(w, i) <==> lane_set(word, i) by {
            if 0 <= i < 8 {
                let s = (8 * i + 7) as u64;
                assert((w >> s) & 1 == (word >> s) & 1) by (bit_vector)
                    requires
                        w == word & BITMASK_MASK,
                        is_lane_bit(s),
                ;
            }
        }
        Bitmask(w)
    }

    /// Makes a bitmask of the low eight bits of a scan that reports lane `i`
    /// in bit `i`.
    pub fn from_lane_bits(bits: u8) -> (r: Bitmask)
        ensures
            forall|i: int| #[trigger] r@.contains(i) <==> 0 <= i < 8 && (bits >> (i as u8)) & 1 == 1,
    {
        proof {
            lemma_spread(bits, 0, 7);
        }
        let one_per_byte = ((bits as u64) * ONE_PER_BYTE) & DIAGONAL;
        let word = (((one_per_byte & LOW_BITS) + LOW_BITS) | one_per_byte) & BITMASK_MASK;
        let r = Bitmask::new(word);
        proof {
            assert(word == spread(bits));
            assert forall|i: int| #[trigger]
                r@.contains(i) <==> 0 <= i < 8 && (bits >> (i as u8)) & 1 == 1 by {
                if 0 <= i < 8 {
                    lemma_spread(bits, i as u8, (8 * i + 7) as u64);
                }
            }
        }
        r
    }

    /// Returns the word behind the mask: the bit of lane `i` is bit
    /// `8 * i + 7`, and no other bit is set.
    pub fn to_word(self) -> (r: u64)
        ensures
            r == self.word(),
            r & !BITMASK_MASK == 0,
    {
        proof {
            use_type_invariant(&self);
        }
        self.0
    }

    /// Returns the mask with every lane inverted.
    pub fn invert(self) -> (r: Bitmask)
        ensures
            forall|i: int| #[trigger] r@.contains(i) <==> 0 <= i < 8 && !self@.contains(i),
    {
        let w = self.0;
        let v = w ^ BITMASK_MASK;
        proof {
            use_type_invariant(&self);
            assert(v & !BITMASK_MASK == 0) by (bit_vector)
                requires
                    v == w ^ BITMASK_MASK,
                    w & !BITMASK_MASK == 0,
            ;
            assert forall|i: int| lane_set(v, i) <==> 0 <= i < 8 && !lane_set(w, i) by {
                if 0 <= i < 8 {
                    let s = (8 * i + 7) as u64;
                    assert(((v >> s) & 1 == 1) <==> !((w >> s) & 1 == 1)) by (bit_vector)
                        requires
                            v == w ^ BITMASK_MASK,
                            is_lane_bit(s),
                    ;
                }
            }
        }
        Bitmask(v)
    }

    /// Flips lane `index`, and says whether the lane was set before.
    pub fn flip(&mut self, index: usize) -> (r: bool)
        requires
            index < LANES,
        ensures
            r == old(self)@.contains(index as int),
            forall|i: int|
                #[trigger] final(self)@.contains(i) <==> (if i == index {
                    !old(self)@.contains(i)
                } else {
                    old(self)@.contains(i)
                }),
    {
        let w = self.0;
        let s: u64 = (index * BITMASK_STRIDE + BITMASK_STRIDE - 1) as u64;
        let bit: u64 = 1u64 << s;
        let v = w ^ bit;
        proof {
            use_type_invariant(&*self);
            assert(v & !BITMASK_MASK == 0) by (bit_vector)
                requires
                    v == w ^ bit,
                    bit == 1u64 << s,
                    is_lane_bit(s),
                    w & !BITMASK_MASK == 0,
            ;
            assert((v & bit == 0) <==> ((w >> s) & 1 == 1)) by (bit_vector)
                requires
                    v == w ^ bit,
                    bit == 1u64 << s,
                    is_lane_bit(s),
            ;
            assert forall|i: int|
                lane_set(v, i) <==> (if i == index {
                    !lane_set(w, i)
                } else {
                    lane_set(w, i)
                }) by {
                if 0 <= i < 8 {
                    let t = (8 * i + 7) as u64;
                    assert(((v >> t) & 1 == 1) <==> (if t == s {
                        !((w >> t) & 1 == 1)
                    } else {
                        (w >> t) & 1 == 1
                    })) by (bit_vector)
                        requires
                            v == w ^ bit,
                            bit == 1u64 << s,
                            is_lane_bit(s),
                            is_lane_bit(t),
                    ;
                }
            }
        }
        *self = Bitmask(v);
        v & bit == 0
    }

    /// Checks if any lane is set.
    pub fn any_bit_set(self) -> (r: bool)
        ensures
            r <==> !self.is_empty(),
    {
        proof {
            use_type_invariant(&self);
            self.lemma_word();
        }
        self.0 != 0
    }

    /// Returns the number of lanes below the lowest lane that is set: the
    /// lowest lane itself, or the number of lanes if the mask is empty.
    pub fn trailing_zeros(self) -> (r: usize)
        ensures
            self.is_empty() ==> r == LANES,
            !self.is_empty() ==> self.is_lowest(r as int),
    {
        let w = self.0;
        let tz = w.trailing_zeros();
        proof {
            use_type_invariant(&self);
            self.lemma_word();
            vstd::std_specs::bits::axiom_u64_trailing_zeros(w);
            if w != 0 {
                let t = tz as u64;
                assert(is_lane_bit(t)) by (bit_vector)
                    requires
                        (w >> t) & 1 == 1,
                        t < 64,
                        w & !BITMASK_MASK == 0,
                ;
                let r = (tz / 8) as int;
                assert(8 * r + 7 == tz);
                assert(lane_set(w, r));
                assert forall|j: int| 0 <= j < r implies !lane_set(w, j) by {
                    let s = (8 * j + 7) as u64;
                    assert((w >> s) & 1 == 0);
                }
            }
        }
        tz as usize / BITMASK_STRIDE
    }

    /// Returns the number of lanes above the highest lane that is set, or the
    /// number of lanes if the mask is empty.
    pub fn leading_zeros(self) -> (r: usize)
        ensures
            self.is_empty() ==> r == LANES,
            !self.is_empty() ==> r < LANES && self.is_highest(LANES - 1 - r),
    {
        let w = self.0;
        let lz = w.leading_zeros();
        proof {
            use_type_invariant(&self);
            self.lemma_word();
            vstd::std_specs::bits::axiom_u64_leading_zeros(w);
            if w != 0 {
                let t = (63 - lz) as u64;
                assert((w >> t) & 1 == 1) by (bit_vector)
                    requires
                        (w >> t) & 1 != 0,
                ;
                assert(is_lane_bit(t)) by (bit_vector)
                    requires
                        (w >> t) & 1 == 1,
                        t < 64,
                        w & !BITMASK_MASK == 0,
                ;
                let r = (lz / 8) as int;
                let h = 7 - r;
                assert(8 * h + 7 == t);
                assert(lane_set(w, h));
                assert forall|j: int| h < j < 8 implies !lane_set(w, j) by {
                    let s = (8 * j + 7) as u64;
                    assert((w >> s) & 1 == 0);
                }
            }
        }
        lz as usize / BITMASK_STRIDE
    }

    /// Returns the lowest lane of a mask that is not empty.
    pub fn lowest_set_bit_nonzero(self) -> (r: usize)
        requires
            !self.is_empty(),
        ensures
            self.is_lowest(r as int),
    {
        self.trailing_zeros()
    }

    /// Returns the lowest lane that is set, if there is one.
    pub fn lowest_set_bit(self) -> (r: Option<usize>)
        ensures
            match r {
                Some(i) => self.is_lowest(i as int),
                None => self.is_empty(),
            },
    {
        if self.any_bit_set() {
            Some(self.lowest_set_bit_nonzero())
        } else {
            None
        }
    }

    /// Returns the mask without its lowest lane. An empty mask stays empty.
    pub fn remove_lowest_bit(self) -> (r: Bitmask)
        ensures
            forall|i: int| #[trigger] r@.contains(i) <==> self@.contains(i) && !self.is_lowest(i),
    {
        let w = self.0;
        let v = w & w.wrapping_sub(1);
        proof {
            use_type_invariant(&self);
            self.lemma_word();
            assert(v & !BITMASK_MASK == 0) by (bit_vector)
                requires
                    v == w & vstd::wrapping::u64_specs::wrapping_sub(w, 1),
                    w & !BITMASK_MASK == 0,
            ;
            vstd::std_specs::bits::axiom_u64_trailing_zeros(w);
            let tz = vstd::std_specs::bits::u64_trailing_zeros(w) as u64;
            assert forall|i: int| lane_set(v, i) <==> lane_set(w, i) && !self.is_lowest(i) by {
                if 0 <= i < 8 {
                    let s = (8 * i + 7) as u64;
                    if w != 0 {
                        // clearing the lowest bit clears bit `tz` and no other
                        assert(((v >> s) & 1 == 1) <==> ((w >> s) & 1 == 1 && s != tz))
                            by (bit_vector)
                            requires
                                v == w & vstd::wrapping::u64_specs::wrapping_sub(w, 1),
                                s < 64,
                                tz < 64,
                                (w >> tz) & 1 == 1,
                                w << ((64 - tz) as u64) == 0,
                        ;
                        if s == tz {
                            assert forall|j: int| 0 <= j < i implies !lane_set(w, j) by {
                                let q = (8 * j + 7) as u64;
                                assert((w >> q) & 1 == 0);
                            }
                            assert(self.is_lowest(i));
                        } else if lane_set(w, i) {
                            if s < tz {
                                assert((w >> s) & 1 == 0);
                            } else {
                                assert(is_lane_bit(tz)) by (bit_vector)
                                    requires
                                        (w >> tz) & 1 == 1,
                                        tz < 64,
                                        w & !BITMASK_MASK == 0,
                                ;
                                let l = (tz / 8) as int;
                                assert(8 * l + 7 == tz);
                                assert(lane_set(w, l));
                                assert(self@.contains(l) && l < i);
                            }
                        }
                    } else {
                        assert(v == 0) by (bit_vector)
                            requires
                                v == w & vstd::wrapping::u64_specs::wrapping_sub(w, 1),
                                w == 0,
                        ;
                    }
                }
            }
        }
        Bitmask(v)
    }

    /// Starts an iteration over the lanes of the mask, lowest first.
    pub fn into_iter(self) -> (r: BitmaskIterator)
        ensures
            r.rest() == self,
    {
        BitmaskIterator(self)
    }

    /// Lists the lanes of the mask, lowest first.
    pub fn lanes(self) -> (r: Vec<usize>)
        ensures
            forall|i: int| self@.contains(i) <==> exists|k: int| 0 <= k < r.len() && r[k] == i,
            forall|k: int, l: int| 0 <= k < l < r.len() ==> r[k] < r[l],
    {
        let mut out: Vec<usize> = Vec::new();
        let mut it = self.into_iter();
        proof {
            self.lemma_lanes_bounded();
        }
        loop
            invariant
                forall|i: int|
                    self@.contains(i) <==> it.rest()@.contains(i) || exists|k: int|
                        0 <= k < out.len() && out[k] == i,
                forall|k: int, l: int| 0 <= k < l < out.len() ==> out[k] < out[l],
                forall|k: int, i: int|
                    0 <= k < out.len() && it.rest()@.contains(i) ==> out[k] < i,
                out.len() + it.rest()@.len() <= 8,
                it.rest()@.finite(),
            ensures
                forall|i: int|
                    self@.contains(i) <==> exists|k: int| 0 <= k < out.len() && out[k] == i,
                forall|k: int, l: int| 0 <= k < l < out.len() ==> out[k] < out[l],
            decreases it.rest()@.len(),
        {
            let ghost before = it.rest();
            let ghost prev = out@;
            match it.next() {
                Some(i) => {
                    out.push(i);
                    proof {
                        assert(out[prev.len() as int] == i);
                        assert forall|x: int|
                            self@.contains(x) <==> it.rest()@.contains(x) || exists|k: int|
                                0 <= k < out.len() && out[k] == x by {
                            if x == i as int {
                            } else if exists|k: int| 0 <= k < prev.len() && prev[k] == x {
                                let k = choose|k: int| 0 <= k < prev.len() && prev[k] == x;
                                assert(out[k] == x);
                            } else if exists|k: int| 0 <= k < out.len() && out[k] == x {
                                let k = choose|k: int| 0 <= k < out.len() && out[k] == x;
                                assert(k < prev.len());
                                assert(prev[k] == x);
                            }
                        }
                    }
                },
                None => {
                    break ;
                },
            }
        }
        out
    }

    /// A mask has at most as many lanes as a group has bytes.
    pub proof fn lemma_lanes_bounded(self)
        ensures
            self@.finite(),
            self@.len() <= 8,
            forall|i: int| self@.contains(i) ==> 0 <= i < 8,
    {
        let all = vstd::set_lib::set_int_range(0, 8);
        vstd::set_lib::lemma_int_range(0, 8);
        assert(self@.subset_of(all));
        vstd::set_lib::lemma_len_subset(self@, all);
    }
}

impl BitmaskIterator {
    /// The lanes that are still to come.
    pub closed spec fn rest(self) -> Bitmask {
        self.0
    }

    /// Returns the lowest lane that is still to come, and drops it from the
    /// iteration; `None` once every lane has been given out.
    pub fn next(&mut self) -> (r: Option<usize>)
        ensures
            match r {
                Some(i) => {
                    &&& i < LANES
                    &&& old(self).rest().is_lowest(i as int)
                    &&& final(self).rest()@ == old(self).rest()@.remove(i as int)
                    &&& final(self).rest()@.len() < old(self).rest()@.len()
                },
                None => old(self).rest().is_empty() && final(self).rest() == old(self).rest(),
            },
    {
        match self.0.lowest_set_bit() {
            Some(bit) => {
                let ghost before = self.0;
                self.0 = self.0.remove_lowest_bit();
                proof {
                    before.lemma_lanes_bounded();
                    assert(before.is_lowest(bit as int));
                    assert forall|j: int|
                        self.0@.contains(j) <==> before@.contains(j) && j != bit by {
                        assert(self.0@.contains(j) <==> before@.contains(j) && !before.is_lowest(j));
                        if before@.contains(j) && before.is_lowest(j) && j != bit {
                            if j < bit {
                                assert(!before@.contains(j));
                            } else {
                                assert(!before@.contains(bit as int));
                            }
                        }
                    }
                    assert(self.0@ =~= before@.remove(bit as int));
                }
                Some(bit)
            },
            None => None,
        }
    }
}

} // verus!
