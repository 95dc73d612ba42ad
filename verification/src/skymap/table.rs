//! The probing table: an open-addressing hash table from byte strings to
//! values.
//!
//! Every slot has a control byte and may hold an entry. A lookup hashes the
//! key, starts at the group the hash selects and follows the triangular probe
//! sequence; in each group it compares the key with the entries whose control
//! byte carries the key's tag, and it stops at the first group that still has
//! an empty byte. Removing an entry leaves a tombstone, so that the probe
//! sequences that run over the slot stay unbroken. When too many slots are in
//! use the table is rebuilt into new arenas, which drops the tombstones.

use vstd::prelude::*;
use crate::skymap::bitmask::Bitmask;
use crate::skymap::group::{Group, EMPTY, DELETED, WIDTH, is_full, is_special};
use crate::skymap::hash::{hash_bytes, h1, h2, spec_hash, spec_h1, spec_h2, lemma_h2_is_tag};
use crate::skymap::mapalloc::{self_allocate, Allocator, Global, MAX_ARENA, empty_arena};
use crate::skymap::probe::{
    ProbeSeq,
    is_pow2,
    probe_group,
    lemma_probe_covers,
    lemma_probe_step,
    lemma_pow2_gap,
    lemma_pow2_double,
};

verus! {

/// The largest number of groups a table grows to.
pub const MAX_GROUPS: usize = 0x0400_0000;

/// The largest number of entries a table holds: seven eighths of the slots
/// of the largest table.
pub const MAX_LEN: usize = 0x1c00_0000;

/// The growth of a table failed: the allocator handed out no arena.
#[derive(Debug, PartialEq, Eq, Clone, Copy, Structural)]
pub struct AllocError;

/// An entry of a table.
pub struct Entry<V> {
    key: Vec<u8>,
    value: V,
}

/// A probing table from byte strings to values of type `V`.
pub struct RawTable<V> {
    ctrl: Vec<u8>,
    slots: Vec<Option<Entry<V>>>,
    items: usize,
    used: usize,
    index: Ghost<Map<Seq<u8>, int>>,
    steps: Ghost<Seq<int>>,
}

/// What a search for a key comes to: the slot that holds the key, or the slot
/// that the key goes into, with the step of the probe that reaches it.
enum Search {
    Found(usize),
    Vacant(usize, Ghost<int>),
}

/// The key of the entry in a slot.
spec fn slot_key<V>(slot: Option<Entry<V>>) -> Seq<u8> {
    match slot {
        Some(e) => e.key@,
        None => Seq::empty(),
    }
}

/// The value of the entry in a slot.
spec fn slot_value<V>(slot: Option<Entry<V>>) -> V {
    match slot {
        Some(e) => e.value,
        None => arbitrary(),
    }
}

/// No control byte of group `g` is empty.
spec fn group_full(ctrl: Seq<u8>, g: int) -> bool {
    forall|i: int| 8 * g <= i < 8 * g + 8 ==> #[trigger] ctrl[i] != EMPTY
}

/// The first `j` groups of the probe that starts at `start` have no empty
/// control byte.
spec fn chain_full(ctrl: Seq<u8>, start: int, groups: int, j: int) -> bool {
    forall|t: int| 0 <= t < j ==> group_full(ctrl, #[trigger] probe_group(start, t, groups))
}

/// The slots below `cap` whose control byte is not empty.
spec fn used_slots(ctrl: Seq<u8>, cap: int) -> Set<int> {
    Set::new(|i: int| 0 <= i < cap && ctrl[i] != EMPTY)
}

/// The largest number of groups is a power of two.
proof fn lemma_max_groups()
    ensures
        is_pow2(MAX_GROUPS as int),
{
    reveal_with_fuel(is_pow2, 28);
}

/// What inserting `key` into a table with the entries `m` reports: `Ok(true)`
/// if the key is new and the table can take it, `Ok(false)` if the key is
/// there already, and an error if the key is new and the table is full.
pub open spec fn insert_outcome<V>(m: Map<Seq<u8>, V>, key: Seq<u8>) -> Result<bool, AllocError> {
    if m.contains_key(key) {
        Ok(false)
    } else if m.len() >= MAX_LEN {
        Err(AllocError)
    } else {
        Ok(true)
    }
}

/// The entries of a table with the entries `m` after inserting `key` with
/// `value`: nothing changes unless the insert reports `Ok(true)`.
pub open spec fn after_insert<V>(m: Map<Seq<u8>, V>, key: Seq<u8>, value: V) -> Map<Seq<u8>, V> {
    if insert_outcome(m, key) == Ok::<bool, AllocError>(true) {
        m.insert(key, value)
    } else {
        m
    }
}

/// What a lookup of `key` in a table with the entries `m` gives.
pub open spec fn lookup<V>(m: Map<Seq<u8>, V>, key: Seq<u8>) -> Option<V> {
    if m.contains_key(key) {
        Some(m[key])
    } else {
        None
    }
}

/// Compares two byte strings.
pub fn bytes_eq(a: &[u8], b: &[u8]) -> (r: bool)
    ensures
        r <==> a@ == b@,
{
    if a.len() != b.len() {
        return false;
    }
    let mut i: usize = 0;
    while i < a.len()
        invariant
            i <= a@.len(),
            a@.len() == b@.len(),
            forall|j: int| 0 <= j < i ==> a@[j] == b@[j],
        decreases a@.len() - i,
    {
        if a[i] != b[i] {
            return false;
        }
        i = i + 1;
    }
    assert(a@ =~= b@);
    true
}

impl<V> RawTable<V> {
    /// The number of groups of the table.
    pub closed spec fn groups(&self) -> int {
        self.slots@.len() as int / 8
    }

    /// The number of slots of the table.
    pub closed spec fn spec_capacity(&self) -> int {
        self.slots@.len() as int
    }

    /// The number of slots in use: those that hold an entry and the
    /// tombstones.
    pub closed spec fn spec_used(&self) -> nat {
        self.used as nat
    }

    /// The control byte of slot `i`.
    pub closed spec fn ctrl_byte(&self, i: int) -> u8 {
        self.ctrl@[i]
    }

    /// The slot that holds the entry under `key`, if the table holds one.
    pub closed spec fn slot_of(&self, key: Seq<u8>) -> int {
        self.index@[key]
    }

    /// `self` is `before` but for the control byte of slot `p`.
    pub open spec fn same_but(&self, before: &Self, p: int) -> bool {
        &&& self.spec_capacity() == before.spec_capacity()
        &&& forall|i: int|
            0 <= i < self.spec_capacity() && i != p ==> #[trigger] self.ctrl_byte(i)
                == before.ctrl_byte(i)
    }

    /// The group at which a probe for `key` starts.
    spec fn start_of(&self, key: Seq<u8>) -> int {
        spec_h1(spec_hash(key)) as int % self.groups()
    }

    /// The arenas have the shape of a table: a power of two of groups, and a
    /// group of empty sentinel bytes behind the control bytes of the slots.
    spec fn shape_ok(&self) -> bool {
        &&& self.slots@.len() == self.groups() * 8
        &&& is_pow2(self.groups())
        &&& 1 <= self.groups() <= MAX_GROUPS
        &&& self.ctrl@.len() == self.slots@.len() + 8
        &&& self.steps@.len() == self.slots@.len()
        &&& forall|i: int| self.slots@.len() <= i < self.ctrl@.len() ==> self.ctrl@[i] == EMPTY
    }

    /// Slot `i` and its control byte agree, and a probe for the key in the
    /// slot reaches it.
    spec fn slot_ok(&self, i: int) -> bool {
        match self.slots@[i] {
            Some(e) => {
                &&& self.ctrl@[i] == spec_h2(spec_hash(e.key@))
                &&& self.index@.contains_key(e.key@)
                &&& self.index@[e.key@] == i
                &&& 0 <= self.steps@[i] < self.groups()
                &&& probe_group(self.start_of(e.key@), self.steps@[i], self.groups()) == i / 8
                &&& chain_full(self.ctrl@, self.start_of(e.key@), self.groups(), self.steps@[i])
            },
            None => is_special(self.ctrl@[i]),
        }
    }

    spec fn slots_ok(&self) -> bool {
        forall|i: int| 0 <= i < self.slots@.len() ==> #[trigger] self.slot_ok(i)
    }

    /// The index knows the slot of every key.
    spec fn index_ok(&self) -> bool {
        &&& self.index@.dom().finite()
        &&& self.index@.dom().len() == self.items
        &&& forall|k: Seq<u8>| #[trigger]
            self.index@.contains_key(k) ==> {
                &&& 0 <= self.index@[k] < self.slots@.len()
                &&& self.slots@[self.index@[k]] is Some
                &&& slot_key(self.slots@[self.index@[k]]) == k
            }
    }

    /// The table counts its used slots, and keeps one slot in eight empty.
    spec fn load_ok(&self) -> bool {
        &&& self.used == used_slots(self.ctrl@, self.slots@.len() as int).len()
        &&& self.used <= self.groups() * 7
    }

    /// The invariant of the table.
    pub closed spec fn wf(&self) -> bool {
        &&& self.shape_ok()
        &&& self.slots_ok()
        &&& self.index_ok()
        &&& self.load_ok()
    }

    /// The entries of the table.
    pub closed spec fn view(&self) -> Map<Seq<u8>, V> {
        Map::new(
            |k: Seq<u8>| self.index@.contains_key(k),
            |k: Seq<u8>| slot_value(self.slots@[self.index@[k]]),
        )
    }

    /// The number of entries is finite, and bounded by the load factor.
    pub proof fn lemma_len(&self)
        requires
            self.wf(),
        ensures
            self@.dom().finite(),
            self@.len() <= MAX_LEN,
            self@.len() <= self.spec_used(),
            self.spec_used() * 8 <= self.spec_capacity() * 7,
            self@.len() * 8 <= self.spec_capacity() * 7,
            self.spec_capacity() % 8 == 0,
            self.spec_capacity() >= 8,
    {
        assert(self@.dom() =~= self.index@.dom());
        self.lemma_items_le_used();
    }

    /// Every entry sits in a used slot.
    proof fn lemma_items_le_used(&self)
        requires
            self.wf(),
        ensures
            self.items <= self.used,
    {
        let cap = self.slots@.len() as int;
        let used = used_slots(self.ctrl@, cap);
        let f = |k: Seq<u8>| self.index@[k];
        let dom = self.index@.dom();
        let img = dom.map(f);
        assert(vstd::relations::injective_on(f, dom)) by {
            assert forall|a: Seq<u8>, b: Seq<u8>|
                dom.contains(a) && dom.contains(b) && #[trigger] f(a) == #[trigger] f(b) implies a
                == b by {
                assert(self.index@.contains_key(a));
                assert(self.index@.contains_key(b));
            }
        }
        vstd::set_lib::lemma_map_size(dom, img, f);
        vstd::set_lib::lemma_int_range(0, cap);
        assert(used.subset_of(vstd::set_lib::set_int_range(0, cap)));
        vstd::set_lib::lemma_len_subset(used, vstd::set_lib::set_int_range(0, cap));
        assert(img.subset_of(used)) by {
            assert forall|i: int| img.contains(i) implies used.contains(i) by {
                let k = choose|k: Seq<u8>| dom.contains(k) && i == f(k);
                assert(self.index@.contains_key(k));
                assert(self.slot_ok(i));
                lemma_h2_is_tag(spec_hash(k));
            }
        }
        vstd::set_lib::lemma_len_subset(img, used);
    }

    /// Does slot `i` hold an entry with the key `key`?
    spec fn holds(&self, i: int, key: Seq<u8>) -> bool {
        self.slots@[i] is Some && slot_key(self.slots@[i]) == key
    }

    /// Builds an empty table of `groups` groups on an arena of empty control
    /// bytes.
    fn build(ctrl: Vec<u8>, groups: usize) -> (r: Self)
        requires
            is_pow2(groups as int),
            1 <= groups <= MAX_GROUPS,
            ctrl@ == empty_arena((groups * 8 + 8) as nat),
        ensures
            r.wf(),
            r@ == Map::<Seq<u8>, V>::empty(),
            r.groups() == groups,
            r.used == 0,
            r.items == 0,
    {
        let cap = groups * WIDTH;
        let mut slots: Vec<Option<Entry<V>>> = Vec::with_capacity(cap);
        let mut i: usize = 0;
        while i < cap
            invariant
                i <= cap,
                slots@.len() == i,
                forall|j: int| 0 <= j < i ==> slots@[j] is None,
            decreases cap - i,
        {
            slots.push(None);
            i = i + 1;
        }
        let r = RawTable {
            ctrl,
            slots,
            items: 0,
            used: 0,
            index: Ghost(Map::empty()),
            steps: Ghost(Seq::new(cap as nat, |i: int| 0)),
        };
        proof {
            assert(used_slots(r.ctrl@, cap as int) =~= Set::empty());
            assert forall|i: int| 0 <= i < r.slots@.len() implies #[trigger] r.slot_ok(i) by {}
            assert(r@ =~= Map::<Seq<u8>, V>::empty());
        }
        r
    }

    /// Makes an empty table of one group.
    pub fn new() -> (r: Self)
        ensures
            r.wf(),
            r@ == Map::<Seq<u8>, V>::empty(),
    {
        assert(is_pow2(1));
        // the host's allocator never refuses an arena of sixteen bytes
        let ctrl = match self_allocate(&Global, 2 * WIDTH) {
            Ok(arena) => arena,
            Err(_) => Vec::new(),
        };
        Self::build(ctrl, 1)
    }

    /// Follows the probe sequence of `key` until the key or an empty control
    /// byte turns up, and remembers the first slot without an entry on the
    /// way: the slot that the key goes into if it is not there.
    #[verifier::rlimit(40)]
    fn search(&self, hash: u64, key: &[u8]) -> (r: Search)
        requires
            self.wf(),
            hash == spec_hash(key@),
        ensures
            match r {
                Search::Found(i) => {
                    &&& i < self.slots@.len()
                    &&& self.holds(i as int, key@)
                    &&& self.index@.contains_key(key@)
                    &&& self.index@[key@] == i
                },
                Search::Vacant(p, j) => {
                    &&& !self.index@.contains_key(key@)
                    &&& self.reaches_free(key@, p as int, j@)
                },
            },
    {
        let groups = self.slots.len() / WIDTH;
        let tag = h2(hash);
        let mut probe = ProbeSeq::new(h1(hash), groups);
        let ghost start = self.start_of(key@);
        let mut vacant: Option<usize> = None;
        let ghost mut at: int = 0;
        while probe.stride() < groups
            invariant
                self.wf(),
                probe.wf(),
                probe.spec_groups() == groups,
                probe.spec_start() == start,
                start == self.start_of(key@),
                groups == self.groups(),
                tag == spec_h2(hash),
                hash == spec_hash(key@),
                forall|t: int|
                    0 <= t < probe.spec_stride() ==> self.group_lacks(
                        #[trigger] probe_group(start, t, groups as int),
                        key@,
                    ),
                match vacant {
                    Some(p) => self.reaches_free(key@, p as int, at),
                    None => forall|t: int|
                        0 <= t < probe.spec_stride() ==> Self::group_occupied(
                            self.ctrl@,
                            #[trigger] probe_group(start, t, groups as int),
                        ),
                },
            decreases groups - probe.spec_stride(),
        {
            let g = probe.pos();
            proof {
                lemma_probe_step(start, probe.spec_stride(), groups as int);
            }
            let group = Group::load_aligned(self.ctrl.as_slice(), g * WIDTH);
            let mask = group.match_byte(tag);
            let mut matches = mask.into_iter();
            proof {
                assert forall|i: int|
                    8 * g <= i < 8 * g + 8 && !matches.rest()@.contains(i - 8 * g) implies !self.holds(
                    i,
                    key@,
                ) by {
                    assert(self.slot_ok(i));
                    assert(group@[i - 8 * g] == self.ctrl@[i]);
                }
            }
            loop
                invariant
                    self.wf(),
                    g < groups,
                    groups == self.groups(),
                    hash == spec_hash(key@),
                    forall|l: int| matches.rest()@.contains(l) ==> 0 <= l < 8,
                    forall|i: int|
                        8 * g <= i < 8 * g + 8 && !matches.rest()@.contains(i - 8 * g)
                            ==> !self.holds(i, key@),
                ensures
                    forall|i: int| 8 * g <= i < 8 * g + 8 ==> !self.holds(i, key@),
                decreases matches.rest()@.len(),
            {
                match matches.next() {
                    Some(l) => {
                        let i = g * WIDTH + l;
                        match &self.slots[i] {
                            Some(e) => {
                                if bytes_eq(e.key.as_slice(), key) {
                                    proof {
                                        assert(self.slot_ok(i as int));
                                    }
                                    return Search::Found(i);
                                }
                            },
                            None => {},
                        }
                    },
                    None => {
                        break ;
                    },
                }
            }
            if vacant.is_none() {
                let free = group.match_empty_or_deleted();
                match free.lowest_set_bit() {
                    Some(l) => {
                        proof {
                            assert(group@[l as int] == self.ctrl@[8 * g + l]);
                            at = probe.spec_stride();
                            assert forall|t: int| 0 <= t < at implies group_full(
                                self.ctrl@,
                                #[trigger] probe_group(start, t, groups as int),
                            ) by {
                                assert(Self::group_occupied(
                                    self.ctrl@,
                                    probe_group(start, t, groups as int),
                                ));
                            }
                        }
                        vacant = Some(g * WIDTH + l);
                    },
                    None => {
                        proof {
                            assert forall|i: int| 8 * g <= i < 8 * g + 8 implies is_full(
                                #[trigger] self.ctrl@[i],
                            ) by {
                                assert(group@[i - 8 * g] == self.ctrl@[i]);
                                assert(!free@.contains(i - 8 * g));
                            }
                        }
                    },
                }
            }
            if group.match_empty().any_bit_set() {
                proof {
                    if self.index@.contains_key(key@) {
                        self.lemma_reached(key@, probe.spec_stride(), g as int);
                    }
                }
                match vacant {
                    Some(p) => {
                        return Search::Vacant(p, Ghost(at));
                    },
                    None => {},
                }
            }
            proof {
                assert(self.group_lacks(g as int, key@));
            }
            probe.move_next();
        }
        proof {
            if self.index@.contains_key(key@) {
                let i = self.index@[key@];
                assert(self.slot_ok(i));
                assert(self.group_lacks(probe_group(start, self.steps@[i], groups as int), key@));
                assert(self.holds(i, key@));
            }
        }
        match vacant {
            Some(p) => Search::Vacant(p, Ghost(at)),
            None => {
                // not reached: the probe has seen every group, and one of them has an
                // empty slot
                proof {
                    let e = self.lemma_has_empty();
                    let s = lemma_probe_covers(start, e / 8, groups as int);
                    assert(Self::group_occupied(self.ctrl@, probe_group(start, s, groups as int)));
                    assert(is_full(self.ctrl@[e]));
                }
                Search::Found(0)
            },
        }
    }

    /// Looks for the slot that holds `key`.
    fn find(&self, hash: u64, key: &[u8]) -> (r: Option<usize>)
        requires
            self.wf(),
            hash == spec_hash(key@),
        ensures
            match r {
                Some(i) => {
                    &&& i < self.slots@.len()
                    &&& self.holds(i as int, key@)
                    &&& self.index@.contains_key(key@)
                    &&& self.index@[key@] == i
                },
                None => !self.index@.contains_key(key@),
            },
    {
        match self.search(hash, key) {
            Search::Found(i) => Some(i),
            Search::Vacant(_, _) => None,
        }
    }

    /// Slot `p` holds no entry, and a probe for `key` reaches it at step `j`
    /// without passing an empty control byte.
    spec fn reaches_free(&self, key: Seq<u8>, p: int, j: int) -> bool {
        &&& 0 <= p < self.slots@.len()
        &&& is_special(self.ctrl@[p])
        &&& 0 <= j < self.groups()
        &&& probe_group(self.start_of(key), j, self.groups()) == p / 8
        &&& chain_full(self.ctrl@, self.start_of(key), self.groups(), j)
    }

    /// No slot of group `g` holds `key`.
    spec fn group_lacks(&self, g: int, key: Seq<u8>) -> bool {
        forall|i: int| 8 * g <= i < 8 * g + 8 ==> !#[trigger] self.holds(i, key)
    }

    /// A probe for a key of the table that has seen neither the key nor an
    /// empty byte in its first `j` groups, and sees an empty byte in group
    /// `g`, its next one, finds the key in `g`.
    proof fn lemma_reached(&self, key: Seq<u8>, j: int, g: int)
        requires
            self.wf(),
            self.index@.contains_key(key),
            0 <= j < self.groups(),
            g == probe_group(self.start_of(key), j, self.groups()),
            forall|t: int|
                0 <= t < j ==> self.group_lacks(
                    #[trigger] probe_group(self.start_of(key), t, self.groups()),
                    key,
                ),
            !group_full(self.ctrl@, g),
        ensures
            !self.group_lacks(g, key),
    {
        let i = self.index@[key];
        assert(self.slot_ok(i));
        assert(self.holds(i, key));
        let s = self.steps@[i];
        if s < j {
            assert(self.group_lacks(probe_group(self.start_of(key), s, self.groups()), key));
        } else if s > j {
            assert(group_full(self.ctrl@, probe_group(self.start_of(key), j, self.groups())));
        }
    }

    /// All control bytes of group `g` mark occupied slots.
    spec fn group_occupied(ctrl: Seq<u8>, g: int) -> bool {
        forall|i: int| 8 * g <= i < 8 * g + 8 ==> is_full(#[trigger] ctrl[i])
    }

    /// A table that keeps to its load factor has an empty slot.
    proof fn lemma_has_empty(&self) -> (e: int)
        requires
            self.shape_ok(),
            self.load_ok(),
        ensures
            0 <= e < self.slots@.len(),
            self.ctrl@[e] == EMPTY,
    {
        let cap = self.slots@.len() as int;
        let used = used_slots(self.ctrl@, cap);
        let all = vstd::set_lib::set_int_range(0, cap);
        vstd::set_lib::lemma_int_range(0, cap);
        if forall|i: int| 0 <= i < cap ==> self.ctrl@[i] != EMPTY {
            assert(used =~= all);
        }
        choose|e: int| 0 <= e < cap && self.ctrl@[e] == EMPTY
    }

    /// A tombstone is a used slot without an entry, so a table with a
    /// tombstone has more used slots than entries.
    proof fn lemma_tombstone_counts(&self, p: int)
        requires
            self.wf(),
            0 <= p < self.slots@.len(),
            is_special(self.ctrl@[p]),
            self.ctrl@[p] != EMPTY,
        ensures
            self.items < self.used,
    {
        let cap = self.slots@.len() as int;
        let used = used_slots(self.ctrl@, cap);
        let f = |k: Seq<u8>| self.index@[k];
        let dom = self.index@.dom();
        let img = dom.map(f);
        assert(vstd::relations::injective_on(f, dom)) by {
            assert forall|a: Seq<u8>, b: Seq<u8>|
                dom.contains(a) && dom.contains(b) && #[trigger] f(a) == #[trigger] f(b) implies a
                == b by {
                assert(self.index@.contains_key(a));
                assert(self.index@.contains_key(b));
            }
        }
        vstd::set_lib::lemma_map_size(dom, img, f);
        vstd::set_lib::lemma_int_range(0, cap);
        assert(used.subset_of(vstd::set_lib::set_int_range(0, cap)));
        vstd::set_lib::lemma_len_subset(used, vstd::set_lib::set_int_range(0, cap));
        assert(used.contains(p));
        assert(img.subset_of(used.remove(p))) by {
            assert forall|i: int| img.contains(i) implies used.remove(p).contains(i) by {
                let k = choose|k: Seq<u8>| dom.contains(k) && i == f(k);
                assert(self.index@.contains_key(k));
                assert(self.slot_ok(i));
                assert(self.slot_ok(p));
                lemma_h2_is_tag(spec_hash(k));
                lemma_h2_is_tag(spec_hash(slot_key(self.slots@[p])));
            }
        }
        vstd::set_lib::lemma_len_subset(img, used.remove(p));
    }

    /// In a table without tombstones, a slot without an entry is empty.
    proof fn lemma_no_tombstones(&self, p: int)
        requires
            self.wf(),
            self.items == self.used,
            0 <= p < self.slots@.len(),
            is_special(self.ctrl@[p]),
        ensures
            self.ctrl@[p] == EMPTY,
    {
        let cap = self.slots@.len() as int;
        let used = used_slots(self.ctrl@, cap);
        let f = |k: Seq<u8>| self.index@[k];
        let dom = self.index@.dom();
        let img = dom.map(f);
        assert(vstd::relations::injective_on(f, dom)) by {
            assert forall|a: Seq<u8>, b: Seq<u8>|
                dom.contains(a) && dom.contains(b) && #[trigger] f(a) == #[trigger] f(b) implies a
                == b by {
                assert(self.index@.contains_key(a));
                assert(self.index@.contains_key(b));
            }
        }
        vstd::set_lib::lemma_map_size(dom, img, f);
        vstd::set_lib::lemma_int_range(0, cap);
        assert(used.subset_of(vstd::set_lib::set_int_range(0, cap)));
        vstd::set_lib::lemma_len_subset(used, vstd::set_lib::set_int_range(0, cap));
        assert(img.subset_of(used)) by {
            assert forall|i: int| img.contains(i) implies used.contains(i) by {
                let k = choose|k: Seq<u8>| dom.contains(k) && i == f(k);
                assert(self.index@.contains_key(k));
                assert(self.slot_ok(i));
                lemma_h2_is_tag(spec_hash(k));
            }
        }
        vstd::set_lib::lemma_subset_equality(img, used);
        if self.ctrl@[p] != EMPTY {
            assert(used.contains(p));
            assert(img.contains(p));
            let k = choose|k: Seq<u8>| dom.contains(k) && p == f(k);
            assert(self.index@.contains_key(k));
            assert(self.slot_ok(p));
            lemma_h2_is_tag(spec_hash(k));
        }
    }

    /// Looks for the first slot without an entry on the probe sequence of
    /// `hash`.
    fn find_insert_slot(&self, hash: u64) -> (r: (usize, Ghost<int>))
        requires
            self.shape_ok(),
            self.load_ok(),
        ensures
            r.0 < self.slots@.len(),
            is_special(self.ctrl@[r.0 as int]),
            0 <= r.1@ < self.groups(),
            probe_group(spec_h1(hash) as int % self.groups(), r.1@, self.groups()) == r.0 / 8,
            chain_full(self.ctrl@, spec_h1(hash) as int % self.groups(), self.groups(), r.1@),
    {
        let groups = self.slots.len() / WIDTH;
        let mut probe = ProbeSeq::new(h1(hash), groups);
        let ghost start = spec_h1(hash) as int % self.groups();
        while probe.stride() < groups
            invariant
                self.shape_ok(),
                self.load_ok(),
                probe.wf(),
                probe.spec_groups() == groups,
                probe.spec_start() == start,
                start == spec_h1(hash) as int % self.groups(),
                groups == self.groups(),
                forall|t: int|
                    0 <= t < probe.spec_stride() ==> Self::group_occupied(
                        self.ctrl@,
                        #[trigger] probe_group(start, t, groups as int),
                    ),
            decreases groups - probe.spec_stride(),
        {
            let g = probe.pos();
            proof {
                lemma_probe_step(start, probe.spec_stride(), groups as int);
            }
            let group = Group::load_aligned(self.ctrl.as_slice(), g * WIDTH);
            let free = group.match_empty_or_deleted();
            match free.lowest_set_bit() {
                Some(l) => {
                    proof {
                        assert(group@[l as int] == self.ctrl@[8 * g + l]);
                        assert forall|t: int| 0 <= t < probe.spec_stride() implies group_full(
                            self.ctrl@,
                            #[trigger] probe_group(start, t, groups as int),
                        ) by {
                            assert(Self::group_occupied(
                                self.ctrl@,
                                probe_group(start, t, groups as int),
                            ));
                        }
                    }
                    return (g * WIDTH + l, Ghost(probe.spec_stride()));
                },
                None => {
                    proof {
                        assert forall|i: int| 8 * g <= i < 8 * g + 8 implies is_full(
                            #[trigger] self.ctrl@[i],
                        ) by {
                            assert(group@[i - 8 * g] == self.ctrl@[i]);
                            assert(!free@.contains(i - 8 * g));
                        }
                    }
                },
            }
            probe.move_next();
        }
        // not reached: the probe has seen every group, and one of them has an empty slot
        proof {
            let e = self.lemma_has_empty();
            let s = lemma_probe_covers(start, e / 8, groups as int);
            assert(Self::group_occupied(self.ctrl@, probe_group(start, s, groups as int)));
            assert(is_full(self.ctrl@[e]));
        }
        (0, Ghost(0))
    }

    /// A probe chain that is full stays full when no control byte becomes
    /// empty.
    proof fn lemma_chain_stays(before: Seq<u8>, after: Seq<u8>, start: int, groups: int, j: int)
        requires
            before.len() == after.len(),
            forall|i: int| 0 <= i < before.len() && before[i] != EMPTY ==> after[i] != EMPTY,
            chain_full(before, start, groups, j),
            groups * 8 <= before.len(),
            0 < groups,
            0 <= start,
            0 <= j,
        ensures
            chain_full(after, start, groups, j),
    {
        assert forall|t: int| 0 <= t < j implies group_full(
            after,
            #[trigger] probe_group(start, t, groups),
        ) by {
            let g = probe_group(start, t, groups);
            lemma_probe_step(start, t, groups);
            assert(group_full(before, g));
            assert forall|i: int| 8 * g <= i < 8 * g + 8 implies #[trigger] after[i] != EMPTY by {
                assert(before[i] != EMPTY);
            }
        }
    }

    /// `after` is `before` with the entry `key`, `value` put into the free
    /// slot `p`, which a probe for `key` reaches at step `j`.
    spec fn placed(before: Self, after: Self, p: int, j: int, key: Seq<u8>, value: V) -> bool {
        &&& before.wf()
        &&& !before.index@.contains_key(key)
        &&& 0 <= p < before.slots@.len()
        &&& is_special(before.ctrl@[p])
        &&& 0 <= j < before.groups()
        &&& probe_group(before.start_of(key), j, before.groups()) == p / 8
        &&& chain_full(before.ctrl@, before.start_of(key), before.groups(), j)
        &&& after.ctrl@ == before.ctrl@.update(p, spec_h2(spec_hash(key)))
        &&& after.slots@.len() == before.slots@.len()
        &&& after.holds(p, key)
        &&& slot_value(after.slots@[p]) == value
        &&& forall|i: int|
            0 <= i < before.slots@.len() && i != p ==> #[trigger] after.slots@[i]
                == before.slots@[i]
        &&& after.index@ == before.index@.insert(key, p)
        &&& after.steps@ == before.steps@.update(p, j)
    }

    proof fn lemma_placed_slots(before: Self, after: Self, p: int, j: int, key: Seq<u8>, value: V)
        requires
            Self::placed(before, after, p, j, key, value),
        ensures
            after.shape_ok(),
            after.slots_ok(),
            after.groups() == before.groups(),
    {
        let cap = after.slots@.len() as int;
        lemma_h2_is_tag(spec_hash(key));
        assert(after.groups() == before.groups());
        assert(after.shape_ok());
        assert forall|i: int| 0 <= i < cap implies #[trigger] after.slot_ok(i) by {
            if i != p {
                assert(before.slot_ok(i));
                assert(after.slots@[i] == before.slots@[i]);
                if before.slots@[i] is Some {
                    let k = slot_key(before.slots@[i]);
                    Self::lemma_chain_stays(
                        before.ctrl@,
                        after.ctrl@,
                        before.start_of(k),
                        before.groups(),
                        before.steps@[i],
                    );
                }
            } else {
                Self::lemma_chain_stays(
                    before.ctrl@,
                    after.ctrl@,
                    before.start_of(key),
                    before.groups(),
                    j,
                );
            }
        }
    }

    proof fn lemma_placed_index(before: Self, after: Self, p: int, j: int, key: Seq<u8>, value: V)
        requires
            Self::placed(before, after, p, j, key, value),
            after.items == before.items + 1,
        ensures
            after.index_ok(),
            after@ == before@.insert(key, value),
    {
        assert(before.slot_ok(p));
        lemma_h2_is_tag(spec_hash(slot_key(before.slots@[p])));
        assert(before.slots@[p] is None);
        assert forall|k: Seq<u8>| #[trigger] after.index@.contains_key(k) implies {
            &&& 0 <= after.index@[k] < after.slots@.len()
            &&& after.slots@[after.index@[k]] is Some
            &&& slot_key(after.slots@[after.index@[k]]) == k
        } by {
            if k != key {
                assert(before.index@.contains_key(k));
                assert(after.slots@[before.index@[k]] == before.slots@[before.index@[k]]);
            }
        }
        assert(after.index@.dom() =~= before.index@.dom().insert(key));
        assert(after@ =~= before@.insert(key, value)) by {
            assert forall|k: Seq<u8>| before@.contains_key(k) && k != key implies after@[k]
                == before@[k] by {
                assert(before.index@.contains_key(k));
                assert(after.slots@[before.index@[k]] == before.slots@[before.index@[k]]);
            }
        }
    }

    proof fn lemma_placed_load(before: Self, after: Self, p: int, j: int, key: Seq<u8>, value: V)
        requires
            Self::placed(before, after, p, j, key, value),
            before.ctrl@[p] == EMPTY ==> before.used + 1 <= before.groups() * 7,
            after.used == (if before.ctrl@[p] == EMPTY {
                before.used + 1
            } else {
                before.used as int
            }),
        ensures
            after.load_ok(),
    {
        let cap = after.slots@.len() as int;
        lemma_h2_is_tag(spec_hash(key));
        if before.ctrl@[p] == EMPTY {
            assert(used_slots(after.ctrl@, cap) =~= used_slots(before.ctrl@, cap).insert(p));
        } else {
            assert(used_slots(after.ctrl@, cap) =~= used_slots(before.ctrl@, cap));
        }
        vstd::set_lib::lemma_int_range(0, cap);
        vstd::set_lib::lemma_len_subset(
            used_slots(before.ctrl@, cap),
            vstd::set_lib::set_int_range(0, cap),
        );
    }

    /// Puts an entry whose key the table does not hold into the free slot
    /// `p`, which a probe for the key reaches at step `j`.
    fn place(&mut self, p: usize, Ghost(j): Ghost<int>, hash: u64, key: Vec<u8>, value: V)
        requires
            old(self).wf(),
            hash == spec_hash(key@),
            !old(self).index@.contains_key(key@),
            old(self).reaches_free(key@, p as int, j),
            old(self).ctrl@[p as int] == EMPTY ==> old(self).used + 1 <= old(self).groups() * 7,
        ensures
            final(self).wf(),
            final(self)@ == old(self)@.insert(key@, value),
            final(self).groups() == old(self).groups(),
            final(self).items == old(self).items + 1,
            final(self).used <= old(self).used + 1,
            old(self).used == old(self).items ==> final(self).used == final(self).items,
            final(self).index@[key@] == p,
            final(self).slots@.len() == old(self).slots@.len(),
            final(self).ctrl@ == old(self).ctrl@.update(p as int, spec_h2(hash)),
            final(self).used == (if old(self).ctrl@[p as int] == EMPTY {
                old(self).used + 1
            } else {
                old(self).used as int
            }),
    {
        let ghost before = *self;
        let ghost k = key@;
        let was_empty = self.ctrl[p] == EMPTY;
        let tag = h2(hash);
        proof {
            self.lemma_items_le_used();
            if self.used == self.items {
                self.lemma_no_tombstones(p as int);
            }
        }
        self.ctrl.set(p, tag);
        self.slots.set(p, Some(Entry { key, value }));
        self.items = self.items + 1;
        if was_empty {
            self.used = self.used + 1;
        }
        self.index = Ghost(self.index@.insert(k, p as int));
        self.steps = Ghost(self.steps@.update(p as int, j));
        proof {
            assert(Self::placed(before, *self, p as int, j, k, value));
            Self::lemma_placed_slots(before, *self, p as int, j, k, value);
            Self::lemma_placed_index(before, *self, p as int, j, k, value);
            Self::lemma_placed_load(before, *self, p as int, j, k, value);
        }
    }

    /// Puts an entry whose key the table does not hold into the first free
    /// slot of its probe sequence.
    fn insert_unique(&mut self, hash: u64, key: Vec<u8>, value: V)
        requires
            old(self).wf(),
            hash == spec_hash(key@),
            !old(self).index@.contains_key(key@),
            old(self).used + 1 <= old(self).groups() * 7,
        ensures
            final(self).wf(),
            final(self)@ == old(self)@.insert(key@, value),
            final(self).groups() == old(self).groups(),
            final(self).items == old(self).items + 1,
            final(self).used <= old(self).used + 1,
            old(self).used == old(self).items ==> final(self).used == final(self).items,
    {
        let (p, Ghost(j)) = self.find_insert_slot(hash);
        self.place(p, Ghost(j), hash, key, value);
    }

    /// Moves the entries into new arenas of `new_groups` groups. This drops
    /// the tombstones.
    fn rebuild(&mut self, new_groups: usize) -> (r: Result<(), AllocError>)
        requires
            old(self).wf(),
            is_pow2(new_groups as int),
            1 <= new_groups <= 2 * MAX_GROUPS,
            old(self).items < new_groups * 7,
        ensures
            final(self).wf(),
            final(self)@ == old(self)@,
            final(self).items == old(self).items,
            match r {
                Ok(_) => {
                    &&& new_groups <= MAX_GROUPS
                    &&& final(self).groups() == new_groups
                    &&& final(self).used == old(self).items
                },
                Err(_) => new_groups > MAX_GROUPS && *final(self) == *old(self),
            },
    {
        let ghost before = *self;
        let arena = match Global.allocate(new_groups * WIDTH + WIDTH) {
            Ok(arena) => arena,
            Err(_) => {
                return Err(AllocError);
            },
        };
        proof {
            if new_groups > MAX_GROUPS {
                lemma_max_groups();
                lemma_pow2_gap(MAX_GROUPS as int, new_groups as int);
            }
        }
        let mut fresh: RawTable<V> = Self::build(arena, new_groups);
        let mut rest: Vec<Option<Entry<V>>> = Vec::new();
        std::mem::swap(&mut self.slots, &mut rest);
        proof {
            assert(rest@ == before.slots@.subrange(0, rest@.len() as int));
            assert(fresh.index@ =~= Map::<Seq<u8>, int>::empty()) by {
                assert forall|k: Seq<u8>| !fresh.index@.contains_key(k) by {
                    assert(!fresh@.contains_key(k));
                }
            }
        }
        while rest.len() > 0
            invariant
                before.wf(),
                before.items < new_groups * 7,
                fresh.wf(),
                fresh.groups() == new_groups,
                fresh.used == fresh.items,
                rest@.len() <= before.slots@.len(),
                rest@ == before.slots@.subrange(0, rest@.len() as int),
                forall|k: Seq<u8>|
                    #![trigger fresh.index@.contains_key(k)]
                    #![trigger before.index@.contains_key(k)]
                    fresh.index@.contains_key(k) <==> before.index@.contains_key(k)
                        && before.index@[k] >= rest@.len(),
                forall|k: Seq<u8>| #[trigger] fresh@.contains_key(k) ==> fresh@[k] == before@[k],
            decreases rest@.len(),
        {
            let ghost n = rest@.len() - 1;
            let ghost prev = fresh;
            match rest.pop() {
                Some(Some(entry)) => {
                    let ghost k = entry.key@;
                    proof {
                        assert(before.slot_ok(n));
                        assert(before.slots@[n] == Some(entry));
                        assert(!fresh.index@.contains_key(k));
                        let sub = before.index@.dom().remove(k);
                        assert(fresh.index@.dom().subset_of(sub));
                        vstd::set_lib::lemma_len_subset(fresh.index@.dom(), sub);
                    }
                    let hash = hash_bytes(entry.key.as_slice());
                    fresh.insert_unique(hash, entry.key, entry.value);
                    proof {
                        assert(fresh.index@.dom() =~= fresh@.dom());
                        assert(prev.index@.dom() =~= prev@.dom());
                        assert forall|q: Seq<u8>|
                            #![trigger fresh.index@.contains_key(q)]
                            #![trigger before.index@.contains_key(q)]
                            fresh.index@.contains_key(q) <==> before.index@.contains_key(q)
                                && before.index@[q] >= n by {
                            assert(fresh@.dom().contains(q) <==> prev@.dom().contains(q) || q == k);
                            assert(prev.index@.contains_key(q) <==> prev@.dom().contains(q));
                            assert(fresh.index@.contains_key(q) <==> fresh@.dom().contains(q));
                            if before.index@.contains_key(q) && before.index@[q] == n {
                                assert(q == k);
                            }
                        }
                        assert forall|q: Seq<u8>| #[trigger] fresh@.contains_key(q) implies fresh@[q]
                            == before@[q] by {
                            if q != k {
                                assert(prev@.contains_key(q));
                            }
                        }
                    }
                },
                _ => {
                    proof {
                        assert(before.slots@[n] is None);
                        assert forall|q: Seq<u8>|
                            #![trigger fresh.index@.contains_key(q)]
                            #![trigger before.index@.contains_key(q)]
                            fresh.index@.contains_key(q) <==> before.index@.contains_key(q)
                                && before.index@[q] >= n by {
                            if before.index@.contains_key(q) && before.index@[q] == n {
                                assert(false);
                            }
                        }
                    }
                },
            }
        }
        proof {
            assert(fresh.index@.dom() =~= before.index@.dom());
            assert(fresh@ =~= before@);
        }
        let mut old_ctrl: Vec<u8> = Vec::new();
        std::mem::swap(&mut self.ctrl, &mut old_ctrl);
        Global.deallocate(old_ctrl);
        *self = fresh;
        Ok(())
    }

    /// Inserts `value` under `key` unless the table holds the key already.
    ///
    /// Returns whether the entry went in. One search finds out whether the
    /// key is there and, if not, which slot it goes into: the first slot
    /// without an entry on its probe sequence. A table that would outgrow
    /// its load factor is rebuilt first, at the same size if dropping the
    /// tombstones makes room and at twice the size or more if not; the insert
    /// fails only when the table holds [`MAX_LEN`] entries already.
    pub fn insert(&mut self, key: Vec<u8>, value: V) -> (r: Result<bool, AllocError>)
        requires
            old(self).wf(),
        ensures
            final(self).wf(),
            r == insert_outcome(old(self)@, key@),
            final(self)@ == after_insert(old(self)@, key@, value),
            final(self).spec_capacity() >= old(self).spec_capacity(),
            r == Ok::<bool, AllocError>(true) ==> {
                let p = final(self).slot_of(key@);
                &&& final(self).occupied(p)
                &&& final(self).ctrl_byte(p) == spec_h2(spec_hash(key@))
                &&& final(self).went_into_slot(old(self), p) || final(self).spec_used()
                    == final(self)@.len()
                &&& old(self).spec_used() * 8 + 8 <= old(self).spec_capacity() * 7
                    ==> final(self).went_into_slot(old(self), p)
            },
            r != Ok::<bool, AllocError>(true) ==> *final(self) == *old(self),
    {
        proof {
            assert(self@.dom() =~= self.index@.dom());
            self.lemma_items_le_used();
        }
        let hash = hash_bytes(key.as_slice());
        let (p, Ghost(j)) = match self.search(hash, key.as_slice()) {
            Search::Found(_) => {
                return Ok(false);
            },
            Search::Vacant(p, j) => (p, j),
        };
        let groups = self.slots.len() / WIDTH;
        if self.ctrl[p] != EMPTY || self.used + 1 <= groups * 7 {
            // a tombstone is reused, or the table has room for one more
            proof {
                if self.ctrl@[p as int] != EMPTY {
                    self.lemma_tombstone_counts(p as int);
                }
            }
            let ghost k = key@;
            self.place(p, Ghost(j), hash, key, value);
            proof {
                assert(self@.contains_key(k));
                assert(self.index@.contains_key(k));
            }
            return Ok(true);
        }
        // the table has to grow, or to drop its tombstones
        let mut new_groups = groups;
        proof {
            lemma_max_groups();
        }
        while new_groups <= MAX_GROUPS && self.items + 1 > new_groups * 7
            invariant
                is_pow2(new_groups as int),
                is_pow2(MAX_GROUPS as int),
                groups <= new_groups <= 2 * MAX_GROUPS,
                self.items <= MAX_LEN,
                new_groups > MAX_GROUPS ==> self.items >= MAX_LEN,
            decreases 2 * MAX_GROUPS - new_groups,
        {
            proof {
                lemma_pow2_double(new_groups as int);
                if new_groups < MAX_GROUPS {
                    lemma_pow2_gap(new_groups as int, MAX_GROUPS as int);
                }
            }
            new_groups = new_groups * 2;
        }
        match self.rebuild(new_groups) {
            Ok(_) => {},
            Err(e) => {
                return Err(e);
            },
        }
        let ghost k = key@;
        self.insert_unique(hash, key, value);
        proof {
            assert(self@.dom() =~= self.index@.dom());
            assert(self.index@.contains_key(k));
            assert(self.slot_ok(self.index@[k]));
        }
        Ok(true)
    }

    /// The entry under the key of slot `p` went into the table `before` as it
    /// was: the slot held no entry, no other control byte changed, and the
    /// number of slots in use went up by one if the slot was empty and
    /// stayed if it was a tombstone.
    pub open spec fn went_into_slot(&self, before: &Self, p: int) -> bool {
        &&& self.same_but(before, p)
        &&& 0 <= p < before.spec_capacity()
        &&& is_special(before.ctrl_byte(p))
        &&& self.spec_used() == (if before.ctrl_byte(p) == EMPTY {
            before.spec_used() + 1
        } else {
            before.spec_used()
        })
    }

    /// Returns the value that the table holds under `key`.
    pub fn get(&self, key: &[u8]) -> (r: Option<&V>)
        requires
            self.wf(),
        ensures
            r == (match lookup(self@, key@) {
                Some(v) => Some(&v),
                None => None,
            }),
    {
        let hash = hash_bytes(key);
        match self.find(hash, key) {
            Some(i) => {
                match &self.slots[i] {
                    Some(e) => Some(&e.value),
                    None => None,
                }
            },
            None => None,
        }
    }

    /// Does the table hold an entry under `key`?
    pub fn contains_key(&self, key: &[u8]) -> (r: bool)
        requires
            self.wf(),
        ensures
            r == self@.contains_key(key@),
    {
        let hash = hash_bytes(key);
        self.find(hash, key).is_some()
    }

    /// The number of entries.
    pub fn len(&self) -> (r: usize)
        requires
            self.wf(),
        ensures
            r == self@.len(),
    {
        proof {
            assert(self@.dom() =~= self.index@.dom());
        }
        self.items
    }

    /// Does the table hold no entry?
    pub fn is_empty(&self) -> (r: bool)
        requires
            self.wf(),
        ensures
            r == (self@.len() == 0),
    {
        proof {
            assert(self@.dom() =~= self.index@.dom());
        }
        self.items == 0
    }

    /// The number of slots.
    pub fn capacity(&self) -> (r: usize)
        requires
            self.wf(),
        ensures
            r == self.spec_capacity(),
    {
        self.slots.len()
    }

    /// `after` is `before` with the entry in slot `p` turned into a
    /// tombstone.
    spec fn buried(before: Self, after: Self, p: int, key: Seq<u8>) -> bool {
        &&& before.wf()
        &&& 0 <= p < before.slots@.len()
        &&& before.holds(p, key)
        &&& after.ctrl@ == before.ctrl@.update(p, DELETED)
        &&& after.slots@.len() == before.slots@.len()
        &&& after.slots@[p] is None
        &&& forall|i: int|
            0 <= i < before.slots@.len() && i != p ==> #[trigger] after.slots@[i]
                == before.slots@[i]
        &&& after.index@ == before.index@.remove(key)
        &&& after.steps@ == before.steps@
        &&& after.items == before.items - 1
        &&& after.used == before.used
    }

    proof fn lemma_buried(before: Self, after: Self, p: int, key: Seq<u8>)
        requires
            Self::buried(before, after, p, key),
        ensures
            after.wf(),
            after@ == before@.remove(key),
            after.groups() == before.groups(),
    {
        let cap = after.slots@.len() as int;
        assert(before.slot_ok(p));
        lemma_h2_is_tag(spec_hash(key));
        assert(after.groups() == before.groups());
        assert(after.shape_ok());
        assert forall|i: int| 0 <= i < cap implies #[trigger] after.slot_ok(i) by {
            if i != p {
                assert(before.slot_ok(i));
                assert(after.slots@[i] == before.slots@[i]);
                if before.slots@[i] is Some {
                    let k = slot_key(before.slots@[i]);
                    Self::lemma_chain_stays(
                        before.ctrl@,
                        after.ctrl@,
                        before.start_of(k),
                        before.groups(),
                        before.steps@[i],
                    );
                }
            }
        }
        assert forall|k: Seq<u8>| #[trigger] after.index@.contains_key(k) implies {
            &&& 0 <= after.index@[k] < after.slots@.len()
            &&& after.slots@[after.index@[k]] is Some
            &&& slot_key(after.slots@[after.index@[k]]) == k
        } by {
            assert(before.index@.contains_key(k));
            assert(after.slots@[before.index@[k]] == before.slots@[before.index@[k]]);
        }
        assert(after.index@.dom() =~= before.index@.dom().remove(key));
        assert(used_slots(after.ctrl@, cap) =~= used_slots(before.ctrl@, cap));
        assert(after@ =~= before@.remove(key)) by {
            assert forall|k: Seq<u8>| after@.contains_key(k) implies after@[k] == before@[k] by {
                assert(before.index@.contains_key(k));
                assert(after.slots@[before.index@[k]] == before.slots@[before.index@[k]]);
            }
        }
    }

    /// Takes the entry out of slot `p` and leaves a tombstone.
    fn bury(&mut self, p: usize, Ghost(key): Ghost<Seq<u8>>) -> (r: Option<V>)
        requires
            old(self).wf(),
            p < old(self).slots@.len(),
            old(self).holds(p as int, key),
        ensures
            final(self).wf(),
            final(self)@ == old(self)@.remove(key),
            old(self)@.contains_key(key),
            r == Some(old(self)@[key]),
            final(self).spec_capacity() == old(self).spec_capacity(),
            final(self).became_tombstone(old(self), key),
    {
        let ghost before = *self;
        proof {
            assert(self.slot_ok(p as int));
            assert(self.index@.dom().len() > 0) by {
                if self.index@.dom().len() == 0 {
                    assert(self.index@.dom() =~= Set::empty());
                }
            }
        }
        let mut slot: Option<Entry<V>> = None;
        self.slots.set_and_swap(p, &mut slot);
        self.ctrl.set(p, DELETED);
        self.items = self.items - 1;
        self.index = Ghost(self.index@.remove(key));
        proof {
            Self::lemma_buried(before, *self, p as int, key);
        }
        match slot {
            Some(entry) => Some(entry.value),
            None => None,
        }
    }

    /// The slot that held the entry under `key` in the table `before` is a
    /// tombstone now, no other control byte has changed, and as many slots
    /// are in use as before.
    pub open spec fn became_tombstone(&self, before: &Self, key: Seq<u8>) -> bool {
        &&& before.occupied(before.slot_of(key))
        &&& self.ctrl_byte(before.slot_of(key)) == DELETED
        &&& self.same_but(before, before.slot_of(key))
        &&& self.spec_used() == before.spec_used()
    }

    /// Removes the entry under `key`, and returns its value.
    ///
    /// The slot of the entry becomes a tombstone; the table does not shrink,
    /// and it counts as many slots in use as before.
    pub fn remove(&mut self, key: &[u8]) -> (r: Option<V>)
        requires
            old(self).wf(),
        ensures
            final(self).wf(),
            r == lookup(old(self)@, key@),
            final(self)@ == old(self)@.remove(key@),
            final(self).spec_capacity() == old(self).spec_capacity(),
            r is Some ==> final(self).became_tombstone(old(self), key@),
            r is None ==> *final(self) == *old(self),
    {
        let hash = hash_bytes(key);
        match self.find(hash, key) {
            Some(p) => self.bury(p, Ghost(key@)),
            None => {
                proof {
                    assert(self@ =~= self@.remove(key@));
                }
                None
            },
        }
    }

    /// Removes the entry under `key` if `pred` holds of its value, and says
    /// whether it did.
    pub fn remove_if<F: Fn(&V) -> bool>(&mut self, key: &[u8], pred: F) -> (r: bool)
        requires
            old(self).wf(),
            forall|v: &V| call_requires(pred, (v,)),
        ensures
            final(self).wf(),
            r ==> old(self)@.contains_key(key@) && call_ensures(pred, (&old(self)@[key@],), true),
            !r && old(self)@.contains_key(key@) ==> call_ensures(
                pred,
                (&old(self)@[key@],),
                false,
            ),
            final(self)@ == (if r {
                old(self)@.remove(key@)
            } else {
                old(self)@
            }),
            final(self).spec_capacity() == old(self).spec_capacity(),
            r ==> final(self).became_tombstone(old(self), key@),
            !r ==> *final(self) == *old(self),
    {
        let hash = hash_bytes(key);
        match self.find(hash, key) {
            Some(p) => {
                let go = match &self.slots[p] {
                    Some(e) => pred(&e.value),
                    None => false,
                };
                if go {
                    let _ = self.bury(p, Ghost(key@));
                }
                go
            },
            None => false,
        }
    }
}

impl<V> RawTable<V> {
    /// Does slot `i` hold an entry?
    pub closed spec fn occupied(&self, i: int) -> bool {
        0 <= i < self.slots@.len() && self.slots@[i] is Some
    }

    /// The key of the entry in slot `i`.
    pub closed spec fn key_at(&self, i: int) -> Seq<u8> {
        slot_key(self.slots@[i])
    }

    /// The value of the entry in slot `i`.
    pub closed spec fn value_at(&self, i: int) -> V {
        slot_value(self.slots@[i])
    }

    /// The entries of the table are the entries in its occupied slots, and
    /// no two slots hold the same key.
    pub proof fn lemma_slots(&self)
        requires
            self.wf(),
        ensures
            forall|i: int| #[trigger]
                self.occupied(i) ==> self@.contains_key(self.key_at(i)) && self@[self.key_at(i)]
                    == self.value_at(i),
            forall|k: Seq<u8>| #[trigger]
                self@.contains_key(k) ==> self.occupied(self.slot_of(k)) && self.key_at(
                    self.slot_of(k),
                ) == k,
            forall|i: int| #[trigger] self.occupied(i) ==> is_full(self.ctrl_byte(i)),
            forall|i: int|
                0 <= i < self.spec_capacity() && !self.occupied(i) ==> is_special(
                    #[trigger] self.ctrl_byte(i),
                ),
            forall|i: int, j: int|
                self.occupied(i) && self.occupied(j) && self.key_at(i) == self.key_at(j) ==> i
                    == j,
    {
        assert forall|i: int| #[trigger] self.occupied(i) implies self@.contains_key(
            self.key_at(i),
        ) && self@[self.key_at(i)] == self.value_at(i) by {
            assert(self.slot_ok(i));
        }
        assert forall|k: Seq<u8>| #[trigger] self@.contains_key(k) implies self.occupied(
            self.slot_of(k),
        ) && self.key_at(self.slot_of(k)) == k by {
            assert(self.index@.contains_key(k));
            assert(self.occupied(self.index@[k]));
        }
        assert forall|i: int| #[trigger] self.occupied(i) implies is_full(self.ctrl_byte(i)) by {
            assert(self.slot_ok(i));
            lemma_h2_is_tag(spec_hash(slot_key(self.slots@[i])));
        }
        assert forall|i: int| 0 <= i < self.spec_capacity() && !self.occupied(i) implies is_special(
            #[trigger] self.ctrl_byte(i),
        ) by {
            assert(self.slot_ok(i));
        }
        assert forall|i: int, j: int|
            self.occupied(i) && self.occupied(j) && self.key_at(i) == self.key_at(j) implies i
            == j by {
            assert(self.slot_ok(i));
            assert(self.slot_ok(j));
        }
    }

    /// Starts an iteration over the entries, in slot order.
    pub fn iter(&self) -> (r: RawIter<'_, V>)
        requires
            self.wf(),
        ensures
            r.wf(),
            r.spec_table() == self,
            r.spec_pos() == 0,
    {
        RawIter { table: self, pos: 0 }
    }
}

/// An iteration over the entries of a table, in slot order. It borrows the
/// table, so the table cannot change while the iteration lasts.
pub struct RawIter<'a, V> {
    table: &'a RawTable<V>,
    pos: usize,
}

impl<'a, V> RawIter<'a, V> {
    /// The table that is iterated over.
    pub closed spec fn spec_table(&self) -> &RawTable<V> {
        self.table
    }

    /// The slot at which the iteration goes on.
    pub closed spec fn spec_pos(&self) -> int {
        self.pos as int
    }

    /// The iteration is over a table that is well formed.
    pub closed spec fn wf(&self) -> bool {
        self.table.wf() && self.pos <= self.table.slots@.len()
    }

    /// Returns the entry in the next occupied slot, if there is one.
    pub fn next(&mut self) -> (r: Option<(&'a [u8], &'a V)>)
        requires
            old(self).wf(),
        ensures
            final(self).wf(),
            final(self).spec_table() == old(self).spec_table(),
            forall|i: int|
                old(self).spec_pos() <= i < final(self).spec_pos() - 1 ==> !old(
                    self,
                ).spec_table().occupied(i),
            match r {
                Some((key, value)) => {
                    let i = final(self).spec_pos() - 1;
                    &&& old(self).spec_pos() <= i
                    &&& old(self).spec_table().occupied(i)
                    &&& key@ == old(self).spec_table().key_at(i)
                    &&& *value == old(self).spec_table().value_at(i)
                },
                None => {
                    &&& final(self).spec_pos() == old(self).spec_table().spec_capacity()
                    &&& !old(self).spec_table().occupied(final(self).spec_pos() - 1)
                        || final(self).spec_pos() == old(self).spec_pos()
                },
            },
    {
        let table = self.table;
        while self.pos < table.slots.len()
            invariant
                table.wf(),
                table == self.table,
                table == old(self).table,
                old(self).pos <= self.pos <= table.slots@.len(),
                forall|i: int| old(self).pos <= i < self.pos ==> !table.occupied(i),
            decreases table.slots@.len() - self.pos,
        {
            let i = self.pos;
            self.pos = i + 1;
            proof {
                assert(table.slot_ok(i as int));
                lemma_h2_is_tag(spec_hash(slot_key(table.slots@[i as int])));
            }
            if table.ctrl[i] < DELETED {
                match &table.slots[i] {
                    Some(e) => {
                        return Some((e.key.as_slice(), &e.value));
                    },
                    None => {},
                }
            }
        }
        None
    }
}

} // verus!
