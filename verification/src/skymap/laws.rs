//! What holds of every table, whatever was done to it.
//!
//! The operations of a table are specified over the map of its entries:
//! [`insert_outcome`] and [`after_insert`] for an insert, [`lookup`] for a
//! lookup, and `Map::remove` for a removal. The lemmas here relate these to
//! each other. They speak of maps, so they hold of a table in every state,
//! before and after it has grown, and whether or not a slot was used before.

use vstd::prelude::*;
use crate::skymap::table::{RawTable, AllocError, MAX_LEN, insert_outcome, after_insert, lookup};

verus! {

/// An entry that went in is found again with its value.
pub proof fn lemma_insert_then_get<V>(m: Map<Seq<u8>, V>, key: Seq<u8>, value: V)
    requires
        insert_outcome(m, key) == Ok::<bool, AllocError>(true),
    ensures
        lookup(after_insert(m, key, value), key) == Some(value),
{
}

/// What is done to another key does not change what a lookup of `key`
/// gives: not an insert, whatever it reports, and not a removal.
pub proof fn lemma_other_keys_keep<V>(m: Map<Seq<u8>, V>, key: Seq<u8>, other: Seq<u8>, value: V)
    requires
        key != other,
    ensures
        lookup(after_insert(m, other, value), key) == lookup(m, key),
        lookup(m.remove(other), key) == lookup(m, key),
{
}

/// A second insert under the same key reports `Ok(false)` and changes
/// nothing: the first value stays.
pub proof fn lemma_insert_twice<V>(m: Map<Seq<u8>, V>, key: Seq<u8>, first: V, second: V)
    requires
        insert_outcome(m, key) == Ok::<bool, AllocError>(true),
    ensures
        insert_outcome(after_insert(m, key, first), key) == Ok::<bool, AllocError>(false),
        after_insert(after_insert(m, key, first), key, second) == after_insert(m, key, first),
        lookup(after_insert(after_insert(m, key, first), key, second), key) == Some(first),
{
}

/// An insert under a key that is there already changes nothing, whatever
/// the value.
pub proof fn lemma_insert_present<V>(m: Map<Seq<u8>, V>, key: Seq<u8>, value: V)
    requires
        m.contains_key(key),
    ensures
        insert_outcome(m, key) == Ok::<bool, AllocError>(false),
        after_insert(m, key, value) == m,
{
}

/// After a removal the key is absent, and a new insert under the key goes in
/// and is found with the new value.
pub proof fn lemma_remove_then_insert<V>(m: Map<Seq<u8>, V>, key: Seq<u8>, value: V)
    requires
        m.dom().finite(),
        m.len() <= MAX_LEN,
        m.contains_key(key),
    ensures
        lookup(m.remove(key), key) == None::<V>,
        insert_outcome(m.remove(key), key) == Ok::<bool, AllocError>(true),
        lookup(after_insert(m.remove(key), key, value), key) == Some(value),
{
    assert(m.remove(key).dom() =~= m.dom().remove(key));
}

/// The entries of a table after one insert for each entry of `entries`, in
/// order.
pub open spec fn after_inserts<V>(m: Map<Seq<u8>, V>, entries: Seq<(Seq<u8>, V)>) -> Map<
    Seq<u8>,
    V,
>
    decreases entries.len(),
{
    if entries.len() == 0 {
        m
    } else {
        after_insert(
            after_inserts(m, entries.drop_last()),
            entries.last().0,
            entries.last().1,
        )
    }
}

/// The keys of `entries` differ from each other.
pub open spec fn distinct_keys<V>(entries: Seq<(Seq<u8>, V)>) -> bool {
    forall|i: int, j: int| 0 <= i < j < entries.len() ==> entries[i].0 != entries[j].0
}

/// Entries with new keys that differ from each other all go in, as far as
/// the table has room, and each is found with its own value afterwards,
/// however often the table grew in between. The entries that were there
/// before are all still there, with their values.
pub proof fn lemma_inserts_keep_all<V>(m: Map<Seq<u8>, V>, entries: Seq<(Seq<u8>, V)>)
    requires
        m.dom().finite(),
        m.len() + entries.len() <= MAX_LEN,
        distinct_keys(entries),
        forall|i: int| 0 <= i < entries.len() ==> !m.contains_key(#[trigger] entries[i].0),
    ensures
        after_inserts(m, entries).len() == m.len() + entries.len(),
        forall|i: int|
            0 <= i < entries.len() ==> lookup(
                after_inserts(m, entries),
                #[trigger] entries[i].0,
            ) == Some(entries[i].1),
        forall|k: Seq<u8>| m.contains_key(k) ==> lookup(after_inserts(m, entries), k) == lookup(m, k),
        after_inserts(m, entries).dom().finite(),
        forall|k: Seq<u8>|
            #[trigger] after_inserts(m, entries).contains_key(k) ==> m.contains_key(k) || exists|
                i: int,
            |
                0 <= i < entries.len() && entries[i].0 == k,
    decreases entries.len(),
{
    if entries.len() > 0 {
        let init = entries.drop_last();
        let last = entries.last();
        lemma_inserts_keep_all(m, init);
        let mid = after_inserts(m, init);
        assert(!mid.contains_key(last.0)) by {
            if mid.contains_key(last.0) {
                if !m.contains_key(last.0) {
                    let i = choose|i: int| 0 <= i < init.len() && init[i].0 == last.0;
                    assert(entries[i].0 == entries[entries.len() - 1].0);
                } else {
                    assert(!m.contains_key(entries[entries.len() - 1].0));
                }
            }
        }
        assert(insert_outcome(mid, last.0) == Ok::<bool, AllocError>(true));
        let end = after_inserts(m, entries);
        assert(end == mid.insert(last.0, last.1));
        assert forall|i: int| 0 <= i < entries.len() implies lookup(end, #[trigger] entries[i].0)
            == Some(entries[i].1) by {
            if i < init.len() {
                assert(init[i] == entries[i]);
                assert(lookup(mid, init[i].0) == Some(init[i].1));
            }
        }
        assert forall|k: Seq<u8>| m.contains_key(k) implies lookup(end, k) == lookup(m, k) by {
            assert(lookup(mid, k) == lookup(m, k));
            if k == last.0 {
                assert(!m.contains_key(entries[entries.len() - 1].0));
            }
        }
        assert forall|k: Seq<u8>| #[trigger] end.contains_key(k) implies m.contains_key(k)
            || exists|i: int| 0 <= i < entries.len() && entries[i].0 == k by {
            if k == last.0 {
                assert(entries[entries.len() - 1].0 == k);
            } else {
                assert(mid.contains_key(k));
                if !m.contains_key(k) {
                    let i = choose|i: int| 0 <= i < init.len() && init[i].0 == k;
                    assert(entries[i].0 == k);
                }
            }
        }
    }
}

/// A table holds at most seven entries for every eight slots, so a table
/// that holds more entries than seven eighths of the slots it had has grown.
pub proof fn lemma_growth<V>(before: &RawTable<V>, after: &RawTable<V>)
    requires
        before.wf(),
        after.wf(),
        after@.len() * 8 > before.spec_capacity() * 7,
    ensures
        after.spec_capacity() > before.spec_capacity(),
{
    after.lemma_len();
}

} // verus!
