//! The map of the catalog and of the key/value engine: byte strings to
//! shared values.
//!
//! A [`Coremap`] is a probing table whose values are shared handles. A handle
//! that [`Coremap::get`] hands out stays valid whatever happens to the map
//! afterwards, and the map can tell whether anybody else holds a handle to a
//! value, which is what lets the catalog refuse to drop a table that is in
//! use.
//!
//! The map is a plain value: a function that changes it takes it by `&mut`,
//! and each function says exactly what it does to the entries. Threads that
//! share a map put it behind a lock, a single one over the whole map, and
//! take the lock around each call. With the writer's lock held, an insert
//! under a key and the test and removal of [`Coremap::remove_if`] are each
//! one step that no other thread gets into.

use vstd::prelude::*;
use std::sync::Arc;
use vstd::string::StringSliceAdditionalSpecFns;
use crate::skymap::table::{
    bytes_eq, RawTable, AllocError, MAX_LEN, insert_outcome, after_insert, lookup,
};
use crate::sync::{share, strong_count};

verus! {

/// A byte string: the key of a table, or a value in it.
#[derive(Debug)]
pub struct Data {
    blob: Vec<u8>,
}

impl View for Data {
    type V = Seq<u8>;

    /// The bytes.
    closed spec fn view(&self) -> Seq<u8> {
        self.blob@
    }
}

impl Data {
    /// Makes a byte string of the bytes of `bytes`.
    pub fn copy_from_slice(bytes: &[u8]) -> (r: Data)
        ensures
            r@ == bytes@,
    {
        Data { blob: vstd::slice::slice_to_vec(bytes) }
    }

    /// Makes a byte string of the bytes of `blob`.
    pub fn from_blob(blob: Vec<u8>) -> (r: Data)
        ensures
            r@ == blob@,
    {
        Data { blob }
    }

    /// The bytes.
    pub fn as_slice(&self) -> (r: &[u8])
        ensures
            r@ == self@,
    {
        self.blob.as_slice()
    }

    /// The bytes, copied.
    pub fn to_vec(&self) -> (r: Vec<u8>)
        ensures
            r@ == self@,
    {
        vstd::slice::slice_to_vec(self.blob.as_slice())
    }

    /// The number of bytes.
    pub fn len(&self) -> (r: usize)
        ensures
            r == self@.len(),
    {
        self.blob.len()
    }
}

impl Clone for Data {
    fn clone(&self) -> (r: Data)
        ensures
            r@ == self@,
    {
        Data { blob: vstd::slice::slice_to_vec(self.blob.as_slice()) }
    }
}

impl PartialEq for Data {
    fn eq(&self, other: &Data) -> (r: bool) {
        bytes_eq(self.blob.as_slice(), other.blob.as_slice())
    }
}

impl vstd::std_specs::cmp::PartialEqSpecImpl for Data {
    open spec fn obeys_eq_spec() -> bool {
        true
    }

    open spec fn eq_spec(&self, other: &Data) -> bool {
        self@ == other@
    }
}

impl From<&str> for Data {
    fn from(s: &str) -> (r: Data)
        ensures
            r@ == s.spec_bytes(),
    {
        Data { blob: vstd::slice::slice_to_vec(s.as_bytes()) }
    }
}

impl vstd::std_specs::convert::FromSpecImpl<&str> for Data {
    open spec fn obeys_from_spec() -> bool {
        false
    }

    open spec fn from_spec(s: &str) -> Data {
        arbitrary()
    }
}

/// What a conditional removal came to.
pub enum Removal<V> {
    /// There was no entry under the key.
    Absent,
    /// There was an entry, and the condition kept it.
    Kept,
    /// The entry was removed; this is the handle to its value.
    Removed(Arc<V>),
}

/// The conditions under which a map removes an entry.
#[derive(Debug, Clone, Copy, PartialEq, Eq, Structural)]
pub enum Condition {
    /// Whatever the value.
    Always,
    /// Only if the map holds the one handle to the value.
    Unshared,
}

/// Does the condition hold of a value to which there are `handles` handles?
pub open spec fn condition_holds(cond: Condition, handles: usize) -> bool {
    cond is Always || handles == 1
}

/// Tells whether the condition holds of a value to which there are
/// `handles` handles.
pub fn holds_of(cond: Condition, handles: usize) -> (r: bool)
    ensures
        r == condition_holds(cond, handles),
{
    match cond {
        Condition::Always => true,
        Condition::Unshared => handles == 1,
    }
}

/// A map from byte strings to shared values.
///
/// A function that changes the map checks the table out of it, changes it
/// and puts it back, so that the map never holds a table that is halfway
/// through a change. A map whose table is checked out holds no entries.
pub struct Coremap<V> {
    table: Option<RawTable<Arc<V>>>,
}

impl<V> View for Coremap<V> {
    type V = Map<Seq<u8>, Arc<V>>;

    /// The entries of the map.
    closed spec fn view(&self) -> Map<Seq<u8>, Arc<V>> {
        match self.table {
            Some(table) => table@,
            None => Map::empty(),
        }
    }
}

impl<V> Coremap<V> {
    #[verifier::type_invariant]
    spec fn inv(self) -> bool {
        self.table matches Some(t) ==> t.wf()
    }

    /// Makes an empty map.
    pub fn new() -> (r: Self)
        ensures
            r@ == Map::<Seq<u8>, Arc<V>>::empty(),
    {
        Coremap { table: Some(RawTable::new()) }
    }

    /// Returns a handle to the value under `key`, if there is one.
    pub fn get(&self, key: &[u8]) -> (r: Option<Arc<V>>)
        ensures
            r == lookup(self@, key@),
    {
        proof {
            use_type_invariant(self);
        }
        match &self.table {
            Some(table) => match table.get(key) {
                Some(handle) => Some(share(handle)),
                None => None,
            },
            None => None,
        }
    }

    /// Does the map hold an entry under `key`?
    pub fn contains(&self, key: &[u8]) -> (r: bool)
        ensures
            r == self@.contains_key(key@),
    {
        proof {
            use_type_invariant(self);
        }
        match &self.table {
            Some(table) => table.contains_key(key),
            None => false,
        }
    }

    /// The number of entries. A map holds finitely many entries, and no more
    /// than a table takes.
    pub fn len(&self) -> (r: usize)
        ensures
            r == self@.len(),
            self@.dom().finite(),
            r <= MAX_LEN,
    {
        proof {
            use_type_invariant(self);
        }
        match &self.table {
            Some(table) => {
                proof {
                    table.lemma_len();
                }
                table.len()
            },
            None => 0,
        }
    }

    /// Inserts `value` under `key` unless the map holds the key already, and
    /// says whether the entry went in. An entry under a new key goes in
    /// unless the map is full, which is an error.
    pub fn insert_if_absent(&mut self, key: Vec<u8>, value: Arc<V>) -> (r: Result<bool, AllocError>)
        ensures
            r == insert_outcome(old(self)@, key@),
            final(self)@ == after_insert(old(self)@, key@, value),
    {
        let mut table = self.check_out();
        let went_in = table.insert(key, value);
        self.check_in(table);
        went_in
    }

    /// Removes the entry under `key`, and returns the handle to its value.
    pub fn remove(&mut self, key: &[u8]) -> (r: Option<Arc<V>>)
        ensures
            r == lookup(old(self)@, key@),
            final(self)@ == old(self)@.remove(key@),
    {
        let mut table = self.check_out();
        let removed = table.remove(key);
        self.check_in(table);
        removed
    }

    /// Removes the entry under `key` if `pred` holds of its value. Says
    /// whether there was no such entry, or the predicate kept it, or it was
    /// removed, and hands out the handle to a value that was removed.
    ///
    /// The predicate runs while the table is in the map, so a predicate
    /// that panics leaves the map as it was.
    pub fn remove_where<F: Fn(&Arc<V>) -> bool>(&mut self, key: &[u8], pred: F) -> (r: Removal<V>)
        requires
            forall|v: &Arc<V>| call_requires(pred, (v,)),
        ensures
            r is Absent <==> !old(self)@.contains_key(key@),
            r matches Removal::Removed(handle) ==> handle == old(self)@[key@] && call_ensures(
                pred,
                (&old(self)@[key@],),
                true,
            ),
            r is Kept ==> call_ensures(pred, (&old(self)@[key@],), false),
            final(self)@ == (if r is Removed {
                old(self)@.remove(key@)
            } else {
                old(self)@
            }),
    {
        proof {
            use_type_invariant(&*self);
        }
        let found = match &self.table {
            Some(table) => match table.get(key) {
                Some(handle) => Some(pred(handle)),
                None => None,
            },
            None => None,
        };
        match found {
            None => Removal::Absent,
            Some(false) => Removal::Kept,
            Some(true) => {
                let mut table = self.check_out();
                let removed = table.remove(key);
                self.check_in(table);
                match removed {
                    Some(handle) => Removal::Removed(handle),
                    None => Removal::Absent,
                }
            },
        }
    }

    /// Removes the entry under `key` if the condition holds of its value.
    /// Says whether there was no such entry, or the condition kept it, or it
    /// was removed, and hands out the handle to a value that was removed.
    ///
    /// Whether `Unshared` holds is a matter of how many handles there are at
    /// the moment of the call, which other threads change as they take and
    /// drop handles; [`holds_of`] says what follows from the number.
    pub fn remove_if(&mut self, key: &[u8], cond: Condition) -> (r: Removal<V>)
        ensures
            r is Absent <==> !old(self)@.contains_key(key@),
            r matches Removal::Removed(handle) ==> handle == old(self)@[key@],
            cond is Always ==> !(r is Kept),
            final(self)@ == (if r is Removed {
                old(self)@.remove(key@)
            } else {
                old(self)@
            }),
    {
        let pred = |handle: &Arc<V>| -> (b: bool)
            ensures
                cond is Always ==> b,
            { holds_of(cond, strong_count(handle)) };
        self.remove_where(key, pred)
    }

    /// Checks the table out of the map; an empty table if there is none.
    fn check_out(&mut self) -> (r: RawTable<Arc<V>>)
        ensures
            r.wf(),
            r@ == old(self)@,
    {
        proof {
            use_type_invariant(&*self);
        }
        let mut taken: Option<RawTable<Arc<V>>> = None;
        std::mem::swap(&mut self.table, &mut taken);
        match taken {
            Some(table) => table,
            None => RawTable::new(),
        }
    }

    /// Puts a table back into the map.
    fn check_in(&mut self, table: RawTable<Arc<V>>)
        requires
            table.wf(),
        ensures
            final(self)@ == table@,
    {
        let mut back = Some(table);
        std::mem::swap(&mut self.table, &mut back);
    }
}

impl<V> Default for Coremap<V> {
    fn default() -> (r: Self)
        ensures
            r@ == Map::<Seq<u8>, Arc<V>>::empty(),
    {
        Coremap::new()
    }
}

} // verus!
