//! The key/value engine: the one kind of table there is.

use vstd::prelude::*;
use std::sync::Arc;
use crate::coredb::htable::{Coremap, Data};
use crate::skymap::table::{AllocError, insert_outcome, lookup};

verus! {

/// A key/value store from byte strings to byte strings.
pub struct KVEngine {
    table: Coremap<Data>,
}

impl View for KVEngine {
    type V = Map<Seq<u8>, Arc<Data>>;

    /// The entries of the store.
    closed spec fn view(&self) -> Map<Seq<u8>, Arc<Data>> {
        self.table@
    }
}

impl KVEngine {
    /// Makes an empty store.
    pub fn init() -> (r: Self)
        ensures
            r@ == Map::<Seq<u8>, Arc<Data>>::empty(),
    {
        KVEngine { table: Coremap::new() }
    }

    /// Returns a handle to the value under `key`, if there is one.
    pub fn get(&self, key: &Data) -> (r: Option<Arc<Data>>)
        ensures
            r == lookup(self@, key@),
    {
        self.table.get(key.as_slice())
    }

    /// Does the store hold a value under `key`?
    pub fn contains(&self, key: &Data) -> (r: bool)
        ensures
            r == self@.contains_key(key@),
    {
        self.table.contains(key.as_slice())
    }

    /// Puts `value` under `key` unless the store holds the key already, and
    /// says whether it did; a store that cannot take the entry is an error.
    /// Nothing but the entry under `key` changes.
    pub fn set(&mut self, key: Data, value: Data) -> (r: Result<bool, AllocError>)
        ensures
            r == insert_outcome(old(self)@, key@),
            r == Ok::<bool, AllocError>(true) ==> {
                &&& final(self)@ == old(self)@.insert(key@, final(self)@[key@])
                &&& final(self)@[key@]@ == value@
            },
            r != Ok::<bool, AllocError>(true) ==> final(self)@ == old(self)@,
    {
        let handle = Arc::new(value);
        self.table.insert_if_absent(key.to_vec(), handle)
    }

    /// Removes the value under `key`, and says whether there was one.
    pub fn remove(&mut self, key: &Data) -> (r: bool)
        ensures
            r == old(self)@.contains_key(key@),
            final(self)@ == old(self)@.remove(key@),
    {
        self.table.remove(key.as_slice()).is_some()
    }

    /// The number of entries.
    pub fn len(&self) -> (r: usize)
        ensures
            r == self@.len(),
    {
        self.table.len()
    }
}

impl Default for KVEngine {
    fn default() -> (r: Self)
        ensures
            r@ == Map::<Seq<u8>, Arc<Data>>::empty(),
    {
        KVEngine::init()
    }
}

} // verus!
