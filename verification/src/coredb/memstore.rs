//! The catalog: keyspaces, and the tables in them.
//!
//! ```text
//! node
//! |-- keyspace "default"
//! |   |-- table "default"
//! |   `-- table "_system"
//! `-- keyspace ...
//!     `-- table ...
//! ```
//!
//! A [`Memstore`] is the root. Keyspaces and tables are handed out as
//! shared handles: each is a value behind a lock of its own, and a table is
//! only dropped from its keyspace while nobody else holds a handle to it.
//!
//! The catalog is a plain value. A function that changes a node or a
//! keyspace takes it by `&mut` and says exactly which names it holds
//! afterwards; threads that share a node or a keyspace take its lock around
//! each call.

use vstd::prelude::*;
use std::sync::Arc;
use crate::coredb::array::Array;
use crate::coredb::htable::{Condition, Coremap, Data, Removal};
use crate::coredb::SnapshotStatus;
use crate::kvengine::KVEngine;
use crate::skymap::table::{bytes_eq, AllocError, MAX_LEN, insert_outcome, lookup};
use crate::sync::Shared;

verus! {

/// The name of the keyspace and of the table that every node starts with.
pub const DEFAULT_ARRAY: [u8; 7] = [0x64, 0x65, 0x66, 0x61, 0x75, 0x6c, 0x74];

/// The name of the table that the system keeps for itself.
pub const SYSTEM_ARRAY: [u8; 7] = [0x5f, 0x73, 0x79, 0x73, 0x74, 0x65, 0x6d];

/// The name of a keyspace: at most 64 bytes.
pub type ObjectID = Array<64>;

/// The part of a cluster that a node serves. There is one node.
#[derive(Debug, PartialEq, Eq, Structural)]
pub enum ClusterShardRange {
    /// The node serves everything.
    SingleNode,
}

impl Default for ClusterShardRange {
    fn default() -> (r: Self)
        ensures
            r == ClusterShardRange::SingleNode,
    {
        ClusterShardRange::SingleNode
    }
}

/// How a keyspace is replicated. There are no replicas.
#[derive(Debug, PartialEq, Eq, Structural)]
pub enum ReplicationStrategy {
    /// A single node without replicas.
    Default,
}

impl Default for ReplicationStrategy {
    fn default() -> (r: Self)
        ensures
            r == ReplicationStrategy::Default,
    {
        ReplicationStrategy::Default
    }
}

/// Why the catalog refused to drop an object.
#[derive(Debug, PartialEq, Eq, Structural)]
pub enum DdlError {
    /// Somebody else holds a handle to the object.
    StillInUse,
    /// There is no such object.
    ObjectNotFound,
    /// The object is one that nobody may drop.
    ProtectedObject,
}

/// The kinds of tables.
pub enum TableType {
    /// A key/value store.
    KeyValue,
}

/// A table.
pub enum Table {
    /// A key/value store.
    KV(KVEngine),
}

impl Table {
    /// The entries of the table.
    pub open spec fn entries(&self) -> Map<Seq<u8>, Arc<Data>> {
        match self {
            Table::KV(kvs) => kvs@,
        }
    }

    /// Makes an empty table of the given kind.
    pub fn new(table_type: TableType) -> (r: Self)
        ensures
            r.entries() == Map::<Seq<u8>, Arc<Data>>::empty(),
    {
        match table_type {
            TableType::KeyValue => Table::KV(KVEngine::default()),
        }
    }

    /// Returns the key/value store of a table that is one.
    pub fn get_kvstore(&self) -> (r: Option<&KVEngine>)
        ensures
            r == (match self {
                Table::KV(kvs) => Some(kvs),
            }),
    {
        match self {
            Table::KV(kvs) => Some(kvs),
        }
    }

    /// Returns a handle to the value under `key`, if there is one.
    pub fn get(&self, key: &Data) -> (r: Option<Arc<Data>>)
        ensures
            r == lookup(self.entries(), key@),
    {
        match self {
            Table::KV(kvs) => kvs.get(key),
        }
    }

    /// Puts `value` under `key` unless the table holds the key already, and
    /// says whether it did. Nothing but the entry under `key` changes.
    pub fn set(&mut self, key: Data, value: Data) -> (r: Result<bool, AllocError>)
        ensures
            r == insert_outcome(old(self).entries(), key@),
            r == Ok::<bool, AllocError>(true) ==> {
                &&& final(self).entries() == old(self).entries().insert(
                    key@,
                    final(self).entries()[key@],
                )
                &&& final(self).entries()[key@]@ == value@
            },
            r != Ok::<bool, AllocError>(true) ==> final(self).entries() == old(self).entries(),
    {
        match self {
            Table::KV(kvs) => kvs.set(key, value),
        }
    }

    /// Removes the value under `key`, and says whether there was one.
    pub fn remove(&mut self, key: &Data) -> (r: bool)
        ensures
            r == old(self).entries().contains_key(key@),
            final(self).entries() == old(self).entries().remove(key@),
    {
        match self {
            Table::KV(kvs) => kvs.remove(key),
        }
    }
}

/// The name of the bootstrap keyspace and table, `default`.
pub open spec fn default_name() -> Seq<u8> {
    DEFAULT_ARRAY@
}

/// The name of the system table, `_system`.
pub open spec fn system_name() -> Seq<u8> {
    SYSTEM_ARRAY@
}

/// Is `name` the name of a table that nobody may drop?
pub open spec fn is_protected(name: Seq<u8>) -> bool {
    name == default_name() || name == system_name()
}

/// Returns the name of the bootstrap keyspace.
pub fn default_id() -> (r: ObjectID)
    ensures
        r@ == default_name(),
{
    match ObjectID::try_from_slice(DEFAULT_ARRAY.as_slice()) {
        Some(id) => id,
        None => ObjectID::new(),
    }
}

/// Tells whether `name` is the name of a table that nobody may drop.
pub fn protected_table(name: &[u8]) -> (r: bool)
    ensures
        r == is_protected(name@),
{
    bytes_eq(name, DEFAULT_ARRAY.as_slice()) || bytes_eq(name, SYSTEM_ARRAY.as_slice())
}

/// What dropping a table comes to, given what was found: whether the name
/// is protected, whether the keyspace held a table of that name, and whether
/// the table was removed, which it is only if nobody else held a handle.
pub open spec fn drop_verdict(protected: bool, present: bool, removed: bool) -> Result<
    (),
    DdlError,
> {
    if protected {
        Err(DdlError::ProtectedObject)
    } else if !present {
        Err(DdlError::ObjectNotFound)
    } else if removed {
        Ok(())
    } else {
        Err(DdlError::StillInUse)
    }
}

/// Tells what dropping a table comes to, given whether its name is
/// protected and what the removal came to.
pub fn drop_outcome<V>(protected: bool, removal: &Removal<V>) -> (r: Result<(), DdlError>)
    ensures
        r == drop_verdict(protected, !(removal is Absent), removal is Removed),
{
    if protected {
        Err(DdlError::ProtectedObject)
    } else {
        match removal {
            Removal::Absent => Err(DdlError::ObjectNotFound),
            Removal::Kept => Err(DdlError::StillInUse),
            Removal::Removed(_) => Ok(()),
        }
    }
}

/// The two names that are protected differ.
pub proof fn lemma_names_differ()
    ensures
        default_name() != system_name(),
{
    assert(DEFAULT_ARRAY@[0] == 0x64);
    assert(SYSTEM_ARRAY@[0] == 0x5f);
}

/// A map of one entry has room for more.
proof fn lemma_one_entry<V>(key: Seq<u8>, value: V)
    ensures
        Map::<Seq<u8>, V>::empty().len() == 0,
        Map::<Seq<u8>, V>::empty().insert(key, value).dom().finite(),
        Map::<Seq<u8>, V>::empty().insert(key, value).len() == 1,
{
    assert(Map::<Seq<u8>, V>::empty().insert(key, value).dom() =~= Set::empty().insert(key));
}

/// A keyspace: a set of tables with names.
pub struct Keyspace {
    tables: Coremap<Shared<Table>>,
    flush_state_healthy: bool,
    snap_config: Option<SnapshotStatus>,
    replication_strategy: ReplicationStrategy,
}

impl Keyspace {
    /// The tables of the keyspace: the handle to each, under its name.
    pub closed spec fn tables(&self) -> Map<Seq<u8>, Arc<Shared<Table>>> {
        self.tables@
    }

    /// Did the last flush to disk go well?
    pub closed spec fn spec_flush_healthy(&self) -> bool {
        self.flush_state_healthy
    }

    /// The snapshot policy of the keyspace, if it has one.
    pub closed spec fn spec_snap_config(&self) -> Option<SnapshotStatus> {
        self.snap_config
    }

    /// The replication strategy of the keyspace.
    pub closed spec fn spec_replication_strategy(&self) -> ReplicationStrategy {
        self.replication_strategy
    }

    /// `self` is `before` but for its tables.
    pub open spec fn same_settings(&self, before: &Self) -> bool {
        &&& self.spec_flush_healthy() == before.spec_flush_healthy()
        &&& self.spec_snap_config() == before.spec_snap_config()
        &&& self.spec_replication_strategy() == before.spec_replication_strategy()
    }

    /// Every table of the keyspace was empty when it was made.
    pub open spec fn tables_made_empty(&self) -> bool {
        forall|name: Seq<u8>| #[trigger]
            self.tables().contains_key(name) ==> self.tables()[name].made_with().entries()
                == Map::<Seq<u8>, Arc<Data>>::empty()
    }

    /// Makes a keyspace with the two tables that every keyspace starts with:
    /// `default` and `_system`, both empty. Flushes are healthy, there is no
    /// snapshot policy, and the keyspace is not replicated.
    pub fn empty_default() -> (r: Self)
        ensures
            r.tables().dom() =~= set![default_name(), system_name()],
            r.tables_made_empty(),
            r.spec_flush_healthy(),
            r.spec_snap_config() is None,
            r.spec_replication_strategy() == ReplicationStrategy::Default,
    {
        let mut ks = Keyspace::empty();
        let _ = ks.create_table(Data::copy_from_slice(DEFAULT_ARRAY.as_slice()), TableType::KeyValue);
        proof {
            lemma_names_differ();
            lemma_one_entry(default_name(), ks.tables()[default_name()]);
        }
        let _ = ks.create_table(Data::copy_from_slice(SYSTEM_ARRAY.as_slice()), TableType::KeyValue);
        ks
    }

    /// Makes a keyspace without tables. Flushes are healthy, there is no
    /// snapshot policy, and the keyspace is not replicated.
    pub fn empty() -> (r: Self)
        ensures
            r.tables() == Map::<Seq<u8>, Arc<Shared<Table>>>::empty(),
            r.spec_flush_healthy(),
            r.spec_snap_config() is None,
            r.spec_replication_strategy() == ReplicationStrategy::Default,
    {
        Keyspace {
            tables: Coremap::new(),
            flush_state_healthy: true,
            snap_config: None,
            replication_strategy: ReplicationStrategy::default(),
        }
    }

    /// Tells whether the last flush to disk went well.
    pub fn is_flush_healthy(&self) -> (r: bool)
        ensures
            r == self.spec_flush_healthy(),
    {
        self.flush_state_healthy
    }

    /// Records whether the last flush to disk went well.
    pub fn set_flush_health(&mut self, healthy: bool)
        ensures
            final(self).spec_flush_healthy() == healthy,
            final(self).tables() == old(self).tables(),
            final(self).spec_snap_config() == old(self).spec_snap_config(),
            final(self).spec_replication_strategy() == old(self).spec_replication_strategy(),
    {
        self.flush_state_healthy = healthy;
    }

    /// Returns a handle to the table of that name, if there is one.
    pub fn get_table_atomic_ref(&self, table_identifier: Data) -> (r: Option<Arc<Shared<Table>>>)
        ensures
            r == lookup(self.tables(), table_identifier@),
    {
        self.tables.get(table_identifier.as_slice())
    }

    /// Makes an empty table of that name unless there is one already, and
    /// says whether it did; a keyspace that cannot take the table is an
    /// error. Nothing but the table of that name changes.
    pub fn create_table(&mut self, table_identifier: Data, table_type: TableType) -> (r: Result<
        bool,
        AllocError,
    >)
        ensures
            r == insert_outcome(old(self).tables(), table_identifier@),
            r == Ok::<bool, AllocError>(true) ==> {
                &&& final(self).tables() == old(self).tables().insert(
                    table_identifier@,
                    final(self).tables()[table_identifier@],
                )
                &&& final(self).tables()[table_identifier@].made_with().entries() == Map::<
                    Seq<u8>,
                    Arc<Data>,
                >::empty()
            },
            r != Ok::<bool, AllocError>(true) ==> final(self).tables() == old(self).tables(),
            final(self).same_settings(old(self)),
    {
        let table = Arc::new(Shared::new(Table::new(table_type)));
        self.tables.insert_if_absent(table_identifier.to_vec(), table)
    }

    /// Drops the table of that name.
    ///
    /// The tables `default` and `_system` are never dropped, and a table that
    /// is not there is not found. Another table is dropped if the keyspace
    /// holds the only handle to it, and is still in use if not; which of the
    /// two is a matter of the handles that there are at the moment of the
    /// call. Nothing but the table of that name changes.
    pub fn drop_table(&mut self, table_identifier: Data) -> (r: Result<(), DdlError>)
        ensures
            r == Err::<(), DdlError>(DdlError::ProtectedObject) <==> is_protected(
                table_identifier@,
            ),
            r == Err::<(), DdlError>(DdlError::ObjectNotFound) <==> !is_protected(
                table_identifier@,
            ) && !old(self).tables().contains_key(table_identifier@),
            r is Ok || r == Err::<(), DdlError>(DdlError::StillInUse) <==> !is_protected(
                table_identifier@,
            ) && old(self).tables().contains_key(table_identifier@),
            final(self).tables() == (if r is Ok {
                old(self).tables().remove(table_identifier@)
            } else {
                old(self).tables()
            }),
            final(self).same_settings(old(self)),
    {
        let name = table_identifier.as_slice();
        if protected_table(name) {
            return Err(DdlError::ProtectedObject);
        }
        let removal = self.tables.remove_if(name, Condition::Unshared);
        drop_outcome(false, &removal)
    }
}

/// The node: all keyspaces.
pub struct Memstore {
    keyspaces: Coremap<Shared<Keyspace>>,
}

impl Memstore {
    /// The keyspaces of the node: the handle to each, under its name.
    pub closed spec fn keyspaces(&self) -> Map<Seq<u8>, Arc<Shared<Keyspace>>> {
        self.keyspaces@
    }

    /// Makes a node without keyspaces.
    pub fn new_empty() -> (r: Self)
        ensures
            r.keyspaces() == Map::<Seq<u8>, Arc<Shared<Keyspace>>>::empty(),
    {
        Memstore { keyspaces: Coremap::new() }
    }

    /// Makes a node with the keyspace `default`, which holds the empty
    /// tables `default` and `_system`.
    pub fn new_default() -> (r: Self)
        ensures
            r.keyspaces().dom() =~= set![default_name()],
            r.keyspaces()[default_name()].made_with().tables().dom() =~= set![
                default_name(),
                system_name(),
            ],
            r.keyspaces()[default_name()].made_with().tables_made_empty(),
    {
        let mut n = Coremap::new();
        let keyspace = Arc::new(Shared::new(Keyspace::empty_default()));
        let _ = n.insert_if_absent(vstd::slice::slice_to_vec(DEFAULT_ARRAY.as_slice()), keyspace);
        Memstore { keyspaces: n }
    }

    /// Returns a handle to the keyspace of that name, if there is one.
    pub fn get_keyspace_atomic_ref(&self, keyspace_identifier: ObjectID) -> (r: Option<
        Arc<Shared<Keyspace>>,
    >)
        ensures
            r == lookup(self.keyspaces(), keyspace_identifier@),
    {
        self.keyspaces.get(keyspace_identifier.as_slice())
    }

    /// Makes a keyspace of that name, without tables, unless there is one
    /// already, and says whether it did; a node that cannot take the keyspace
    /// is an error. Nothing but the keyspace of that name changes.
    pub fn create_keyspace(&mut self, keyspace_identifier: ObjectID) -> (r: Result<
        bool,
        AllocError,
    >)
        ensures
            r == insert_outcome(old(self).keyspaces(), keyspace_identifier@),
            r == Ok::<bool, AllocError>(true) ==> {
                &&& final(self).keyspaces() == old(self).keyspaces().insert(
                    keyspace_identifier@,
                    final(self).keyspaces()[keyspace_identifier@],
                )
                &&& final(self).keyspaces()[keyspace_identifier@].made_with().tables() == Map::<
                    Seq<u8>,
                    Arc<Shared<Table>>,
                >::empty()
            },
            r != Ok::<bool, AllocError>(true) ==> final(self).keyspaces() == old(self).keyspaces(),
    {
        let ghost name = keyspace_identifier@;
        let keyspace = Arc::new(Shared::new(Keyspace::empty()));
        self.keyspaces.insert_if_absent(keyspace_identifier.into_vec(), keyspace)
    }
}

} // verus!
