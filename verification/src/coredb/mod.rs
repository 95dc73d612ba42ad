//! What is built on the probing table: identifiers, the map of shared values
//! and the catalog.

use vstd::prelude::*;

pub mod array;
pub mod htable;
pub mod memstore;

verus! {

/// The snapshot policy of a keyspace: how many snapshots are kept.
#[derive(Debug, Clone, Copy, PartialEq, Eq, Structural)]
pub struct SnapshotStatus {
    /// The number of snapshots that are kept at most.
    pub max: usize,
}

impl SnapshotStatus {
    /// Makes a policy that keeps at most `max` snapshots.
    pub fn new(max: usize) -> (r: Self)
        ensures
            r.max == max,
    {
        SnapshotStatus { max }
    }
}

} // verus!
