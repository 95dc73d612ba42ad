//! The probing table and the primitives it scans with.

pub mod bitmask;
pub mod group;
pub mod probe;
pub mod hash;
pub mod mapalloc;
pub mod table;
pub mod laws;
