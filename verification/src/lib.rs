//! In-memory storage core of a key/value database.
//!
//! The crate is built bottom-up:
//!
//! * [`skymap`] holds the probing table: control-byte groups that are scanned
//!   a machine word at a time, the bitmasks such scans produce, the triangular
//!   probe sequence, the table itself, and the laws that hold of it.
//! * [`sync`] holds the shared handles, and the lock that a value is put
//!   behind when threads are to share it.
//! * [`coredb`] holds what is built on the table: identifiers, the map of
//!   shared values, and the catalog of keyspaces and tables.
//! * [`kvengine`] holds the key/value engine, the one kind of table.
//! * [`config`] holds the settings of a server.

pub mod skymap;
pub mod sync;
pub mod coredb;
pub mod kvengine;
pub mod config;
