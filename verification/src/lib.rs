//! Session-scoped message logs over a content-addressed payload store.
//!
//! The crate is the decision-making core of three storage engines. None of
//! them touches a file or a database itself. A write is answered with the
//! list of [`disk::DiskOp`]s that the caller has to carry out on its medium;
//! a read is handed what the medium holds for the session, and a function
//! through which it fetches the payloads that are stored apart.
//!
//! - [`gc`]: the id-addressed append store and its collector,
//! - [`consolidated`]: the consolidated overwrite store,
//! - [`atomic`]: the atomic-batch store,
//! - [`cache`]: the cache of payloads that are held in memory,
//! - [`collector`]: the sweep of a collection,
//! - [`codec`]: the stored form of records, written and read by bincode,
//! - [`layout`]: where the entries of the file-backed stores are kept,
//! - [`disk`]: the operations on a medium and the model of what it holds,
//! - [`laws`]: the round-trip, deduplication and collection guarantees,
//!   proved over that model.

pub mod atomic;
pub mod cache;
pub mod codec;
pub mod collector;
pub mod consolidated;
pub mod disk;
pub mod error;
pub mod gc;
pub mod layout;
pub mod record;
pub mod storage;
pub mod laws;
