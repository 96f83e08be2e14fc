//! Wrappers around object stores: a mirror of writes to a second store, and a local write-back
//! cache.
//!
//! An operation on a wrapped store is a value that says which call to make of which store
//! underneath, and is advanced by the reply: see [`protocol`]. What the operations amount to as a
//! whole is stated in [`laws`].

pub mod commit;
pub mod laws;
pub mod listing;
pub mod local_cache;
pub mod location;
pub mod location_map;
pub mod mirror;
pub mod operation;
pub mod protocol;
pub mod pull;
pub mod removal;
pub mod text;
pub mod wrapper;
