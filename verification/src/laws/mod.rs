//! What the operations amount to, as a whole.

pub mod characters;
pub mod commits;
pub mod listings;
pub mod locations;
pub mod mirrors;
pub mod moves;
pub mod operations;
pub mod outcomes;
pub mod pulls;
pub mod ranks;
pub mod records;
mod sequences;
pub mod states;
pub mod sync_moves;
pub mod views;
pub mod world;
