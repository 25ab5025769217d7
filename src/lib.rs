//! Serving progressively refined subsets of a particle simulation snapshot.
//!
//! A client sends the leaves of the spatial partition that it sees and how many batches
//! of each it already has; the library picks the next batch of every visible leaf and
//! advances the client's progress ([`lod`]). Loaded snapshots are held in a keyed cache
//! ([`data_cache`]) of immutable entries ([`entry`]), whose files are named by
//! [`paths`].
use vstd::prelude::*;

mod arrays;
pub mod data_cache;
pub mod dto;
pub mod entry;
pub mod lod;
pub mod paths;

verus! {

} // verus!
