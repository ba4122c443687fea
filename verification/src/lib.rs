//! Verified core of a local-first file library: an indexer that reconciles
//! walked directory entries with a persisted catalog, an identifier that
//! assigns content addresses and links file paths to logical objects, a
//! thumbnailer, and the job runtime pieces they share.

use vstd::prelude::*;

pub mod allocator;
pub mod cas;
pub mod catalog;
pub mod codec;
pub mod events;
pub mod identifier;
pub mod indexer;
pub mod job;
pub mod path;
pub mod sync;
pub mod thumbnailer;

verus! {

/// Number of bytes of a file that contribute to its content address.
pub const CAS_PREFIX_LEN: usize = 131072;

/// The number of entries the shallow indexer writes per catalog batch.
pub const SHALLOW_BATCH_SIZE: usize = 1000;

/// The number of file paths the identifier processes per chunk.
pub const IDENTIFIER_CHUNK_SIZE: usize = 100;

} // verus!
