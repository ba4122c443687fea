//! CRDT operation records.
//!
//! Every catalog mutation is captured as a structured operation alongside the
//! local write, so that any replica can replay the mutation. An operation
//! carries the synthetic identity of the affected row and, for updates, the
//! field/value pairs written.

use vstd::prelude::*;

verus! {

/// The replicated identity of a catalog row.
#[derive(Debug)]
pub enum SyncId {
    /// A file path is identified by its per-location id and the owning
    /// location's public id.
    FilePath { id: i32, location_pub_id: u128 },
    /// An object is identified by its own public id.
    Object { pub_id: u128 },
}

/// A value carried by a recorded mutation.
#[derive(Debug)]
pub enum SyncValue {
    Null,
    Bool(bool),
    Text(String),
    Int(i64),
    Uint(u64),
    /// A 16-byte public identifier.
    PubId(u128),
}

/// One written field.
#[derive(Debug)]
pub struct FieldValue {
    pub field: String,
    pub value: SyncValue,
}

/// A recorded mutation intent, replayable on any replica.
#[derive(Debug)]
pub enum CrdtOperation {
    /// Creation of a row the local node owns, with its initial fields.
    OwnedCreate { id: SyncId, fields: Vec<FieldValue> },
    /// An update to a row the local node owns.
    OwnedUpdate { id: SyncId, fields: Vec<FieldValue> },
    /// A deletion of a row the local node owns.
    OwnedDelete { id: SyncId },
    /// Creation of a row shared between nodes.
    SharedCreate { id: SyncId },
    /// An update to one field of a shared row.
    SharedUpdate { id: SyncId, field: String, value: SyncValue },
}

} // verus!
