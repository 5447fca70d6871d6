//! Core of a personal task tracker whose state lives in two replicas, a
//! client and a server, reconciled on demand.
//!
//! The crate holds the item model (dated todos and weekday-recurring tasks,
//! each with a stable `sync_id` and a change marker), the reconciliation
//! engine that merges two divergent collections, the replica type `TdList`
//! that owns one collection per item kind, a canonical JSON codec for
//! persistence and transport, a password-based crypto codec, and the message
//! layer of the sync protocol. Socket handling and the command-line front end
//! live in a separate, unverified binary crate.

use vstd::prelude::*;

pub mod codec;
pub mod crypto;
pub mod date;
pub mod item;
pub mod sync;
pub mod tdlist;
pub mod transport;

mod rng;

pub use item::{Task, Todo};
pub use tdlist::TdList;

verus! {

/// Errors returned by this crate.
#[derive(Debug, Clone, Copy, PartialEq, Eq, Structural)]
pub enum Error {
    /// No `Todo` with the given `id` exists.
    NoTodoWithGivenIdErr(u64),
    /// No `Task` with the given `id` exists.
    NoTaskWithGivenIdErr(u64),
    /// Encrypting data failed.
    EncryptingErr,
    /// Decrypting data failed: wrong password, tampered or truncated bytes.
    DecryptingErr,
    /// A document could not be parsed as a serialized `TdList`.
    SerdeErr,
    /// Authentication of the client/server failed.
    AuthErr,
    /// The server did not confirm a successful write of the `TdList`.
    ServerWriteFailed,
}

} // verus!
