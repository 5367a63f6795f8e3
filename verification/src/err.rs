//! The error taxonomy of the store.
//!
//! Every failure of the store is one of these typed, recoverable values;
//! no operation panics on caller-supplied input. Encoding and hashing are
//! total over well-typed records here, so no separate encoding- or
//! computation-fault kind can arise; and the in-memory key-value engine
//! cannot itself fail, so the only write-time failure is finding different
//! bytes already under a key.

use vstd::prelude::*;

verus! {

/// A typed, recoverable failure of a store operation.
#[derive(Clone, Copy, Debug, PartialEq, Eq, Structural)]
pub enum Error {
    /// A link entry of a metadata record is not a well-formed identifier;
    /// carries the index of the first offending entry.
    InvalidLink(usize),
    /// A caller-supplied identifier string is not a well-formed identifier.
    InvalidIdentifier,
    /// The identifier is well-formed but names a codec this store never
    /// produces.
    UnsupportedCodec,
    /// No block is stored under the identifier.
    NotFound,
    /// The bytes found under a key do not match the digest that the key was
    /// derived from, or a write found different bytes already present under
    /// its key.
    StorageCorruption,
}

impl Error {
    /// A short diagnostic name for the error kind.
    pub fn describe(&self) -> &'static str {
        match self {
            Error::InvalidLink(_) => "invalid link",
            Error::InvalidIdentifier => "invalid identifier",
            Error::UnsupportedCodec => "unsupported codec",
            Error::NotFound => "not found",
            Error::StorageCorruption => "storage corruption",
        }
    }
}

} // verus!
