//! A content-addressed block store.
//!
//! Typed records (file records, metadata records) are mapped to a canonical,
//! deterministic binary encoding; a content identifier (CID) is derived from
//! the SHA-256 digest of those bytes; and the bytes are kept in a flat
//! key-value store under the identifier's textual form. On retrieval the
//! fetched bytes are re-hashed and compared against the identifier's digest
//! before they are handed back, so a stored block can never be silently
//! swapped for other bytes.

pub mod api;
pub mod base32;
pub mod cbor;
pub mod cid;
pub mod err;
pub mod record;
pub mod store;
