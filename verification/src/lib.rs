//! Typed tables over an embedded, transactional, ordered key-value store.
//!
//! A [`Table`] binds one named partition of the store to one record type
//! and offers reads, writes, scans and in-place updates on it, each either
//! inside a transaction of the caller or in one of its own.

pub mod clock;
pub mod codec;
pub mod error;
pub mod keys;
pub mod laws;
pub mod outcome;
pub mod person_list_metadata1;
pub mod record;
pub mod rows;
pub mod steps;
pub mod store;
pub mod table;

pub use error::TableError;
pub use person_list_metadata1::PersonListMetadata1;
pub use record::{ByteRep, Record};
pub use table::Table;
