//! Object-to-hash mapping for a key-value store.
//!
//! Records are flattened into ordered attribute lists, persisted under a
//! fixed key naming scheme, kept consistent with uniqueness maps and index
//! sets, and queried through set expressions over those indices.
//!
//! This crate is free of I/O: every operation produces the exact commands or
//! payloads to send to the store and interprets the store's replies.

pub mod decimal;
pub mod keys;
pub mod error;
pub mod codec;
pub mod record;
pub mod command;
pub mod relation;
pub mod msgpack;
pub mod protocol;
pub mod query;
pub mod persist;
pub mod model;

pub use error::OhmerError;
pub use persist::{all_query, get, with, Iter};
pub use query::Query;
pub use record::Ohmer;
pub use relation::{Collection, Counter, IdSet, List, Reference};
