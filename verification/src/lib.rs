//! An append-only store of byte records, addressed by dense sequence numbers.
//!
//! A store pair is two byte streams: a data store holding the record payloads
//! back to back, and an index store holding one fixed-width entry per record
//! that says where the payload lies in the data store. Records are only ever
//! appended and read by position; none is changed or removed.
//!
//! - [`store`] says what the engine asks of a byte stream, and [`memory`]
//!   gives one that lives in a vector.
//! - [`endian`] and [`index`] fix the bytes of an index entry.
//! - [`layout`] is the mathematical model of a store pair, with the facts
//!   that hold of it.
//! - [`db`] is the engine itself.

#![allow(unused_imports)]

pub mod db;
pub mod endian;
pub mod index;
pub mod layout;
pub mod memory;
pub mod store;

pub use db::DB;
pub use index::IndexEntry;
pub use memory::MemStore;
pub use store::{Error, Store};
