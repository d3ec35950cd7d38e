//! An in-process, non-persistent key-value store whose records are
//! partitioned into categories.
//!
//! Records are byte strings; a record is addressed by a [`DataCategory`] and
//! a raw key, also a byte string. The store keeps every record under one
//! composite key, the category's literal prefix followed by the raw key.
//!
//! * [`category`] defines the categories, their prefixes and the composite
//!   key, and proves which addresses can and cannot name the same record.
//! * [`contents`] says what a store holds, as a mathematical map, and what
//!   each operation does to it, and proves the laws that follow.
//! * [`storage`] holds the records: [`Storage`], whose every operation is
//!   verified to do to its contents exactly what [`contents`] says.
//! * [`memory`] is the store: [`MemoryDB`], which shares one [`Storage`] among
//!   threads behind a reader-writer lock.
//! * [`sync`] declares that lock to the verifier.
//! * [`error`] names what can go wrong.
//!
//! Nothing is written anywhere but to memory: a store is created empty and
//! is gone when the value is dropped.

pub mod category;
pub mod contents;
pub mod error;
pub mod memory;
pub mod storage;
pub mod sync;

pub use category::DataCategory;
pub use error::DatabaseError;
pub use memory::MemoryDB;
pub use storage::Storage;
