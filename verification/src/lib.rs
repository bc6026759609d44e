//! Storage-engine contract for a document database, with a verified
//! in-memory reference backend.
//!
//! The crate defines the session surface that every storage backend must
//! implement identically: collection and index management, the exclusive
//! write-transaction protocol (begin, prepare, mutate, commit or roll back),
//! and a forward-only reader that streams documents while tracking a
//! diagnostic scan counter. The exact semantics of each operation are stated
//! as postcondition predicates over a mathematical model of the store, and
//! the in-memory backend is proved to satisfy them.

pub mod error;
pub mod laws;
pub mod mem;
pub mod storage;

pub use error::Error;
pub use mem::MemConnection;
pub use mem::MemReader;
pub use storage::Document;
pub use storage::IndexInfo;
pub use storage::IndexKey;
pub use storage::QueryPlan;
pub use storage::StorageConnection;
pub use storage::StorageReader;
