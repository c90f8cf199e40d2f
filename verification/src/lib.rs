//! An embedded key-value store whose entries may carry a time-to-live.
//!
//! The engine keeps its records in memory and never reads a clock or a file by
//! itself: every operation that depends on the time takes the current Unix time
//! in seconds, and the whole content can be taken out as a snapshot and put back
//! from one. What each operation returns and how it changes the store is stated
//! over a mathematical map from keys to entries, see [`model`].

pub mod command;
pub mod json;
pub mod kv_store;
pub mod laws;
pub mod model;
pub mod store;
pub mod table;
mod text;
pub mod types;

pub use kv_store::KvStore;
pub use types::{StorageConfig, Value};
