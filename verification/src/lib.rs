//! A key/value store library: an in-memory store, a log-structured store
//! whose in-memory index is replayed from command logs, the wire protocol
//! of the networked store, and the helpers that name and find log files.

pub mod console;
pub mod decimal;
pub mod engine;
pub mod files;
pub mod logstore;
pub mod memory;
pub mod protocol;
mod foreign;
pub mod strmap;

pub use strmap::StrMap;
