//! Storage adapter core for a relational query engine backed by an embedded,
//! ordered, memory-mapped key-value store: the domain row model, the row
//! codec, the schema store logic, and the scan/lookup engine.

pub mod capability;
pub mod codec;
pub mod error;
pub mod scan;
pub mod schema;
pub mod hex;
pub mod store;
pub mod value;
