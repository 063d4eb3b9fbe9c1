//! An in-memory to-do store: records keyed by a monotonically increasing
//! identifier, partitioned per owner, with add, list and delete operations.
pub mod laws;
pub mod store;
