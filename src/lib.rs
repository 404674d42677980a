//! A typed columnar data model (arrays, builders, data chunks) and a
//! segment-based table store with snapshot-isolated transactions.
pub mod array;
pub mod catalog;
pub mod data_chunk;
pub mod encoding;
pub mod executor;
pub mod rowset;
pub mod storage;
pub mod types;
