//! Continuous ingestion of newly-landed data files into a versioned,
//! transactional table.
//!
//! The library models the ingestion pipeline: an object-store abstraction
//! with an in-memory backend, the seek/stream logic of the distributed
//! filesystem adapter, a columnar record codec, the transactional table
//! writer with its all-or-nothing commit discipline, and a local
//! checkpoint store — a last-write-wins progress log with
//! point-in-time snapshots and archival export.

pub mod adapter;
pub mod aws;
pub mod checkpoint;
pub mod codec;
pub mod errors;
pub mod local;
pub mod processor;
pub mod store;
pub mod uc;

pub use errors::NativeError;
pub use errors::StoreError;
