//! An embedded time-series store: a fixed-width record codec, the decisions of
//! the per-metric storage engine (rotation, retention, file ordering) and a
//! set-once reporter registry that routes emitted metrics to a backend.
pub mod codec;
pub mod error;
pub mod pairs;
pub mod query;
pub mod reporter;
pub mod storage;
