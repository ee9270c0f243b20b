//! Executors of batch queries.

pub mod executor2_wrapper;
pub mod update;
