//! Executors of streaming queries.

pub mod basic_table;
pub mod executor;
pub mod hash_join;
pub mod materialize;
pub mod merge;
pub mod message;
pub mod task;
