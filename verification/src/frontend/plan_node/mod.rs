//! The nodes of query plans.

pub mod base;
pub mod batch_hash_join;
pub mod logical_agg;
pub mod logical_insert;
pub mod logical_join;
pub mod logical_project;
pub mod logical_scan;
pub mod logical_values;
pub mod node;
pub mod prune;
pub mod stream_hash_join;
