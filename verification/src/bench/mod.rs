//! Benchmarks of the store.

pub mod write_batch;
