//! Tables on top of a key-value store, and an object store.

pub mod cell_based_reader;
pub mod cell_based_table;
pub mod mem_table;
pub mod monitor;
pub mod mview;
pub mod object_store;
pub mod row;
