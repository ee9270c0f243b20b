//! Sources of data.

pub mod manager;
