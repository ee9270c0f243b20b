//! What all parts share.

pub mod bit_set;
pub mod bool_array;
pub mod chunk;
pub mod config;
pub mod error;
pub mod interval;
pub mod lists;
pub mod scalar;
pub mod shared_bytes;
pub mod string_map;
pub mod text;
