//! Answering statements.

pub mod create_source;
pub mod create_table;
pub mod text_util;
pub mod util;
