//! The decision logic of a streaming database: compaction scheduling, plan
//! properties, plan fragmentation, row encodings, stream merging and the
//! bookkeeping around them. Every item is verified; the program around it
//! performs the input and output.

pub mod batch;
pub mod bench;
pub mod catalog;
pub mod common;
pub mod connector;
pub mod expr;
pub mod frontend;
pub mod hummock;
pub mod meta;
pub mod risedev;
pub mod source;
pub mod sqlsmith;
pub mod storage;
pub mod stream;
