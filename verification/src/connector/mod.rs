//! Sinks: where the changes of a stream go.

pub mod json;
pub mod kafka;
pub mod sink;
