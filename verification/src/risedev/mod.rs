//! Settings for a development cluster.

pub mod frontend_gen;
