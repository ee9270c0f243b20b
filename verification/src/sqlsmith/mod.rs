//! Random SQL.

pub mod expr;
