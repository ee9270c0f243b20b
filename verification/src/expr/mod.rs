//! Functions of expressions.

pub mod to_char;
