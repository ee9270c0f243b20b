//! From SQL statements to plans.

pub mod binder;
pub mod catalog_service;
pub mod col_index_mapping;
pub mod column_catalog;
pub mod delete;
pub mod expr;
pub mod func_dep;
pub mod handler;
pub mod operators;
pub mod plan_fragmenter;
pub mod plan_node;
pub mod property;
pub mod select;
