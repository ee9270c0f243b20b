//! The meta service.

pub mod catalog_service;
pub mod rpc_server;
