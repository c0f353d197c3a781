//! Task board: parallel work items for agents and users.

pub mod error;
pub mod laws;
pub mod routes;
pub mod service;
pub mod types;
