//! A verified core for a JSON key-value service backed by a relational store.
//!
//! The library holds everything the service decides or computes on plain
//! values: identifier validation, sort-order parsing, SQL statement
//! construction, pagination arithmetic, response shaping, and an executable
//! model of the table semantics that the statements are meant to realise.
//! The surrounding process (HTTP plumbing, the database driver, startup
//! provisioning calls) lives outside and hands this library plain values.

pub mod api;
pub mod config;
pub mod key;
pub mod provision;
pub mod query;
pub mod sort;
pub mod store;
pub mod text;
