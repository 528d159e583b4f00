//! Change-data-capture fan-out: replication framing, change dispatch,
//! subscription registry and per-session decisions, with their contracts.

pub mod kinds;
pub mod text;
pub mod query;
pub mod catalog;
pub mod json;
pub mod event;
pub mod registry;
pub mod replication;
pub mod session;
pub mod slot;
pub mod config;
pub mod auth;
