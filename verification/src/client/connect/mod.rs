//! Connectors: how a destination becomes a connection.

pub mod config;
pub mod dns;
pub mod http_connector;
pub mod tcp;
