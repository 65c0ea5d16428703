//! The parts of a connection-pooling client.

pub mod client;
pub mod connect;
