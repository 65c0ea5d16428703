//! Connectors.

pub mod proxy;
pub mod unix;
