//! Server utilities.

pub mod conn;
pub mod graceful;
