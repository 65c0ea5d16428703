//! Utilities for HTTP clients and servers, with their behaviour stated in contracts and proved.

pub mod buffers;
pub mod client;
pub mod common;
pub mod error;
pub mod header;
pub mod net;
pub mod rt;
pub mod server;
pub mod text;
pub mod time;
pub mod uri;
pub mod util;
