//! Proxy helpers.

pub mod http_connect;
pub mod socks;
pub mod socks5;
pub mod tunnel;
