//! Proxy utilities: which destinations go through a proxy, and through which.

pub mod builder;
pub mod mac;
pub mod matcher;
pub mod no_proxy;
pub mod utils;
pub mod win;

pub use matcher::Matcher;
