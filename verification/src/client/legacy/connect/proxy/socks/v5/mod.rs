//! SOCKSv5: messages and errors.

pub mod errors;
pub mod messages;

pub use errors::AuthError;
pub use errors::SocksV5Error;
