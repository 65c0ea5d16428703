//! Services for requests that may go through a proxy.

pub mod http1_request_target;
pub mod set_host;
