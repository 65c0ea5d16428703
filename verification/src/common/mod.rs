//! Parts that clients and servers share.

pub mod buf;
pub mod rewind;
