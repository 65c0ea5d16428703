//! Small helpers.

pub mod prepend_async_read;
