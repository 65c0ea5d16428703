//! Runtime components

pub mod executor;
