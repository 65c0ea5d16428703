//! Pools of services.

pub mod singleton;
