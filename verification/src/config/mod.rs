//! What the balancer is told when it starts, and what it does then.

pub mod cache_setup;
pub mod error;
pub mod settings;
pub mod setup;
pub mod system;
