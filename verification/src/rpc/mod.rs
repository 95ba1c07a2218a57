//! Upstream nodes and what is asked of them.

pub mod endpoint;
pub mod error;
pub mod latency;
pub mod method;
pub mod natural;
pub mod types;
