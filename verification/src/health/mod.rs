//! The health of the upstream nodes and the progress of the chain.

pub mod check;
pub mod error;
pub mod head_cache;
pub mod safe_block;
