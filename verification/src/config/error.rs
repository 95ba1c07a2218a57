//! What goes wrong when the balancer starts.

use crate::rpc::error::RpcError;
use vstd::prelude::*;

verus! {

pub enum ConfigError {
    /// A node is still catching up.
    Syncing,
    Rpc(RpcError),
}

} // verus!
