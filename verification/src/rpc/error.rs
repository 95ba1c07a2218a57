//! What goes wrong between the balancer and an upstream node.

use vstd::prelude::*;

verus! {

pub enum RpcError {
    /// The answer, or the lack of one, in words.
    InvalidResponse(String),
    /// The request did not get through, in words.
    SendError(String),
    /// The answer is no JSON.
    Malformed,
}

} // verus!
