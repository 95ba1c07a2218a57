//! What goes wrong with the watch over the nodes.

use crate::websocket::error::WsError;
use vstd::prelude::*;

verus! {

pub enum HealthError {
    /// The upstream connections take no orders any more.
    Unresponsive,
    /// What was waited for did not come, in words.
    InvalidResponse(String),
    /// Subscriptions could not be moved.
    Websocket(WsError),
}

} // verus!
