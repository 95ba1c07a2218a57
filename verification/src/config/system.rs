//! Fixed parts of the balancer.

use vstd::prelude::*;

verus! {

/// The user that follows the head of the chain.
pub const WS_HEALTH_CHECK_USER_ID: u32 = 1;

/// The id of the requests that manage subscriptions.
pub const WS_SUB_MANAGER_ID: u32 = 2;

/// The fixed users and requests of the balancer are told apart by their ids.
pub proof fn law_fixed_ids_differ()
    ensures
        WS_HEALTH_CHECK_USER_ID != WS_SUB_MANAGER_ID,
        WS_HEALTH_CHECK_USER_ID == 1,
        WS_SUB_MANAGER_ID == 2,
{
}

} // verus!
