//! The settings of a running balancer.

use vstd::prelude::*;

verus! {

/// The settings of the admin interface.
pub struct AdminSettings {
    pub enabled: bool,
    /// Whether methods that change something are refused.
    pub readonly: bool,
    /// Whether requests come inside a signed token.
    pub jwt: bool,
    /// The secret that tokens are signed with.
    pub key: Vec<u8>,
}

pub struct Settings {
    /// The address to listen at.
    pub address: String,
    /// Whether the cache is cleared at the start.
    pub do_clear: bool,
    pub health_check: bool,
    pub admin: AdminSettings,
    /// How many milliseconds a request may take.
    pub ttl: u128,
    /// How many milliseconds pass between two health checks.
    pub health_check_ttl: u64,
    pub is_ws: bool,
    /// How often a request is tried again.
    pub max_retries: u32,
    /// Whether the content type of a request is checked.
    pub header_check: bool,
    pub supress_rpc_check: bool,
}

/// How many milliseconds a deadline of `ttl` milliseconds is, cut off at the most that fits.
pub open spec fn deadline_millis(ttl: u128) -> u64 {
    if ttl <= u64::MAX {
        ttl as u64
    } else {
        u64::MAX
    }
}

/// How many milliseconds a deadline of `ttl` milliseconds is, cut off at the most that fits.
pub fn deadline(ttl: u128) -> (millis: u64)
    ensures
        millis == deadline_millis(ttl),
{
    if ttl <= u64::MAX as u128 {
        ttl as u64
    } else {
        u64::MAX
    }
}

/// A deadline is the time limit, or the most that fits where that is more.
pub proof fn law_deadline_is_the_limit(ttl: u128, millis: u64)
    requires
        call_ensures(deadline, (ttl,), millis),
    ensures
        ttl <= u64::MAX ==> millis == ttl,
        ttl > u64::MAX ==> millis == u64::MAX,
{
}

} // verus!
