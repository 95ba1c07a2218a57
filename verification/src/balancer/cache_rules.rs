//! What is never cached.

use crate::text::{contains, holds};
use vstd::prelude::*;

verus! {

/// Whether a request may be cached, by its text: not where it opens or ends a subscription.
pub open spec fn method_cacheable(method: Seq<char>) -> bool {
    &&& !holds(method, "eth_subscribe"@)
    &&& !holds(method, "eth_unsubscribe"@)
}

/// Whether an answer may be cached, by its text: not where it reports an error or a limit of the
/// upstream node.
pub open spec fn result_cacheable(result: Seq<char>) -> bool {
    &&& !holds(result, "\"error\""@)
    &&& !holds(result, "-32005"@)
}

/// Whether a request may be cached, by its text.
pub fn cache_method(method: &str) -> (cacheable: bool)
    ensures
        cacheable == method_cacheable(method@),
{
    !contains(method, "eth_subscribe") && !contains(method, "eth_unsubscribe")
}

/// Whether an answer may be cached, by its text.
pub fn cache_result(result: &str) -> (cacheable: bool)
    ensures
        cacheable == result_cacheable(result@),
{
    !contains(result, "\"error\"") && !contains(result, "-32005")
}

/// A request that speaks of subscribing or unsubscribing is never cached, nor an answer that speaks
/// of an error or of a limit; every other request and answer may be.
pub proof fn law_what_is_never_cached(
    request: &str,
    answer: &str,
    request_allowed: bool,
    answer_allowed: bool,
)
    requires
        call_ensures(cache_method, (request,), request_allowed),
        call_ensures(cache_result, (answer,), answer_allowed),
    ensures
        holds(request@, "eth_subscribe"@) || holds(request@, "eth_unsubscribe"@)
            <==> !request_allowed,
        holds(answer@, "\"error\""@) || holds(answer@, "-32005"@) <==> !answer_allowed,
{
}

} // verus!
