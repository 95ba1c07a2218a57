//! Calls of users over WebSockets.
//!
//! Reading the cache, sending upstream and waiting are done outside. [`WsCall`] says what comes
//! next and takes in what came of it.

use crate::balancer::accept_http::stripped;
use crate::balancer::cache_rules::{method_cacheable, result_cacheable};
use crate::balancer::format::{
    invalid_request, replace_block_tags, requested_block, untagged, valid_request,
    validate_request,
};
use crate::balancer::processing::{
    blake3_digest, cache_decision, cache_query, cached_reply, hash_request, json_view, read_cached,
    reads_back, request_key, xxh3_digest, CacheArgs, CacheWrite, HashAlgorithm,
};
use crate::balancer::response_errors::{
    error_reply, law_errors_say_what_is_wrong, request_error,
};
use crate::health::head_cache::tracking;
use crate::health::safe_block::NamedBlocknumbers;
use crate::json::{
    bytes_value, integer, items_view, parse, text_value, value_text, Json, JsonView, Numeric,
};
use crate::rpc::method::EthRpcMethod;
use crate::websocket::error::WsError;
use crate::websocket::types::{IncomingResponse, SubscriptionData, SubscriptionsView};
use vstd::bytes::spec_u128_to_le_bytes;
use vstd::prelude::*;
use vstd::utf8::encode_utf8;

verus! {

/// The first id of a request that the balancer makes for a user. It is above the ids of users.
pub const FIRST_REQUEST_ID: u64 = 4294967296;

/// The ids of the requests that the balancer makes for users.
pub struct RequestIds {
    next: u64,
}

/// The id that comes `count` requests after `first`.
pub open spec fn id_after(first: u64, count: nat) -> u64 {
    ((first + count) % 0x1_0000_0000_0000_0000) as u64
}

impl RequestIds {
    /// The next id.
    pub closed spec fn view(&self) -> u64 {
        self.next
    }

    pub fn new(first: u64) -> (ids: RequestIds)
        ensures
            ids@ == first,
    {
        RequestIds { next: first }
    }

    /// An id for a request.
    pub fn take(&mut self) -> (id: u64)
        ensures
            id == old(self)@,
            final(self)@ == id_after(old(self)@, 1),
    {
        let id: u64 = self.next;
        self.next = if id == u64::MAX {
            0
        } else {
            id + 1
        };
        id
    }
}

/// As long as fewer than 2^64 requests are made, no two have the same id: an answer that comes
/// late is not taken for the answer to a later request.
pub proof fn law_request_ids_differ(first: u64, a: nat, b: nat)
    requires
        a < b < 0x1_0000_0000_0000_0000,
    ensures
        id_after(first, a) != id_after(first, b),
{
}

/// Whether a request calls `method`.
pub open spec fn calls_method(call: JsonView, method: EthRpcMethod) -> bool {
    call.member("method"@) == JsonView::Text(method.name())
}

fn is_call_of(call: &Json, method: EthRpcMethod) -> (is: bool)
    ensures
        is == calls_method(call@, method),
{
    match call.get("method") {
        Some(name) => name.is(method.as_str()),
        None => false,
    }
}

/// The first parameter of a request, where it is a text.
pub open spec fn first_param(call: JsonView) -> Option<Seq<char>> {
    call.member("params"@).item(0).text()
}

fn first_text_param(call: &Json) -> (param: Option<String>)
    ensures
        match param {
            Some(param) => first_param(call@) == Some(param@),
            None => first_param(call@) is None,
        },
{
    match call.get("params") {
        Some(params) => match params.at(0) {
            Some(param) => match param.as_str() {
                Some(param) => Some(param.to_owned()),
                None => None,
            },
            None => None,
        },
        None => None,
    }
}

/// The text of an id between two texts.
pub open spec fn around(before: Seq<char>, id: JsonView, after: Seq<char>) -> Seq<char> {
    before + value_text(id) + after
}

fn with_id_text(before: &str, id: &Json, after: &str) -> (text: String)
    ensures
        text@ == around(before@, id@, after@),
{
    before.to_owned().concat(id.to_text().as_str()).concat(after)
}

/// A call on its way.
pub struct WsCall {
    call: Json,
    id: Json,
    user_id: u32,
    is_subscription: bool,
    key: [u8; 32],
    request_id: u64,
}

#[verifier::ext_equal]
pub struct WsCallView {
    pub call: JsonView,
    pub id: JsonView,
    pub user_id: u32,
    pub is_subscription: bool,
    pub key: Seq<u8>,
    /// The id of the request upstream, once there is one.
    pub request_id: u64,
}

/// What comes next for a call.
pub enum WsStep {
    /// Reply, and write into the cache first.
    Reply(String, Option<CacheWrite>),
    Fail(WsError),
    /// Send the notification upstream; there is no reply to wait for.
    Notify(Json),
    /// Read the cache under the key of the call.
    ReadCache(WsCall),
    /// Send the request of the call upstream, and wait for the answer to it.
    Send(WsCall),
}

/// Whether a step is the reply `text`, without a write into the cache.
pub open spec fn replies(step: WsStep, text: Seq<char>) -> bool {
    step matches WsStep::Reply(reply, write) && reply@ == text && write is None
}

/// A call as it starts out.
pub open spec fn ws_started(
    call: JsonView,
    user_id: u32,
    numbers: NamedBlocknumbers,
    algorithm: HashAlgorithm,
) -> WsCallView {
    let is_subscription = calls_method(call, EthRpcMethod::Subscribe);
    let asked = if is_subscription {
        stripped(call)
    } else {
        untagged(stripped(call), numbers)
    };
    WsCallView {
        call: asked,
        id: call.member("id"@),
        user_id,
        is_subscription,
        key: request_key(asked, algorithm),
        request_id: 0,
    }
}

/// Takes in a call of a user. An invalid one is refused; a notification is sent on, or ends a
/// subscription of the user; for any other the cache is read first.
pub fn execute_ws_call(
    call: Json,
    user_id: u32,
    sub_data: &mut SubscriptionData,
    numbers: &NamedBlocknumbers,
    algorithm: HashAlgorithm,
) -> (step: WsStep)
    requires
        old(sub_data).wf(),
    ensures
        final(sub_data).wf(),
        if !valid_request(call@) {
            &&& replies(step, value_text(invalid_request(call@)))
            &&& final(sub_data)@ == old(sub_data)@
        } else if call@.has("id"@) {
            &&& step matches WsStep::ReadCache(next) && next@ == ws_started(
                call@,
                user_id,
                *numbers,
                algorithm,
            )
            &&& final(sub_data)@ == old(sub_data)@
        } else if calls_method(call@, EthRpcMethod::Unsubscribe) {
            &&& replies(step, Seq::empty())
            &&& final(sub_data)@ == match first_param(call@) {
                Some(id) => old(sub_data)@.left(user_id, Some(id)),
                None => old(sub_data)@,
            }
        } else {
            &&& step matches WsStep::Notify(message) && message@ == call@
            &&& final(sub_data)@ == old(sub_data)@
        },
{
    if let Err(error) = validate_request(&call) {
        return WsStep::Reply(error.to_text(), None);
    }
    if call.get("id").is_none() {
        if is_call_of(&call, EthRpcMethod::Unsubscribe) {
            if let Some(subscription_id) = first_text_param(&call) {
                sub_data.unsubscribe_user(user_id, subscription_id.as_str());
            }
            return WsStep::Reply(String::new(), None);
        }
        return WsStep::Notify(call);
    }
    let id = call.member("id");
    let is_subscription = is_call_of(&call, EthRpcMethod::Subscribe);
    let mut call = call;
    call.insert("id", Json::Null);
    if !is_subscription {
        call = replace_block_tags(&mut call, numbers);
    }
    let key = hash_request(&call, algorithm);
    WsStep::ReadCache(WsCall { call, id, user_id, is_subscription, key, request_id: 0 })
}

/// What becomes of a notification, by whether it could be sent on.
pub fn notified(sent: bool) -> (step: WsStep)
    ensures
        if sent {
            replies(step, Seq::empty())
        } else {
            step == WsStep::Fail(WsError::ChannelClosed())
        },
{
    if sent {
        WsStep::Reply(String::new(), None)
    } else {
        WsStep::Fail(WsError::ChannelClosed())
    }
}

/// Whether a message is the answer to the request `request_id`.
pub open spec fn answers_request(content: JsonView, request_id: u64) -> bool {
    content.member("id"@).unsigned() == Some(request_id)
}

/// Whether a message is the answer to the request `request_id`.
pub fn listen_for_response(request_id: u64, response: &IncomingResponse) -> (is: bool)
    ensures
        is == answers_request(response.content@, request_id),
{
    match response.content.get("id") {
        Some(id) => match id.as_u64() {
            Some(id) => id == request_id,
            None => false,
        },
        None => false,
    }
}

impl WsCall {
    pub closed spec fn view(&self) -> WsCallView {
        WsCallView {
            call: self.call@,
            id: self.id@,
            user_id: self.user_id,
            is_subscription: self.is_subscription,
            key: self.key@,
            request_id: self.request_id,
        }
    }

    /// The key to read the cache under.
    pub fn key(&self) -> (key: &[u8; 32])
        ensures
            key@ == self@.key,
    {
        &self.key
    }

    /// What to send upstream.
    pub fn request(&self) -> (request: &Json)
        ensures
            request@ == self@.call,
    {
        &self.call
    }

    /// Whether a message is the answer to this call.
    pub fn is_answer(&self, response: &IncomingResponse) -> (is: bool)
        ensures
            is == answers_request(response.content@, self@.request_id),
    {
        listen_for_response(self.request_id, response)
    }

    /// Takes in what the cache holds, if anything could be read. A cached answer is given with
    /// the id of the call. The end of a subscription is answered at once, and so is the start of
    /// one that exists; anything else is sent upstream under an id of its own.
    pub fn cache_read(
        self,
        cached: Option<Vec<u8>>,
        sub_data: &mut SubscriptionData,
        ids: &mut RequestIds,
    ) -> (step: WsStep)
        requires
            old(sub_data).wf(),
        ensures
            final(sub_data).wf(),
            ({
                let value = match cached {
                    Some(bytes) => bytes_value(bytes@),
                    None => None,
                };
                match cached_reply(value, self@.id) {
                    Some(reply) => {
                        &&& replies(step, value_text(reply))
                        &&& final(sub_data)@ == old(sub_data)@
                        &&& final(ids)@ == old(ids)@
                    },
                    None => answered(
                        self@,
                        old(sub_data)@,
                        final(sub_data)@,
                        old(ids)@,
                        final(ids)@,
                        step,
                    ),
                }
            }),
    {
        if let Some(bytes) = cached {
            if let Some(reply) = read_cached(bytes, self.id.clone()) {
                return WsStep::Reply(reply.to_text(), None);
            }
        }
        self.not_cached(sub_data, ids)
    }

    /// Goes on with a call that the cache has no answer to.
    pub fn not_cached(self, sub_data: &mut SubscriptionData, ids: &mut RequestIds) -> (step: WsStep)
        requires
            old(sub_data).wf(),
        ensures
            final(sub_data).wf(),
            answered(self@, old(sub_data)@, final(sub_data)@, old(ids)@, final(ids)@, step),
    {
        if is_call_of(&self.call, EthRpcMethod::Unsubscribe) {
            let subscription_id = match first_text_param(&self.call) {
                Some(id) => id,
                None => {
                    return WsStep::Reply(
                        with_id_text(
                            "{\"jsonrpc\":\"2.0\", \"id\":",
                            &self.id,
                            ", \"error\": \"Bad Subscription ID!\"}",
                        ),
                        None,
                    );
                },
            };
            if sub_data.get_node_from_id(subscription_id.as_str()).is_none() {
                return WsStep::Reply(
                    with_id_text(
                        "{\"jsonrpc\":\"2.0\", \"id\":",
                        &self.id,
                        ", \"error\": \"false\"}",
                    ),
                    None,
                );
            }
            sub_data.unsubscribe_user(self.user_id, subscription_id.as_str());
            return WsStep::Reply(
                with_id_text("{\"jsonrpc\":\"2.0\",\"id\":", &self.id, ",\"result\":true}"),
                None,
            );
        }
        if self.is_subscription {
            if let Ok(client_id) = sub_data.subscribe_user(self.user_id, &self.call) {
                let text = with_id_text("{\"jsonrpc\":\"2.0\",\"id\":", &self.id, ",\"result\":\"");
                return WsStep::Reply(text.concat(client_id.as_str()).concat("\"}"), None);
            }
        }
        let mut next = self;
        next.request_id = ids.take();
        next.call.insert("id", Json::unsigned(next.request_id));
        WsStep::Send(next)
    }

    /// What becomes of a call whose request could not be sent, or got no answer.
    pub fn unanswered(self, sent: bool) -> (step: WsStep)
        ensures
            step == WsStep::Fail(
                if sent {
                    WsError::NoWsResponse
                } else {
                    WsError::ChannelClosed()
                },
            ),
    {
        if sent {
            WsStep::Fail(WsError::NoWsResponse)
        } else {
            WsStep::Fail(WsError::ChannelClosed())
        }
    }

    /// Takes in the answer to the request. The answer to a subscription registers it for the
    /// user; any other may be cached. The reply is the answer with the id of the call.
    pub fn received(
        self,
        response: IncomingResponse,
        sub_data: &mut SubscriptionData,
        cache_args: &mut CacheArgs,
    ) -> (step: WsStep)
        requires
            old(sub_data).wf(),
            old(cache_args).wf(),
            answers_request(response.content@, self@.request_id),
        ensures
            final(sub_data).wf(),
            final(cache_args).wf(),
            final(cache_args).agrees(*old(cache_args)),
            ({
                let content = response.content@;
                let reply = value_text(content.with("id"@, self@.id));
                if self@.is_subscription {
                    &&& final(cache_args).head_cache@ == old(cache_args).head_cache@
                    &&& match content.member("result"@).text() {
                        None => {
                            &&& replies(
                                step,
                                around(
                                    "\"jsonrpc\":\"2.0\", \"id\":"@,
                                    self@.id,
                                    ", \"error\": \"Bad Subscription ID!\""@,
                                ),
                            )
                            &&& final(sub_data)@ == old(sub_data)@
                        },
                        Some(sub_id) => {
                            let params = self@.call.member("params"@);
                            let text = value_text(params);
                            let registered = old(sub_data)@.registered(
                                text,
                                (response.node_id, sub_id),
                            );
                            if params is Array && params->Array_0.len() > 0 {
                                &&& replies(step, reply)
                                &&& final(sub_data)@ == registered.joined(self@.user_id, text)
                            } else {
                                &&& step == WsStep::Fail(WsError::FailedParsing())
                                &&& final(sub_data)@ == registered
                            }
                        },
                    }
                } else {
                    let body = value_text(content);
                    &&& final(sub_data)@ == old(sub_data)@
                    &&& match cache_decision(
                        self@.call,
                        value_text(self@.call),
                        body,
                        text_value(body),
                        old(cache_args).named_numbers,
                    ) {
                        Some((number, answer)) => {
                            &&& step matches WsStep::Reply(text, Some(write)) && text@ == reply
                                && write.key@ == self@.key && write.value@ == encode_utf8(
                                value_text(answer),
                            ) && reads_back(body, write.value@)
                            &&& final(cache_args).head_cache@ == if number > old(
                                cache_args,
                            ).finalized {
                                tracking(old(cache_args).head_cache@, number, self@.key)
                            } else {
                                old(cache_args).head_cache@
                            }
                        },
                        None => {
                            &&& replies(step, reply)
                            &&& final(cache_args).head_cache@ == old(cache_args).head_cache@
                        },
                    }
                }
            }),
    {
        let content = response.content;
        let mut write: Option<CacheWrite> = None;
        if self.is_subscription {
            let sub_id = match content.get("result") {
                Some(result) => match result.as_str() {
                    Some(id) => Some(id.to_owned()),
                    None => None,
                },
                None => None,
            };
            match sub_id {
                None => {
                    return WsStep::Reply(
                        with_id_text(
                            "\"jsonrpc\":\"2.0\", \"id\":",
                            &self.id,
                            ", \"error\": \"Bad Subscription ID!\"",
                        ),
                        None,
                    );
                },
                Some(sub_id) => {
                    sub_data.register_subscription(&self.call, sub_id, response.node_id);
                    if let Err(error) = sub_data.subscribe_user(self.user_id, &self.call) {
                        return WsStep::Fail(error);
                    }
                },
            }
        } else {
            let body = content.to_text();
            write = cache_query(body.as_str(), &self.call, &self.key, cache_args);
        }
        let reply = content.put("id", self.id);
        WsStep::Reply(reply.to_text(), write)
    }
}

/// Whether a step, and what it does to the subscriptions, is how a call goes on that the cache
/// has no answer to.
pub open spec fn answered(
    call: WsCallView,
    before: SubscriptionsView,
    after: SubscriptionsView,
    id_before: u64,
    id_after_call: u64,
    step: WsStep,
) -> bool {
    let params = call.call.member("params"@);
    let text = value_text(params);
    if calls_method(call.call, EthRpcMethod::Unsubscribe) {
        &&& id_after_call == id_before
        &&& match first_param(call.call) {
            None => {
                &&& replies(
                    step,
                    around(
                        "{\"jsonrpc\":\"2.0\", \"id\":"@,
                        call.id,
                        ", \"error\": \"Bad Subscription ID!\"}"@,
                    ),
                )
                &&& after == before
            },
            Some(id) => if before.has_id(id) {
                &&& replies(
                    step,
                    around("{\"jsonrpc\":\"2.0\",\"id\":"@, call.id, ",\"result\":true}"@),
                )
                &&& after == before.left(call.user_id, Some(id))
            } else {
                &&& replies(
                    step,
                    around(
                        "{\"jsonrpc\":\"2.0\", \"id\":"@,
                        call.id,
                        ", \"error\": \"false\"}"@,
                    ),
                )
                &&& after == before
            },
        }
    } else if call.is_subscription && params is Array && params->Array_0.len() > 0
        && before.incoming.contains_key(text) {
        let client_id = before.shared_at(before.incoming[text]).client_id;
        &&& id_after_call == id_before
        &&& replies(
            step,
            around("{\"jsonrpc\":\"2.0\",\"id\":"@, call.id, ",\"result\":\""@) + client_id
                + "\"}"@,
        )
        &&& after == before.joined(call.user_id, text)
    } else {
        &&& id_after_call == id_after(id_before, 1)
        &&& step matches WsStep::Send(next) && next@ == (WsCallView {
            call: call.call.with("id"@, integer(id_before as int)),
            request_id: id_before,
            ..call
        })
        &&& after == before
    }
}

/// What came of a call of a batch.
pub enum CallOutcome {
    Answered(String),
    Failed(WsError),
    TimedOut,
}

/// The calls that a message holds: its elements where it is an array.
pub open spec fn calls_of(request: JsonView) -> Seq<JsonView> {
    match request {
        JsonView::Array(calls) => calls,
        _ => seq![request],
    }
}

/// The calls that a message holds: its elements where it is an array.
pub fn calls(request: Json) -> (calls: Vec<Json>)
    ensures
        items_view(calls@) == calls_of(request@),
{
    if request.as_array().is_none() {
        let mut calls: Vec<Json> = Vec::new();
        calls.push(request);
        proof {
            assert(items_view(calls@) =~= seq![request@]);
        }
        return calls;
    }
    match request {
        Json::Array(calls) => {
            proof {
                assert(request@->Array_0 =~= items_view(calls@));
            }
            calls
        },
        _ => Vec::new(),
    }
}

/// Whether a call is a notification, which gets no reply.
pub open spec fn is_notification(call: JsonView) -> bool {
    valid_request(call) && !call.has("id"@)
}

/// What a call is answered, by what came of it; `parsed` is what its answer says.
pub open spec fn response_view(
    call: JsonView,
    outcome: CallOutcome,
    parsed: Option<JsonView>,
) -> Option<JsonView> {
    let id = call.member("id"@);
    if is_notification(call) {
        None
    } else {
        Some(
            match outcome {
                CallOutcome::Answered(_) => match parsed {
                    Some(answer) => answer,
                    None => error_reply(id, -32603, "Invalid upstream response"@),
                },
                CallOutcome::Failed(error) => error_reply(id, -32603, error.text()),
                CallOutcome::TimedOut => error_reply(id, -32001, "Request timed out"@),
            },
        )
    }
}

/// What the answer of an outcome says.
pub open spec fn outcome_value(outcome: CallOutcome) -> Option<JsonView> {
    match outcome {
        CallOutcome::Answered(text) => text_value(text@),
        _ => None,
    }
}

/// What a call is answered, by what came of it; `parsed` is what its answer says.
pub fn call_response(call: &Json, outcome: &CallOutcome, parsed: Option<Json>) -> (response: Option<
    Json,
>)
    ensures
        json_view(response) == response_view(call@, *outcome, json_view(parsed)),
{
    if validate_request(call).is_ok() && call.get("id").is_none() {
        return None;
    }
    let id = call.member("id");
    Some(
        match outcome {
            CallOutcome::Answered(_) => match parsed {
                Some(answer) => answer,
                None => request_error(id, -32603, "Invalid upstream response"),
            },
            CallOutcome::Failed(error) => request_error(id, -32603, error.message().as_str()),
            CallOutcome::TimedOut => request_error(id, -32001, "Request timed out"),
        },
    )
}

/// The answers to the calls of a batch, in order; notifications have none.
pub open spec fn responses(calls: Seq<JsonView>, outcomes: Seq<CallOutcome>) -> Seq<JsonView>
    decreases calls.len(),
{
    if calls.len() == 0 || calls.len() != outcomes.len() {
        Seq::empty()
    } else {
        let before = responses(calls.drop_last(), outcomes.drop_last());
        match response_view(calls.last(), outcomes.last(), outcome_value(outcomes.last())) {
            Some(response) => before.push(response),
            None => before,
        }
    }
}

/// The reply to a message, by what came of its calls: one answer, an array of answers where the
/// message was an array, or none where there is nothing to answer.
pub open spec fn batch_text(request: JsonView, outcomes: Seq<CallOutcome>) -> Option<Seq<char>> {
    let answers = responses(calls_of(request), outcomes);
    if request == JsonView::Array(Seq::empty()) {
        Some(value_text(error_reply(JsonView::Null, -32600, "Invalid Request"@)))
    } else if answers.len() == 0 {
        None
    } else if request is Array {
        Some(value_text(JsonView::Array(answers)))
    } else {
        Some(value_text(answers[0]))
    }
}

/// The reply to a message, by what came of its calls.
pub fn execute_ws_request(request: &Json, outcomes: Vec<CallOutcome>) -> (reply: Option<String>)
    requires
        outcomes@.len() == calls_of(request@).len(),
    ensures
        match reply {
            Some(reply) => batch_text(request@, outcomes@) == Some(reply@),
            None => batch_text(request@, outcomes@) is None,
        },
{
    let batch = request.as_array().is_some();
    let calls = calls(request.clone());
    if batch && calls.len() == 0 {
        proof {
            assert(request@->Array_0 =~= Seq::<JsonView>::empty());
        }
        return Some(request_error(Json::Null, -32600, "Invalid Request").to_text());
    }
    let ghost all = items_view(calls@);
    let mut answers: Vec<Json> = Vec::new();
    let mut i: usize = 0;
    while i < calls.len()
        invariant
            i <= calls@.len(),
            all == items_view(calls@),
            outcomes@.len() == calls@.len(),
            items_view(answers@) == responses(
                all.take(i as int),
                outcomes@.take(i as int),
            ),
        decreases calls@.len() - i,
    {
        let ghost before = items_view(answers@);
        proof {
            assert(all.take(i + 1).drop_last() =~= all.take(i as int));
            assert(outcomes@.take(i + 1).drop_last() =~= outcomes@.take(i as int));
        }
        let parsed = match &outcomes[i] {
            CallOutcome::Answered(text) => parse(text.as_str()),
            _ => None,
        };
        if let Some(answer) = call_response(&calls[i], &outcomes[i], parsed) {
            answers.push(answer);
            proof {
                assert(items_view(answers@) =~= before.push(answer@));
            }
        }
        i = i + 1;
    }
    proof {
        assert(all.take(i as int) =~= all);
        assert(outcomes@.take(i as int) =~= outcomes@);
        assert(items_view(answers@).len() == answers@.len());
    }
    if answers.len() == 0 {
        None
    } else if batch {
        Some(Json::array(answers).to_text())
    } else {
        Some(answers[0].to_text())
    }
}

/// The key of a call does not depend on its id, and a call over HTTP has the same key.
pub proof fn law_ws_key_ignores_id(
    call: JsonView,
    id: JsonView,
    user_id: u32,
    other: u32,
    numbers: NamedBlocknumbers,
    algorithm: HashAlgorithm,
)
    requires
        call.has("id"@),
        !calls_method(call, EthRpcMethod::Subscribe),
    ensures
        ws_started(call.with("id"@, id), user_id, numbers, algorithm).key == ws_started(
            call,
            other,
            numbers,
            algorithm,
        ).key,
        ws_started(call, user_id, numbers, algorithm).key == request_key(
            untagged(stripped(call), numbers),
            algorithm,
        ),
{
    let entries = call->Object_0;
    reveal_strlit("id");
    reveal_strlit("method");
    assert("id"@.len() != "method"@.len());
    assert(entries.insert("id"@, id).insert("id"@, JsonView::Null) =~= entries.insert(
        "id"@,
        JsonView::Null,
    ));
}

/// The answers to a batch come in the order of its calls: those to two batches one after the
/// other are those to both in one.
pub proof fn law_responses_in_order(
    first: Seq<JsonView>,
    first_outcomes: Seq<CallOutcome>,
    second: Seq<JsonView>,
    second_outcomes: Seq<CallOutcome>,
)
    requires
        first.len() == first_outcomes.len(),
        second.len() == second_outcomes.len(),
    ensures
        responses(first + second, first_outcomes + second_outcomes) == responses(
            first,
            first_outcomes,
        ) + responses(second, second_outcomes),
    decreases second.len(),
{
    if second.len() == 0 {
        assert(first + second =~= first);
        assert(first_outcomes + second_outcomes =~= first_outcomes);
        assert(responses(first, first_outcomes) + responses(second, second_outcomes)
            =~= responses(first, first_outcomes));
    } else {
        law_responses_in_order(
            first,
            first_outcomes,
            second.drop_last(),
            second_outcomes.drop_last(),
        );
        assert((first + second).drop_last() =~= first + second.drop_last());
        assert((first_outcomes + second_outcomes).drop_last() =~= first_outcomes
            + second_outcomes.drop_last());
        assert(responses(first + second, first_outcomes + second_outcomes) =~= responses(
            first,
            first_outcomes,
        ) + responses(second, second_outcomes));
    }
}

/// Every call of a batch that is not a notification is answered, and no notification is.
pub proof fn law_only_notifications_are_silent(
    call: JsonView,
    outcome: CallOutcome,
)
    ensures
        responses(seq![call], seq![outcome]).len() == if is_notification(call) {
            0nat
        } else {
            1nat
        },
{
    assert(seq![call].drop_last() =~= Seq::<JsonView>::empty());
    assert(seq![outcome].drop_last() =~= Seq::<CallOutcome>::empty());
    assert(responses(seq![call].drop_last(), seq![outcome].drop_last()).len() == 0);
}

/// A call that fails or is not answered in time is answered with its own id.
pub proof fn law_failed_calls_keep_id(call: JsonView, outcome: CallOutcome)
    requires
        !is_notification(call),
        outcome_value(outcome) is None,
    ensures
        response_view(call, outcome, outcome_value(outcome))->0.member("id"@) == call.member(
            "id"@,
        ),
{
    reveal_strlit("id");
    reveal_strlit("error");
    assert("id"@.len() != "error"@.len());
}

/// Each request gets the next id, one above the last; ids start above all ids of users, and no id
/// is given to a request for a user and to a request that moves a subscription, for far longer than
/// either kind can be made.
pub proof fn law_request_ids_are_fresh(ids: &mut RequestIds, id: u64, user_id: u32, a: nat, b: nat)
    requires
        call_ensures(RequestIds::take, (ids,), id),
        a < 0x4000_0000_0000_0000,
        b < 0x4000_0000_0000_0000,
    ensures
        id == old(ids)@,
        old(ids)@ < u64::MAX ==> final(ids)@ == id + 1,
        id_after(FIRST_REQUEST_ID, a) > user_id,
        id_after(FIRST_REQUEST_ID, a) != id_after(
            crate::websocket::subscription_manager::FIRST_MIGRATION_ID,
            b,
        ),
{
}

/// What becomes of a message of a user. One that is no request is answered with what is wrong. A
/// request with an id is looked for in the cache; its id is kept for the reply. A notification is
/// sent on as it is, but for one that ends a subscription, which only takes the user out of it.
pub proof fn law_message_of_user_goes_on(
    call: Json,
    user_id: u32,
    data: &mut SubscriptionData,
    numbers: &NamedBlocknumbers,
    algorithm: HashAlgorithm,
    valid: Result<(), Json>,
    step: WsStep,
    key: Seq<char>,
)
    requires
        call_ensures(validate_request, (&call,), valid),
        call_ensures(execute_ws_call, (call, user_id, data, numbers, algorithm), step),
    ensures
        valid is Err ==> (step matches WsStep::Reply(text, None) && text@ == value_text(
            valid->Err_0@,
        )) && final(data)@ == old(data)@,
        valid is Ok && call@.has("id"@) ==> {
            let subscribes = call@.member("method"@) == JsonView::Text("eth_subscribe"@);
            &&& final(data)@ == old(data)@
            &&& step is ReadCache
            &&& step->ReadCache_0@.id == call@.member("id"@)
            &&& step->ReadCache_0@.user_id == user_id
            &&& step->ReadCache_0@.is_subscription == subscribes
            &&& (step->ReadCache_0@.call.has(key) <==> call@.has(key))
            &&& key != "id"@ && key != "params"@ ==> step->ReadCache_0@.call.member(key)
                == call@.member(key)
            &&& step->ReadCache_0@.call.member("id"@) == JsonView::Null
            &&& subscribes ==> step->ReadCache_0@.call.member("params"@) == call@.member(
                "params"@,
            )
            &&& !subscribes ==> step->ReadCache_0@.call.member("params"@) == untagged(
                call@,
                *numbers,
            ).member("params"@)
            &&& algorithm == HashAlgorithm::Blake3 ==> step->ReadCache_0@.key == blake3_digest(
                encode_utf8(value_text(step->ReadCache_0@.call)),
            )
            &&& algorithm == HashAlgorithm::Xxhash ==> step->ReadCache_0@.key
                == spec_u128_to_le_bytes(
                xxh3_digest(encode_utf8(value_text(step->ReadCache_0@.call))),
            ) + Seq::new(16, |i: int| 0u8)
        },
        valid is Ok && !call@.has("id"@) && call@.member("method"@) == JsonView::Text(
            "eth_unsubscribe"@,
        ) ==> {
            let id = call@.member("params"@).item(0);
            &&& step matches WsStep::Reply(text, None) && text@.len() == 0
            &&& id is Text ==> final(data)@ == old(data)@.left(user_id, Some(id->Text_0))
            &&& !(id is Text) ==> final(data)@ == old(data)@
        },
        valid is Ok && !call@.has("id"@) && call@.member("method"@) != JsonView::Text(
            "eth_unsubscribe"@,
        ) ==> (step matches WsStep::Notify(message) && message@ == call@) && final(data)@ == old(
            data,
        )@,
{
    reveal_strlit("params");
    reveal_strlit("method");
    reveal_strlit("id");
    assert("params"@.len() == 6 && "method"@.len() == 6 && "id"@.len() == 2);
    assert("params"@[0] == 'p' && "method"@[0] == 'm');
}

/// A notification is done with nothing to send once it is sent on; where that fails, the user's
/// connection does. A call whose request was not sent, or not answered, fails accordingly.
pub proof fn law_what_cannot_be_sent_fails(
    sent: bool,
    notification: WsStep,
    call: WsCall,
    step: WsStep,
)
    requires
        call_ensures(notified, (sent,), notification),
        call_ensures(WsCall::unanswered, (call, sent), step),
    ensures
        sent ==> (notification matches WsStep::Reply(text, None) && text@.len() == 0),
        !sent ==> notification == WsStep::Fail(WsError::ChannelClosed()),
        sent ==> step == WsStep::Fail(WsError::NoWsResponse),
        !sent ==> step == WsStep::Fail(WsError::ChannelClosed()),
{
}

/// A message answers a request exactly where it carries the request's id as a number.
pub proof fn law_answer_carries_the_request_id(
    request_id: u64,
    response: &IncomingResponse,
    is: bool,
    call: &WsCall,
    answers: bool,
)
    requires
        call_ensures(listen_for_response, (request_id, response), is),
        call_ensures(WsCall::is_answer, (call, response), answers),
    ensures
        is <==> response.content@.member("id"@) == JsonView::Number(Numeric::Unsigned(request_id)),
        answers <==> response.content@.member("id"@) == JsonView::Number(
            Numeric::Unsigned(call@.request_id),
        ),
{
}

/// What the cache has is the reply, under the id of the call; subscriptions and ids are not touched
/// by that. Where it has nothing usable, the call goes on exactly as one that is not cached.
pub proof fn law_cached_answer_is_the_reply(
    call: WsCall,
    cached: Option<Vec<u8>>,
    data: &mut SubscriptionData,
    ids: &mut RequestIds,
    step: WsStep,
    other_data: &mut SubscriptionData,
    other_ids: &mut RequestIds,
    other: WsStep,
)
    requires
        call_ensures(WsCall::cache_read, (call, cached, data, ids), step),
        call_ensures(WsCall::not_cached, (call, other_data, other_ids), other),
        old(data)@ == old(other_data)@,
        old(ids)@ == old(other_ids)@,
    ensures
        ({
            let value = match cached {
                Some(bytes) => bytes_value(bytes@),
                None => None,
            };
            if value is Some && value->0 is Object {
                &&& step matches WsStep::Reply(text, None) && text@ == value_text(
                    value->0.with("id"@, call@.id),
                )
                &&& final(data)@ == old(data)@
                &&& final(ids)@ == old(ids)@
            } else {
                &&& final(data)@ == final(other_data)@
                &&& final(ids)@ == final(other_ids)@
                &&& (step is Reply <==> other is Reply)
                &&& (step is Send <==> other is Send)
                &&& step is Reply ==> step->Reply_0@ == other->Reply_0@ && step->Reply_1 is None
                &&& step is Send ==> step->Send_0@ == other->Send_0@
                &&& step is Reply || step is Send
            }
        }),
{
}

/// A call that ends a subscription takes the user out of it, where there is one with that id, and
/// is answered at once under its own id: with `true`, or with an error where there is none.
pub proof fn law_ending_a_subscription_is_answered(
    call: WsCall,
    data: &mut SubscriptionData,
    ids: &mut RequestIds,
    step: WsStep,
)
    requires
        call_ensures(WsCall::not_cached, (call, data, ids), step),
        call@.call.member("method"@) == JsonView::Text("eth_unsubscribe"@),
    ensures
        ({
            let id = call@.call.member("params"@).item(0);
            &&& final(ids)@ == old(ids)@
            &&& step is Reply && step->Reply_1 is None
            &&& if id is Text && old(data)@.has_id(id->Text_0) {
                &&& final(data)@ == old(data)@.left(call@.user_id, Some(id->Text_0))
                &&& step->Reply_0@ == "{\"jsonrpc\":\"2.0\",\"id\":"@ + value_text(call@.id)
                    + ",\"result\":true}"@
            } else {
                &&& final(data)@ == old(data)@
                &&& id is Text ==> step->Reply_0@ == "{\"jsonrpc\":\"2.0\", \"id\":"@
                    + value_text(call@.id) + ", \"error\": \"false\"}"@
                &&& !(id is Text) ==> step->Reply_0@ == "{\"jsonrpc\":\"2.0\", \"id\":"@
                    + value_text(call@.id) + ", \"error\": \"Bad Subscription ID!\"}"@
            }
        }),
{
}

/// A call for a subscription that exists makes the user share it, and is answered at once under its
/// own id with the id that all who share it know.
pub proof fn law_existing_subscription_is_shared(
    call: WsCall,
    data: &mut SubscriptionData,
    ids: &mut RequestIds,
    step: WsStep,
)
    requires
        call_ensures(WsCall::not_cached, (call, data, ids), step),
        call@.call.member("method"@) == JsonView::Text("eth_subscribe"@),
        call@.is_subscription,
        call@.call.member("params"@) is Array,
        call@.call.member("params"@)->Array_0.len() > 0,
        old(data)@.incoming.contains_key(value_text(call@.call.member("params"@))),
    ensures
        ({
            let node = old(data)@.incoming[value_text(call@.call.member("params"@))];
            &&& final(ids)@ == old(ids)@
            &&& final(data)@.subscriptions.contains_key(node)
            &&& final(data)@.subscriptions[node].users.contains(call@.user_id)
            &&& final(data)@.incoming == old(data)@.incoming
            &&& step is Reply && step->Reply_1 is None
            &&& step->Reply_0@ == "{\"jsonrpc\":\"2.0\",\"id\":"@ + value_text(call@.id)
                + ",\"result\":\""@ + final(data)@.subscriptions[node].client_id + "\"}"@
        }),
{
    reveal_strlit("eth_subscribe");
    reveal_strlit("eth_unsubscribe");
    assert("eth_subscribe"@.len() == 13 && "eth_unsubscribe"@.len() == 15);
}

/// Every other call is sent upstream under the next id and is otherwise as it was. The user's own
/// id is kept for the reply, and no subscription is touched.
pub proof fn law_other_calls_go_upstream(
    call: WsCall,
    data: &mut SubscriptionData,
    ids: &mut RequestIds,
    step: WsStep,
    key: Seq<char>,
)
    requires
        call_ensures(WsCall::not_cached, (call, data, ids), step),
        call@.call is Object,
        call@.call.member("method"@) != JsonView::Text("eth_unsubscribe"@),
        ({
            let params = call@.call.member("params"@);
            !(call@.is_subscription && params is Array && params->Array_0.len() > 0 && old(
                data,
            )@.incoming.contains_key(value_text(params)))
        }),
    ensures
        final(data)@ == old(data)@,
        step is Send,
        step->Send_0@.request_id == old(ids)@,
        old(ids)@ < u64::MAX ==> final(ids)@ == old(ids)@ + 1,
        step->Send_0@.call.member("id"@) == JsonView::Number(Numeric::Unsigned(old(ids)@)),
        key != "id"@ ==> (step->Send_0@.call.has(key) <==> call@.call.has(key)),
        key != "id"@ ==> step->Send_0@.call.member(key) == call@.call.member(key),
        step->Send_0@.id == call@.id,
        step->Send_0@.user_id == call@.user_id,
        step->Send_0@.is_subscription == call@.is_subscription,
        step->Send_0@.key == call@.key,
{
}

/// The answer to a request is passed on as the node sent it, under the id of the call. It is cached
/// under the key of the call exactly where answers over HTTP are, and then without its id.
pub proof fn law_answer_is_passed_on_to_user(
    call: WsCall,
    response: IncomingResponse,
    data: &mut SubscriptionData,
    cache_args: &mut CacheArgs,
    step: WsStep,
)
    requires
        !call@.is_subscription,
        call_ensures(WsCall::received, (call, response, data, cache_args), step),
    ensures
        final(data)@ == old(data)@,
        step is Reply,
        step->Reply_0@ == value_text(response.content@.with("id"@, call@.id)),
        ({
            let body = value_text(response.content@);
            &&& step->Reply_1 is Some <==> text_value(body) is Some && text_value(body)->0.has(
                "id"@,
            ) && requested_block(call@.call, old(cache_args).named_numbers) is Some
                && method_cacheable(value_text(call@.call)) && result_cacheable(body)
            &&& step->Reply_1 matches Some(write) ==> write.key@ == call@.key && write.value@
                == encode_utf8(value_text(text_value(body)->0.with("id"@, JsonView::Null)))
        }),
{
}

/// What a user's call writes into the cache is followed under its block exactly where that is not
/// final; nothing else that the caching goes by changes.
pub proof fn law_users_answer_is_followed(
    call: WsCall,
    response: IncomingResponse,
    data: &mut SubscriptionData,
    cache_args: &mut CacheArgs,
    step: WsStep,
    number: u64,
    key: Seq<u8>,
)
    requires
        call_ensures(WsCall::received, (call, response, data, cache_args), step),
    ensures
        final(cache_args).finalized == old(cache_args).finalized,
        final(cache_args).named_numbers == old(cache_args).named_numbers,
        final(cache_args).algorithm == old(cache_args).algorithm,
        ({
            let before = old(cache_args).head_cache@;
            let after = final(cache_args).head_cache@;
            let written = step is Reply && step->Reply_1 is Some;
            (after.contains_key(number) && after[number].contains(key)) <==> (before.contains_key(
                number,
            ) && before[number].contains(key)) || (written && requested_block(
                call@.call,
                old(cache_args).named_numbers,
            ) == Some(number) && number > old(cache_args).finalized && key == call@.key)
        }),
{
}

/// A subscription that a node grants is known by its parameters from then on, served by that node
/// under the id that it gave, and the user who asked shares it. The reply is the node's, under the
/// id of the call. Nothing is cached.
pub proof fn law_granted_subscription_is_shared(
    call: WsCall,
    response: IncomingResponse,
    data: &mut SubscriptionData,
    cache_args: &mut CacheArgs,
    step: WsStep,
)
    requires
        call@.is_subscription,
        call_ensures(WsCall::received, (call, response, data, cache_args), step),
    ensures
        final(cache_args).head_cache@ == old(cache_args).head_cache@,
        ({
            let result = response.content@.member("result"@);
            let params = call@.call.member("params"@);
            let node = (response.node_id, result->Text_0);
            &&& !(result is Text) ==> {
                &&& final(data)@ == old(data)@
                &&& step matches WsStep::Reply(text, None) && text@
                    == "\"jsonrpc\":\"2.0\", \"id\":"@ + value_text(call@.id)
                    + ", \"error\": \"Bad Subscription ID!\""@
            }
            &&& result is Text ==> {
                &&& final(data)@.incoming.contains_key(value_text(params))
                &&& final(data)@.incoming[value_text(params)] == node
                &&& final(data)@.users == old(data)@.users
            }
            &&& result is Text && params is Array && params->Array_0.len() > 0 ==> {
                &&& final(data)@.subscriptions.contains_key(node)
                &&& final(data)@.subscriptions[node].users.contains(call@.user_id)
                &&& step matches WsStep::Reply(text, None) && text@ == value_text(
                    response.content@.with("id"@, call@.id),
                )
            }
            &&& result is Text && !(params is Array && params->Array_0.len() > 0) ==> {
                &&& step == WsStep::Fail(WsError::FailedParsing())
                &&& final(data)@.subscriptions == old(data)@.subscriptions
            }
        }),
{
}

/// The calls of a message are the elements of an array, in order, or the message itself.
pub proof fn law_message_holds_its_calls(request: Json, list: Vec<Json>)
    requires
        call_ensures(calls, (request,), list),
    ensures
        request@ is Array ==> list@.len() == request@->Array_0.len() && forall|i: int|
            0 <= i < list@.len() ==> (#[trigger] list@[i])@ == request@->Array_0[i],
        !(request@ is Array) ==> list@.len() == 1 && list@[0]@ == request@,
{
    assert(items_view(list@).len() == list@.len());
    assert forall|i: int| 0 <= i < list@.len() implies (#[trigger] list@[i])@ == calls_of(
        request@,
    )[i] by {
        assert(items_view(list@)[i] == list@[i]@);
    }
}

/// What a call is answered. A valid one without an id gets no answer. Any other gets the answer
/// that came for it as it is, or an error under its own id: where that answer is no JSON, where the
/// call failed, or where it was not answered in time.
pub proof fn law_call_is_answered(
    call: &Json,
    outcome: &CallOutcome,
    parsed: Option<Json>,
    valid: Result<(), Json>,
    response: Option<Json>,
)
    requires
        call_ensures(validate_request, (call,), valid),
        call_ensures(call_response, (call, outcome, parsed), response),
    ensures
        response is None <==> valid is Ok && !call@.has("id"@),
        response is Some ==> {
            let id = call@.member("id"@);
            let code = response->0@.member("error"@).member("code"@);
            let message = response->0@.member("error"@).member("message"@);
            match *outcome {
                CallOutcome::Answered(_) => if parsed is Some {
                    response->0@ == parsed->0@
                } else {
                    response->0@.member("id"@) == id && code == integer(-32603) && message
                        == JsonView::Text("Invalid upstream response"@)
                },
                CallOutcome::Failed(error) => response->0@.member("id"@) == id && code == integer(
                    -32603,
                ) && message == JsonView::Text(error.text()),
                CallOutcome::TimedOut => response->0@.member("id"@) == id && code == integer(
                    -32001,
                ) && message == JsonView::Text("Request timed out"@),
            }
        },
{
    let id = call@.member("id"@);
    law_errors_say_what_is_wrong(id, -32603, "Invalid upstream response"@);
    law_errors_say_what_is_wrong(id, -32001, "Request timed out"@);
    if let CallOutcome::Failed(error) = *outcome {
        law_errors_say_what_is_wrong(id, -32603, error.text());
    }
}

/// The reply to a single call is its answer, the reply to a batch is the array of the answers to
/// its calls, and an empty batch is refused; there is no reply where nothing is answered.
pub proof fn law_reply_holds_the_answers(
    request: &Json,
    outcomes: Vec<CallOutcome>,
    reply: Option<String>,
)
    requires
        outcomes@.len() == calls_of(request@).len(),
        call_ensures(execute_ws_request, (request, outcomes), reply),
    ensures
        request@ is Array && request@->Array_0.len() == 0 ==> reply is Some && reply->0@
            == value_text(error_reply(JsonView::Null, -32600, "Invalid Request"@)),
        request@ is Array && request@->Array_0.len() > 0 ==> {
            let answers = responses(request@->Array_0, outcomes@);
            &&& reply is Some <==> answers.len() > 0
            &&& reply is Some ==> reply->0@ == value_text(JsonView::Array(answers))
        },
        !(request@ is Array) ==> {
            let answer = response_view(request@, outcomes@[0], outcome_value(outcomes@[0]));
            &&& reply is Some <==> answer is Some
            &&& reply is Some ==> reply->0@ == value_text(answer->0)
        },
{
    if request@ is Array {
        if request@->Array_0.len() == 0 {
            assert(request@->Array_0 =~= Seq::<JsonView>::empty());
        }
    } else {
        let list = seq![request@];
        assert(calls_of(request@) == list);
        assert(list.drop_last() =~= Seq::<JsonView>::empty());
        assert(responses(list.drop_last(), outcomes@.drop_last()) =~= Seq::<JsonView>::empty());
        assert(outcomes@.last() == outcomes@[0]);
    }
}

/// The answers to a batch are those to its calls, each call's own: where all calls are answered,
/// they are these in order.
pub proof fn law_answers_belong_to_their_calls(
    calls: Seq<JsonView>,
    outcomes: Seq<CallOutcome>,
    i: int,
)
    requires
        calls.len() == outcomes.len(),
        forall|k: int| 0 <= k < calls.len() ==> !is_notification(#[trigger] calls[k]),
        0 <= i < calls.len(),
    ensures
        responses(calls, outcomes).len() == calls.len(),
        response_view(calls[i], outcomes[i], outcome_value(outcomes[i])) == Some(
            responses(calls, outcomes)[i],
        ),
    decreases calls.len(),
{
    let (shorter, before) = (calls.drop_last(), outcomes.drop_last());
    assert(calls[calls.len() - 1] == calls.last());
    assert(!is_notification(calls[calls.len() - 1]));
    assert(outcomes[outcomes.len() - 1] == outcomes.last());
    assert(shorter.len() == 0 ==> responses(shorter, before).len() == 0);
    if shorter.len() > 0 {
        assert forall|k: int| 0 <= k < shorter.len() implies !is_notification(
            #[trigger] shorter[k],
        ) by {
            assert(shorter[k] == calls[k]);
        }
        law_answers_belong_to_their_calls(
            shorter,
            before,
            if i < shorter.len() {
                i
            } else {
                0
            },
        );
    }
}

/// A call gives out the key and the request that it goes on with.
pub proof fn law_users_call_shows_key_and_request(call: &WsCall, key: &[u8; 32], request: &Json)
    requires
        call_ensures(WsCall::key, (call,), key),
        call_ensures(WsCall::request, (call,), request),
    ensures
        key@ == call@.key,
        request@ == call@.call,
{
}

} // verus!
