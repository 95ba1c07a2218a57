//! Requests over HTTP.
//!
//! Reading the cache, picking a node and sending are done outside. [`ForwardCall`] says what comes
//! next and takes in what came of it.

use crate::balancer::cache_rules::{method_cacheable, result_cacheable};
use crate::balancer::format::{
    incoming_to_value, invalid_request, replace_block_tags, requested_block, untagged,
    valid_request, validate_request,
};
use crate::balancer::processing::{
    blake3_digest, cache_decision, cache_query, cached_reply, hash_request, json_view, read_cached,
    reads_back, request_key, timed_position, update_rpc_latency, xxh3_digest, CacheArgs,
    CacheWrite, HashAlgorithm,
};
use crate::balancer::response_errors::{
    bare_reply, error_reply, law_errors_say_what_is_wrong, request_error, rpc_response, HttpReply,
    HttpReplyView,
};
use crate::config::settings::Settings;
use crate::health::head_cache::tracking;
use crate::health::safe_block::NamedBlocknumbers;
use crate::json::{
    bytes_value, integer, items_view, parse, text_value, value_text, Json, JsonView,
};
use crate::rpc::types::{rpcs_view, Rpc};
use crate::text::same;
use vstd::bytes::spec_u128_to_le_bytes;
use vstd::prelude::*;
use vstd::utf8::encode_utf8;

verus! {

/// How many calls of a batch are under way at a time.
pub const MAX_CONCURRENT_CALLS: usize = 16;

/// What the settings say about a single request.
#[derive(Clone, Copy)]
pub struct RequestParams {
    pub ttl: u128,
    pub max_retries: u32,
    pub header_check: bool,
}

/// A status and, but for a notification, an answer.
pub struct Reply {
    pub status: u16,
    pub value: Option<Json>,
}

#[verifier::ext_equal]
pub struct ReplyView {
    pub status: u16,
    pub value: Option<JsonView>,
}

impl Reply {
    pub open spec fn view(&self) -> ReplyView {
        ReplyView { status: self.status, value: json_view(self.value) }
    }
}

/// The HTTP reply for a status and an answer; without an answer there is no content.
pub open spec fn http_reply(status: u16, value: Option<JsonView>) -> HttpReplyView {
    HttpReplyView {
        status: if value is Some {
            status
        } else {
            204
        },
        headers: seq![
            ("Content-Type"@, "application/json"@),
            ("Access-Control-Allow-Origin"@, "*"@),
        ],
        body: match value {
            Some(value) => value_text(value),
            None => Seq::empty(),
        },
    }
}

/// The HTTP reply for a status and an answer.
pub fn response(status: u16, value: Option<Json>) -> (reply: HttpReply)
    ensures
        reply@ == http_reply(status, json_view(value)),
{
    let mut headers: Vec<(&'static str, &'static str)> = Vec::new();
    headers.push(("Content-Type", "application/json"));
    headers.push(("Access-Control-Allow-Origin", "*"));
    let reply = match &value {
        Some(value) => HttpReply { status, headers, body: value.to_text() },
        None => HttpReply { status: 204, headers, body: String::new() },
    };
    proof {
        assert(reply@.headers =~= http_reply(status, json_view(value)).headers);
    }
    reply
}

/// A request without its id: null stands in its place.
pub open spec fn stripped(request: JsonView) -> JsonView {
    if request.has("id"@) {
        request.with("id"@, JsonView::Null)
    } else {
        request
    }
}

/// What came of reading the cache.
pub enum CacheRead {
    Failed,
    Missing,
    Found(Vec<u8>),
}

/// What came of sending a request to a node.
pub enum Sent {
    Answered(String),
    Failed,
    TimedOut,
}

/// A request on its way.
pub struct ForwardCall {
    request: Json,
    id: Json,
    notification: bool,
    key: [u8; 32],
    attempt: u32,
    max_retries: u32,
    ttl: u128,
}

#[verifier::ext_equal]
pub struct ForwardView {
    /// What is sent upstream.
    pub request: JsonView,
    pub id: JsonView,
    pub notification: bool,
    pub key: Seq<u8>,
    /// How many attempts have failed.
    pub attempt: u32,
    pub max_retries: u32,
    pub ttl: u128,
}

/// What comes next for a request.
pub enum ForwardStep {
    /// Reply, and write into the cache first.
    Finish(Reply, Option<CacheWrite>),
    /// Read the cache under the key of the call.
    ReadCache(ForwardCall),
    /// Pick a node.
    Pick(ForwardCall),
    /// Send the request of the call to the node picked, for so many milliseconds at most.
    Send(ForwardCall, u64),
}

/// Whether a step is the reply `reply`, without a write into the cache.
pub open spec fn finishes(step: ForwardStep, reply: ReplyView) -> bool {
    step matches ForwardStep::Finish(r, write) && r@ == reply && write is None
}

/// The error reply to a call, which a notification does not get.
pub open spec fn refusal(call: ForwardView, status: u16, code: int, message: Seq<char>) -> ReplyView {
    ReplyView {
        status,
        value: if call.notification {
            None
        } else {
            Some(error_reply(call.id, code, message))
        },
    }
}

/// A call as it starts out.
pub open spec fn started(
    request: JsonView,
    numbers: NamedBlocknumbers,
    algorithm: HashAlgorithm,
    params: RequestParams,
) -> ForwardView {
    let asked = untagged(stripped(request), numbers);
    ForwardView {
        request: asked,
        id: request.member("id"@),
        notification: !request.has("id"@),
        key: request_key(asked, algorithm),
        attempt: 0,
        max_retries: params.max_retries,
        ttl: params.ttl,
    }
}

/// A call after a failed attempt, where another one follows.
pub open spec fn after_failure(call: ForwardView) -> Option<ForwardView> {
    if call.attempt >= call.max_retries {
        None
    } else {
        Some(ForwardView { attempt: (call.attempt + 1) as u32, ..call })
    }
}

/// A call after `failures` failed attempts, where another one follows.
pub open spec fn after_failures(call: ForwardView, failures: nat) -> Option<ForwardView>
    decreases failures,
{
    if failures == 0 {
        Some(call)
    } else {
        match after_failures(call, (failures - 1) as nat) {
            Some(call) => after_failure(call),
            None => None,
        }
    }
}

/// What an upstream answer gives in reply: an object is passed on as it is.
pub open spec fn upstream_view(parsed: Option<JsonView>, id: JsonView) -> ReplyView {
    match parsed {
        Some(JsonView::Object(answer)) => ReplyView {
            status: 200,
            value: Some(JsonView::Object(answer)),
        },
        _ => ReplyView {
            status: 502,
            value: Some(error_reply(id, -32603, "Invalid upstream response"@)),
        },
    }
}

/// What an upstream answer gives in reply.
pub fn upstream_reply(parsed: Option<Json>, id: Json) -> (reply: Reply)
    ensures
        reply@ == upstream_view(json_view(parsed), id@),
{
    match parsed {
        Some(answer) => if answer.is_object() {
            Reply { status: 200, value: Some(answer) }
        } else {
            Reply {
                status: 502,
                value: Some(request_error(id, -32603, "Invalid upstream response")),
            }
        },
        None => Reply {
            status: 502,
            value: Some(request_error(id, -32603, "Invalid upstream response")),
        },
    }
}

/// Takes in a request. An invalid one is refused; a notification is sent on at once; for any
/// other the cache is read first.
pub fn forward_call(
    request: Json,
    numbers: &NamedBlocknumbers,
    algorithm: HashAlgorithm,
    params: RequestParams,
) -> (step: ForwardStep)
    ensures
        if !valid_request(request@) {
            finishes(step, ReplyView { status: 400, value: Some(invalid_request(request@)) })
        } else if request@.has("id"@) {
            step matches ForwardStep::ReadCache(call) && call@ == started(
                request@,
                *numbers,
                algorithm,
                params,
            )
        } else {
            step matches ForwardStep::Pick(call) && call@ == started(
                request@,
                *numbers,
                algorithm,
                params,
            )
        },
{
    if let Err(error) = validate_request(&request) {
        return ForwardStep::Finish(Reply { status: 400, value: Some(error) }, None);
    }
    let notification = request.get("id").is_none();
    let id = request.member("id");
    let mut request = request;
    if !notification {
        request.insert("id", Json::Null);
    }
    let request = replace_block_tags(&mut request, numbers);
    let key = hash_request(&request, algorithm);
    let call = ForwardCall {
        request,
        id,
        notification,
        key,
        attempt: 0,
        max_retries: params.max_retries,
        ttl: params.ttl,
    };
    if notification {
        ForwardStep::Pick(call)
    } else {
        ForwardStep::ReadCache(call)
    }
}

impl ForwardCall {
    pub closed spec fn view(&self) -> ForwardView {
        ForwardView {
            request: self.request@,
            id: self.id@,
            notification: self.notification,
            key: self.key@,
            attempt: self.attempt,
            max_retries: self.max_retries,
            ttl: self.ttl,
        }
    }

    /// The key to read the cache under.
    pub fn key(&self) -> (key: &[u8; 32])
        ensures
            key@ == self@.key,
    {
        &self.key
    }

    /// What to send upstream.
    pub fn request(&self) -> (request: &Json)
        ensures
            request@ == self@.request,
    {
        &self.request
    }

    /// Takes in what came of reading the cache. A cached answer is given with the id of the
    /// request; without a usable one the request is sent on, with its id.
    pub fn cache_read(self, read: CacheRead) -> (step: ForwardStep)
        ensures
            match read {
                CacheRead::Failed => finishes(
                    step,
                    ReplyView {
                        status: 500,
                        value: Some(error_reply(self@.id, -32003, "Cache error"@)),
                    },
                ),
                CacheRead::Found(bytes) if cached_reply(
                    bytes_value(bytes@),
                    self@.id,
                ) is Some => finishes(
                    step,
                    ReplyView { status: 200, value: cached_reply(bytes_value(bytes@), self@.id) },
                ),
                _ => step matches ForwardStep::Pick(call) && call@ == (ForwardView {
                    request: self@.request.with("id"@, self@.id),
                    ..self@
                }),
            },
    {
        match read {
            CacheRead::Failed => {
                return ForwardStep::Finish(
                    Reply {
                        status: 500,
                        value: Some(request_error(self.id, -32003, "Cache error")),
                    },
                    None,
                );
            },
            CacheRead::Found(bytes) => {
                if let Some(reply) = read_cached(bytes, self.id.clone()) {
                    return ForwardStep::Finish(Reply { status: 200, value: Some(reply) }, None);
                }
            },
            CacheRead::Missing => {},
        }
        let mut call = self;
        let id = call.id.clone();
        call.request.insert("id", id);
        ForwardStep::Pick(call)
    }

    /// Takes in whether a node was picked.
    pub fn picked(self, position: Option<usize>) -> (step: ForwardStep)
        requires
            position is Some ==> self@.ttl <= u64::MAX,
        ensures
            match position {
                None => finishes(
                    step,
                    refusal(self@, 500, -32002, "No working RPC available"@),
                ),
                Some(_) => step matches ForwardStep::Send(call, millis) && call@ == self@
                    && millis == self@.ttl,
            },
    {
        match position {
            None => ForwardStep::Finish(self.refuse(500, -32002, "No working RPC available"), None),
            Some(_) => {
                let millis: u64 = self.ttl as u64;
                ForwardStep::Send(self, millis)
            },
        }
    }

    fn refuse(self, status: u16, code: i64, message: &str) -> (reply: Reply)
        ensures
            reply@ == refusal(self@, status, code as int, message@),
    {
        Reply {
            status,
            value: if self.notification {
                None
            } else {
                Some(request_error(self.id, code, message))
            },
        }
    }

    /// Takes in what came of sending the request to the node at `position`, and how many
    /// nanoseconds it took. An answer ends the call; a failure ends it once there is no attempt
    /// left.
    pub fn sent(
        self,
        rpc_list: &mut Vec<Rpc>,
        position: usize,
        time: u64,
        sent: Sent,
        cache_args: &mut CacheArgs,
    ) -> (step: ForwardStep)
        requires
            old(cache_args).wf(),
        ensures
            final(cache_args).wf(),
            final(cache_args).agrees(*old(cache_args)),
            rpcs_view(final(rpc_list)@) == if old(rpc_list)@.len() == 0 {
                rpcs_view(old(rpc_list)@)
            } else {
                let at = timed_position(old(rpc_list)@.len(), position as nat);
                rpcs_view(old(rpc_list)@).update(at, old(rpc_list)@[at]@.timed(time))
            },
            match sent {
                Sent::Answered(body) => {
                    let decision = cache_decision(
                        self@.request,
                        value_text(self@.request),
                        body@,
                        text_value(body@),
                        old(cache_args).named_numbers,
                    );
                    if self@.notification {
                        &&& finishes(step, ReplyView { status: 204, value: None })
                        &&& final(cache_args).head_cache@ == old(cache_args).head_cache@
                    } else if text_value(body@) is Some && text_value(body@)->0 is Object
                        && decision is Some {
                        let (number, answer) = decision->0;
                        &&& step matches ForwardStep::Finish(reply, Some(write)) && reply@
                            == upstream_view(text_value(body@), self@.id) && write.key@
                            == self@.key && write.value@ == encode_utf8(value_text(answer))
                        &&& final(cache_args).head_cache@ == if number > old(
                            cache_args,
                        ).finalized {
                            tracking(old(cache_args).head_cache@, number, self@.key)
                        } else {
                            old(cache_args).head_cache@
                        }
                    } else {
                        &&& finishes(step, upstream_view(text_value(body@), self@.id))
                        &&& final(cache_args).head_cache@ == old(cache_args).head_cache@
                    }
                },
                _ => {
                    &&& final(cache_args).head_cache@ == old(cache_args).head_cache@
                    &&& match after_failure(self@) {
                        Some(next) => step matches ForwardStep::Pick(call) && call@ == next,
                        None => finishes(step, refusal(self@, 408, -32001, "Request timed out"@)),
                    }
                },
            },
            match (sent, step) {
                (Sent::Answered(body), ForwardStep::Finish(_, Some(write))) => reads_back(
                    body@,
                    write.value@,
                ),
                _ => true,
            },
    {
        update_rpc_latency(rpc_list, position, time);
        match sent {
            Sent::Answered(body) => {
                if self.notification {
                    return ForwardStep::Finish(Reply { status: 204, value: None }, None);
                }
                let parsed = parse(body.as_str());
                let usable = match &parsed {
                    Some(answer) => answer.is_object(),
                    None => false,
                };
                let write = if usable {
                    cache_query(body.as_str(), &self.request, &self.key, cache_args)
                } else {
                    None
                };
                ForwardStep::Finish(upstream_reply(parsed, self.id), write)
            },
            _ => {
                if self.attempt >= self.max_retries {
                    ForwardStep::Finish(self.refuse(408, -32001, "Request timed out"), None)
                } else {
                    let mut call = self;
                    call.attempt = call.attempt + 1;
                    ForwardStep::Pick(call)
                }
            },
        }
    }
}

/// What becomes of the body of a request.
pub enum BodyPlan {
    Refuse(HttpReply),
    /// Each member goes its own way; the replies come back in one array.
    Batch(Vec<Json>),
    Single(Json),
}

/// Whether a plan is what becomes of the body that `parsed` says.
pub open spec fn plans(plan: BodyPlan, parsed: Option<JsonView>) -> bool {
    match parsed {
        None => plan matches BodyPlan::Refuse(reply) && reply@ == http_reply(
            400,
            Some(error_reply(JsonView::Null, -32700, "Parse error"@)),
        ),
        Some(JsonView::Array(requests)) => if requests.len() == 0 {
            plan matches BodyPlan::Refuse(reply) && reply@ == http_reply(
                400,
                Some(error_reply(JsonView::Null, -32600, "Invalid Request"@)),
            )
        } else {
            plan matches BodyPlan::Batch(calls) && items_view(calls@) == requests
        },
        Some(request) => plan matches BodyPlan::Single(call) && call@ == request,
    }
}

/// What the content type of a request is answered, where it is checked and is not the right one.
pub fn check_header(header_check: bool, content_type: Option<&str>) -> (refusal: Option<HttpReply>)
    ensures
        match refusal {
            Some(reply) => {
                &&& header_check
                &&& (content_type is None || content_type->0@ != "application/json"@)
                &&& reply@ == http_reply(
                    400,
                    Some(error_reply(JsonView::Null, -32600, "Improper content-type header"@)),
                )
            },
            None => header_check ==> content_type is Some && content_type->0@
                == "application/json"@,
        },
{
    let right = match content_type {
        Some(content_type) => same(content_type, "application/json"),
        None => false,
    };
    if header_check && !right {
        Some(
            response(
                400,
                Some(request_error(Json::Null, -32600, "Improper content-type header")),
            ),
        )
    } else {
        None
    }
}

/// What becomes of a body, once it is parsed.
pub fn plan_body(parsed: Option<Json>) -> (plan: BodyPlan)
    ensures
        plans(plan, json_view(parsed)),
{
    match parsed {
        None => BodyPlan::Refuse(
            response(400, Some(request_error(Json::Null, -32700, "Parse error"))),
        ),
        Some(request) => {
            if request.as_array().is_none() {
                return BodyPlan::Single(request);
            }
            match request {
                Json::Array(calls) => {
                    proof {
                        assert(request@->Array_0 =~= items_view(calls@));
                    }
                    if calls.len() == 0 {
                        BodyPlan::Refuse(
                            response(
                                400,
                                Some(request_error(Json::Null, -32600, "Invalid Request")),
                            ),
                        )
                    } else {
                        BodyPlan::Batch(calls)
                    }
                },
                request => BodyPlan::Single(request),
            }
        },
    }
}

/// What becomes of a body.
pub fn forward_body(body: Vec<u8>) -> (plan: BodyPlan)
    ensures
        plans(plan, bytes_value(body@)),
{
    plan_body(incoming_to_value(body))
}

/// What the replies of a list say, in order.
pub open spec fn replies_view(replies: Seq<Reply>) -> Seq<ReplyView> {
    Seq::new(replies.len(), |i: int| replies[i]@)
}

/// The answers among replies, in order; notifications have none.
pub open spec fn answers(replies: Seq<ReplyView>) -> Seq<JsonView>
    decreases replies.len(),
{
    if replies.len() == 0 {
        Seq::empty()
    } else {
        match replies.last().value {
            Some(value) => answers(replies.drop_last()).push(value),
            None => answers(replies.drop_last()),
        }
    }
}

/// The reply to a batch: the answers of its members in one array, in the order of the members.
pub open spec fn batch_answer(replies: Seq<ReplyView>) -> HttpReplyView {
    http_reply(
        200,
        if answers(replies).len() == 0 {
            None
        } else {
            Some(JsonView::Array(answers(replies)))
        },
    )
}

/// The reply to a batch.
pub fn batch_reply(replies: &Vec<Reply>) -> (reply: HttpReply)
    ensures
        reply@ == batch_answer(replies_view(replies@)),
{
    let mut values: Vec<Json> = Vec::new();
    let mut i: usize = 0;
    while i < replies.len()
        invariant
            i <= replies@.len(),
            items_view(values@) == answers(replies_view(replies@).take(i as int)),
        decreases replies@.len() - i,
    {
        let ghost before = values@;
        proof {
            assert(replies_view(replies@).take(i + 1).drop_last() =~= replies_view(replies@).take(
                i as int,
            ));
        }
        if let Some(value) = &replies[i].value {
            values.push(value.clone());
            proof {
                assert(items_view(values@) =~= items_view(before).push(value@));
            }
        }
        i = i + 1;
    }
    proof {
        assert(replies_view(replies@).take(i as int) =~= replies_view(replies@));
    }
    if values.len() == 0 {
        proof {
            assert(items_view(values@).len() == 0);
        }
        response(200, None)
    } else {
        response(200, Some(Json::array(values)))
    }
}

/// A batch whose members are being called.
pub struct BatchRun {
    calls: Vec<Json>,
    /// How many members were started.
    started: usize,
    /// The replies that came in, in the order of the members.
    replies: Vec<Reply>,
}

#[verifier::ext_equal]
pub struct BatchView {
    pub calls: Seq<JsonView>,
    pub started: nat,
    pub replies: Seq<ReplyView>,
}

/// What is done next for a batch.
pub enum BatchStep {
    /// Start this member.
    Start(Json),
    /// Wait for the reply of the member that was started first among those under way.
    Await,
    /// Answer the batch.
    Finish(HttpReply),
}

impl BatchView {
    /// A batch of which nothing was started.
    pub open spec fn fresh(calls: Seq<JsonView>) -> BatchView {
        BatchView { calls, started: 0, replies: Seq::empty() }
    }

    /// How many members are under way.
    pub open spec fn in_flight(self) -> int {
        self.started - self.replies.len()
    }

    /// Whether another member may start.
    pub open spec fn may_start(self) -> bool {
        self.in_flight() < MAX_CONCURRENT_CALLS && self.started < self.calls.len()
    }

    /// How often a member is still to be started or waited for.
    pub open spec fn left(self) -> int {
        2 * self.calls.len() - self.started - self.replies.len()
    }

    /// After the next member was started.
    pub open spec fn start(self) -> BatchView {
        BatchView { started: self.started + 1, ..self }
    }

    /// After the reply of the member that was started first among those under way.
    pub open spec fn finish(self, reply: ReplyView) -> BatchView {
        BatchView { replies: self.replies.push(reply), ..self }
    }

    /// No reply comes before its call, and no more calls are under way than may be.
    pub open spec fn wf(self) -> bool {
        &&& self.replies.len() <= self.started <= self.calls.len()
        &&& self.in_flight() <= MAX_CONCURRENT_CALLS
    }
}

impl BatchRun {
    pub closed spec fn view(&self) -> BatchView {
        BatchView {
            calls: items_view(self.calls@),
            started: self.started as nat,
            replies: replies_view(self.replies@),
        }
    }

    /// A batch of which nothing was started.
    pub fn new(calls: Vec<Json>) -> (batch: BatchRun)
        ensures
            batch@ == BatchView::fresh(items_view(calls@)),
            batch@.wf(),
    {
        let batch = BatchRun { calls, started: 0, replies: Vec::new() };
        proof {
            assert(replies_view(batch.replies@) =~= Seq::<ReplyView>::empty());
        }
        batch
    }

    /// What is done next: members start in order as long as they may, and once all have replied
    /// the batch is answered.
    pub fn step(&mut self) -> (step: BatchStep)
        requires
            old(self)@.wf(),
        ensures
            final(self)@.wf(),
            if old(self)@.may_start() {
                &&& step matches BatchStep::Start(call) && call@ == old(self)@.calls[old(
                    self,
                )@.started as int]
                &&& final(self)@ == old(self)@.start()
            } else {
                &&& final(self)@ == old(self)@
                &&& if old(self)@.in_flight() > 0 {
                    step == BatchStep::Await
                } else {
                    step matches BatchStep::Finish(reply) && reply@ == batch_answer(
                        old(self)@.replies,
                    )
                }
            },
    {
        let in_flight: usize = self.started - self.replies.len();
        if in_flight < MAX_CONCURRENT_CALLS && self.started < self.calls.len() {
            let call = self.calls[self.started].clone();
            self.started = self.started + 1;
            BatchStep::Start(call)
        } else if in_flight > 0 {
            BatchStep::Await
        } else {
            BatchStep::Finish(batch_reply(&self.replies))
        }
    }

    /// Takes in the reply of the member that was started first among those under way.
    pub fn finished(&mut self, reply: Reply)
        requires
            old(self)@.wf(),
            old(self)@.in_flight() > 0,
        ensures
            final(self)@.wf(),
            final(self)@ == old(self)@.finish(reply@),
    {
        let ghost before = self.replies@;
        self.replies.push(reply);
        proof {
            assert(replies_view(self.replies@) =~= replies_view(before).push(reply@));
        }
    }
}

/// What becomes of a connection.
pub enum Admission {
    Refuse(HttpReply),
    /// Turn the connection into a WebSocket, with so many milliseconds for each call.
    Upgrade(u64),
    Forward(RequestParams),
}

/// Decides by the settings what becomes of a connection.
pub fn accept_request(is_upgrade: bool, config: &Settings) -> (admission: Admission)
    requires
        is_upgrade && config.is_ws ==> config.ttl <= u64::MAX,
    ensures
        if !is_upgrade {
            admission matches Admission::Forward(params) && params == (RequestParams {
                ttl: config.ttl,
                max_retries: config.max_retries,
                header_check: config.header_check,
            })
        } else if config.is_ws {
            admission == Admission::Upgrade(config.ttl as u64)
        } else {
            admission matches Admission::Refuse(reply) && reply@ == bare_reply(
                500,
                "{code:-32005, message:\"error: WebSockets are disabled!\"}"@,
            )
        },
{
    if !is_upgrade {
        return Admission::Forward(
            RequestParams {
                ttl: config.ttl,
                max_retries: config.max_retries,
                header_check: config.header_check,
            },
        );
    }
    if !config.is_ws {
        return Admission::Refuse(
            rpc_response(500, "{code:-32005, message:\"error: WebSockets are disabled!\"}"),
        );
    }
    Admission::Upgrade(config.ttl as u64)
}

/// What a connection is answered that cannot be turned into a WebSocket.
pub fn upgrade_failed() -> (reply: HttpReply)
    ensures
        reply@ == bare_reply(
            500,
            "{code:-32004, message:\"error: Websocket upgrade error! Try again later...\"}"@,
        ),
{
    rpc_response(
        500,
        "{code:-32004, message:\"error: Websocket upgrade error! Try again later...\"}",
    )
}

/// A call is tried once and then `max_retries` times more, and no more often.
pub proof fn law_retries_bounded(call: ForwardView, failures: nat)
    requires
        call.attempt == 0,
    ensures
        after_failures(call, failures) is Some <==> failures <= call.max_retries,
        failures <= call.max_retries ==> after_failures(call, failures) == Some(
            ForwardView { attempt: failures as u32, ..call },
        ),
    decreases failures,
{
    if failures > 0 {
        law_retries_bounded(call, (failures - 1) as nat);
    }
}

/// Every error that a call ends in goes to the request's own id.
pub proof fn law_errors_keep_id(
    request: JsonView,
    numbers: NamedBlocknumbers,
    algorithm: HashAlgorithm,
    params: RequestParams,
    status: u16,
    code: int,
    message: Seq<char>,
)
    requires
        valid_request(request),
        request.has("id"@),
    ensures
        ({
            let call = started(request, numbers, algorithm, params);
            let reply = refusal(call, status, code, message).value;
            reply is Some && reply->0.member("id"@) == request.member("id"@)
        }),
        upstream_view(None, request.member("id"@)).value->0.member("id"@) == request.member("id"@),
{
    reveal_strlit("id");
    reveal_strlit("error");
    assert("id"@.len() != "error"@.len());
}

/// The key of a request does not depend on its id: who asks again, under whatever id, finds what
/// was cached.
pub proof fn law_key_ignores_id(
    request: JsonView,
    id: JsonView,
    numbers: NamedBlocknumbers,
    algorithm: HashAlgorithm,
    params: RequestParams,
)
    requires
        request.has("id"@),
    ensures
        started(request.with("id"@, id), numbers, algorithm, params).key == started(
            request,
            numbers,
            algorithm,
            params,
        ).key,
{
    let entries = request->Object_0;
    assert(entries.insert("id"@, id).insert("id"@, JsonView::Null) =~= entries.insert(
        "id"@,
        JsonView::Null,
    ));
}

/// A reply from the cache carries the id of the request, and is otherwise what was cached.
pub proof fn law_cached_reply_carries_id(cached: JsonView, id: JsonView, key: Seq<char>)
    requires
        cached is Object,
    ensures
        ({
            let reply = cached_reply(Some(cached), id);
            &&& reply is Some
            &&& reply->0.member("id"@) == id
            &&& key != "id"@ ==> reply->0.member(key) == cached.member(key)
        }),
{
}

/// A batch is answered member by member: taking the answers of two lists one after the other is
/// taking those of the lists joined.
pub proof fn law_answers_in_order(first: Seq<ReplyView>, second: Seq<ReplyView>)
    ensures
        answers(first + second) == answers(first) + answers(second),
    decreases second.len(),
{
    if second.len() == 0 {
        assert(first + second =~= first);
        assert(answers(first) + answers(second) =~= answers(first));
    } else {
        law_answers_in_order(first, second.drop_last());
        assert((first + second).drop_last() =~= first + second.drop_last());
        assert((first + second).last() == second.last());
        assert(answers(first + second) =~= answers(first) + answers(second));
    }
}

/// However a batch goes on, no more of its members are under way than may be, and each starts once.
pub proof fn law_calls_under_way_bounded(
    calls: Seq<JsonView>,
    batch: BatchView,
    reply: ReplyView,
)
    ensures
        BatchView::fresh(calls).wf(),
        batch.wf() && batch.may_start() ==> batch.start().wf(),
        batch.wf() && batch.in_flight() > 0 ==> batch.finish(reply).wf(),
        batch.wf() ==> batch.in_flight() <= MAX_CONCURRENT_CALLS && batch.started
            <= batch.calls.len(),
{
}

/// A batch is answered only when each of its members has replied.
pub proof fn law_batch_waits_for_every_member(batch: BatchView)
    requires
        batch.wf(),
        !batch.may_start(),
        batch.in_flight() == 0,
    ensures
        batch.replies.len() == batch.calls.len(),
{
}

/// A batch comes to its answer: with each member that starts or replies less is left to do.
pub proof fn law_batch_ends(batch: BatchView, reply: ReplyView)
    requires
        batch.wf(),
    ensures
        batch.may_start() ==> 0 <= batch.start().left() == batch.left() - 1,
        batch.in_flight() > 0 ==> 0 <= batch.finish(reply).left() == batch.left() - 1,
{
}

/// The answer of a member stands behind those of the members before it.
pub proof fn law_answer_keeps_place(replies: Seq<ReplyView>, member: int)
    requires
        0 <= member < replies.len(),
        replies[member].value is Some,
    ensures
        ({
            let place = answers(replies.take(member)).len();
            place < answers(replies).len() && answers(replies)[place as int]
                == replies[member].value->0
        }),
{
    let before = replies.take(member);
    let upto = replies.take(member + 1);
    assert(upto.drop_last() =~= before);
    assert(replies =~= upto + replies.skip(member + 1));
    law_answers_in_order(upto, replies.skip(member + 1));
}

/// A notification gets no answer, whatever becomes of it.
pub proof fn law_notifications_get_no_answer(
    call: ForwardView,
    status: u16,
    code: int,
    message: Seq<char>,
)
    requires
        call.notification,
    ensures
        refusal(call, status, code, message).value is None,
        http_reply(status, refusal(call, status, code, message).value).status == 204,
        http_reply(status, refusal(call, status, code, message).value).body == Seq::<char>::empty(),
{
}

/// A node's answer is passed on as it is, whatever it says: every object, one that reports an error
/// too, comes with status 200 and all its members as the node sent them. Only what is no object
/// is answered with 502, under the id of the request.
pub proof fn law_upstream_answer_is_passed_on(parsed: Option<Json>, id: Json, reply: Reply)
    requires
        call_ensures(upstream_reply, (parsed, id), reply),
    ensures
        parsed is Some && parsed->0@ is Object ==> reply.status == 200 && reply.value is Some
            && reply.value->0@ == parsed->0@,
        !(parsed is Some && parsed->0@ is Object) ==> {
            &&& reply.status == 502
            &&& reply.value is Some
            &&& reply.value->0@.member("id"@) == id@
            &&& reply.value->0@.member("error"@).member("code"@) == integer(-32603)
            &&& reply.value->0@.member("error"@).member("message"@) == JsonView::Text(
                "Invalid upstream response"@,
            )
        },
{
    law_errors_say_what_is_wrong(id@, -32603, "Invalid upstream response"@);
}

/// What is sent upstream, and what it is cached under. A valid request with an id is looked for in
/// the cache; it goes on with null for its id, and otherwise as it is but for block tags. A
/// notification goes on without a look into the cache. The key is the digest of the whole text of
/// what goes on.
pub proof fn law_request_goes_on_as_it_is(
    request: Json,
    numbers: &NamedBlocknumbers,
    algorithm: HashAlgorithm,
    params: RequestParams,
    valid: Result<(), Json>,
    step: ForwardStep,
    key: Seq<char>,
)
    requires
        call_ensures(validate_request, (&request,), valid),
        call_ensures(forward_call, (request, numbers, algorithm, params), step),
    ensures
        match valid {
            Err(error) => step matches ForwardStep::Finish(reply, write) && reply.status == 400
                && reply.value is Some && reply.value->0@ == error@ && write is None,
            Ok(()) => {
                let call = if request@.has("id"@) {
                    step->ReadCache_0@
                } else {
                    step->Pick_0@
                };
                &&& request@.has("id"@) ==> step is ReadCache
                &&& !request@.has("id"@) ==> step is Pick
                &&& call.id == request@.member("id"@)
                &&& call.notification == !request@.has("id"@)
                &&& call.attempt == 0
                &&& call.max_retries == params.max_retries
                &&& call.ttl == params.ttl
                &&& call.request.has(key) <==> request@.has(key)
                &&& key != "id"@ && key != "params"@ ==> call.request.member(key)
                    == request@.member(key)
                &&& call.request.member("id"@) == JsonView::Null
                &&& call.request.member("params"@) == untagged(request@, *numbers).member(
                    "params"@,
                )
                &&& algorithm == HashAlgorithm::Blake3 ==> call.key == blake3_digest(
                    encode_utf8(value_text(call.request)),
                )
                &&& algorithm == HashAlgorithm::Xxhash ==> call.key == spec_u128_to_le_bytes(
                    xxh3_digest(encode_utf8(value_text(call.request))),
                ) + Seq::new(16, |i: int| 0u8)
            },
        },
{
    reveal_strlit("params");
    reveal_strlit("method");
    reveal_strlit("id");
    assert("params"@.len() == 6 && "method"@.len() == 6 && "id"@.len() == 2);
    assert("params"@[0] == 'p' && "method"@[0] == 'm');
}

/// What is found in the cache is the reply, under the id of the request, with status 200. Where
/// nothing usable is found, the request goes on under its own id and is otherwise not changed.
pub proof fn law_cache_answers_or_request_goes_on(
    call: ForwardCall,
    read: CacheRead,
    step: ForwardStep,
    key: Seq<char>,
)
    requires
        call_ensures(ForwardCall::cache_read, (call, read), step),
        call@.request is Object,
    ensures
        ({
            let found = match read {
                CacheRead::Found(bytes) => bytes_value(bytes@),
                _ => None,
            };
            if read is Failed {
                step matches ForwardStep::Finish(reply, None) && reply.status == 500
                    && reply.value is Some && reply.value->0@.member("id"@) == call@.id
                    && reply.value->0@.member("error"@).member("code"@) == integer(-32003)
                    && reply.value->0@.member("error"@).member("message"@) == JsonView::Text(
                    "Cache error"@,
                )
            } else if found is Some && found->0 is Object {
                &&& step is Finish
                &&& step->Finish_0.status == 200
                &&& step->Finish_1 is None
                &&& step->Finish_0.value is Some
                &&& step->Finish_0.value->0@.member("id"@) == call@.id
                &&& key != "id"@ ==> {
                    &&& step->Finish_0.value->0@.has(key) <==> found->0.has(key)
                    &&& step->Finish_0.value->0@.member(key) == found->0.member(key)
                }
            } else {
                &&& step is Pick
                &&& step->Pick_0@.request.member("id"@) == call@.id
                &&& key != "id"@ ==> step->Pick_0@.request.member(key) == call@.request.member(key)
                &&& step->Pick_0@.id == call@.id
                &&& step->Pick_0@.notification == call@.notification
                &&& step->Pick_0@.key == call@.key
                &&& step->Pick_0@.attempt == call@.attempt
                &&& step->Pick_0@.max_retries == call@.max_retries
                &&& step->Pick_0@.ttl == call@.ttl
            }
        }),
{
    law_errors_say_what_is_wrong(call@.id, -32003, "Cache error"@);
}

/// With a node the request is sent to it as it is, for as long as the settings say; without one the
/// call ends, with an error unless it is a notification.
pub proof fn law_picked_node_is_asked(
    call: ForwardCall,
    position: Option<usize>,
    step: ForwardStep,
)
    requires
        position is Some ==> call@.ttl <= u64::MAX,
        call_ensures(ForwardCall::picked, (call, position), step),
    ensures
        position is Some ==> (step matches ForwardStep::Send(next, millis) && next@ == call@
            && millis == call@.ttl),
        position is None ==> {
            &&& step matches ForwardStep::Finish(reply, None) && reply.status == 500
                && if call@.notification {
                reply.value is None
            } else {
                reply.value is Some && reply.value->0@.member("id"@) == call@.id
                    && reply.value->0@.member("error"@).member("code"@) == integer(-32002)
                    && reply.value->0@.member("error"@).member("message"@) == JsonView::Text(
                    "No working RPC available"@,
                )
            }
        },
{
    law_errors_say_what_is_wrong(call@.id, -32002, "No working RPC available"@);
}

/// What an answer of a node comes to. A notification is answered with 204 and nothing. Any other
/// call gets the answer as the node sent it, with status 200, where it is an object, and an error
/// with 502 where it is not.
pub proof fn law_answer_of_node_is_the_reply(
    call: ForwardCall,
    rpc_list: &mut Vec<Rpc>,
    position: usize,
    time: u64,
    body: String,
    cache_args: &mut CacheArgs,
    step: ForwardStep,
)
    requires
        call_ensures(
            ForwardCall::sent,
            (call, rpc_list, position, time, Sent::Answered(body), cache_args),
            step,
        ),
    ensures
        step is Finish,
        call@.notification ==> step->Finish_0.status == 204 && step->Finish_0.value is None
            && step->Finish_1 is None,
        !call@.notification && text_value(body@) is Some && text_value(body@)->0 is Object ==> {
            &&& step->Finish_0.status == 200
            &&& step->Finish_0.value is Some
            &&& step->Finish_0.value->0@ == text_value(body@)->0
        },
        !call@.notification && !(text_value(body@) is Some && text_value(body@)->0 is Object) ==> {
            &&& step->Finish_0.status == 502
            &&& step->Finish_0.value is Some
            &&& step->Finish_0.value->0@.member("id"@) == call@.id
            &&& step->Finish_0.value->0@.member("error"@).member("code"@) == integer(-32603)
            &&& step->Finish_1 is None
        },
        step->Finish_1 is Some <==> !call@.notification && text_value(body@) is Some && text_value(
            body@,
        )->0.has("id"@) && requested_block(call@.request, old(cache_args).named_numbers) is Some
            && method_cacheable(value_text(call@.request)) && result_cacheable(body@),
        step->Finish_1 matches Some(write) ==> write.key@ == call@.key && write.value@
            == encode_utf8(value_text(text_value(body@)->0.with("id"@, JsonView::Null))),
{
    law_errors_say_what_is_wrong(call@.id, -32603, "Invalid upstream response"@);
}

/// A call that fails or times out is tried again as it is, as often as the settings say; then it
/// is answered with 408, unless it is a notification. Nothing is cached by it.
pub proof fn law_failed_call_is_tried_again(
    call: ForwardCall,
    rpc_list: &mut Vec<Rpc>,
    position: usize,
    time: u64,
    sent: Sent,
    cache_args: &mut CacheArgs,
    step: ForwardStep,
)
    requires
        !(sent is Answered),
        call_ensures(
            ForwardCall::sent,
            (call, rpc_list, position, time, sent, cache_args),
            step,
        ),
    ensures
        call@.attempt < call@.max_retries ==> {
            &&& step is Pick
            &&& step->Pick_0@ == (ForwardView { attempt: (call@.attempt + 1) as u32, ..call@ })
        },
        call@.attempt >= call@.max_retries ==> {
            &&& step is Finish
            &&& step->Finish_0.status == 408
            &&& step->Finish_1 is None
            &&& if call@.notification {
                step->Finish_0.value is None
            } else {
                step->Finish_0.value is Some && step->Finish_0.value->0@.member("id"@) == call@.id
                    && step->Finish_0.value->0@.member("error"@).member("code"@) == integer(-32001)
                    && step->Finish_0.value->0@.member("error"@).member("message"@)
                    == JsonView::Text("Request timed out"@)
            }
        },
        final(cache_args).head_cache@ == old(cache_args).head_cache@,
{
    law_errors_say_what_is_wrong(call@.id, -32001, "Request timed out"@);
}

/// Whatever came of sending, how long it took counts for the node that was asked, and for no
/// other; and nothing that the caching goes by changes, but for the keys that are followed.
pub proof fn law_sending_times_the_node(
    call: ForwardCall,
    rpc_list: &mut Vec<Rpc>,
    position: usize,
    time: u64,
    sent: Sent,
    cache_args: &mut CacheArgs,
    step: ForwardStep,
    i: int,
)
    requires
        call_ensures(
            ForwardCall::sent,
            (call, rpc_list, position, time, sent, cache_args),
            step,
        ),
    ensures
        final(cache_args).finalized == old(cache_args).finalized,
        final(cache_args).named_numbers == old(cache_args).named_numbers,
        final(cache_args).algorithm == old(cache_args).algorithm,
        final(rpc_list)@.len() == old(rpc_list)@.len(),
        0 <= i < old(rpc_list)@.len() ==> final(rpc_list)@[i]@ == if i == position || (position
            >= old(rpc_list)@.len() && i == old(rpc_list)@.len() - 1) {
            old(rpc_list)@[i]@.timed(time)
        } else {
            old(rpc_list)@[i]@
        },
{
    let before = rpcs_view(old(rpc_list)@);
    let after = rpcs_view(final(rpc_list)@);
    assert(before.len() == old(rpc_list)@.len());
    assert(after.len() == final(rpc_list)@.len());
    if 0 <= i < before.len() {
        assert(before[i] == old(rpc_list)@[i]@);
        assert(after[i] == final(rpc_list)@[i]@);
    }
}

/// The key under which an answer is written is followed under its block exactly where that is not
/// final; what else is followed stays.
pub proof fn law_written_key_is_followed(
    call: ForwardCall,
    rpc_list: &mut Vec<Rpc>,
    position: usize,
    time: u64,
    sent: Sent,
    cache_args: &mut CacheArgs,
    step: ForwardStep,
    number: u64,
    key: Seq<u8>,
)
    requires
        call_ensures(
            ForwardCall::sent,
            (call, rpc_list, position, time, sent, cache_args),
            step,
        ),
    ensures
        ({
            let before = old(cache_args).head_cache@;
            let after = final(cache_args).head_cache@;
            let written = step is Finish && step->Finish_1 is Some;
            (after.contains_key(number) && after[number].contains(key)) <==> (before.contains_key(
                number,
            ) && before[number].contains(key)) || (written && requested_block(
                call@.request,
                old(cache_args).named_numbers,
            ) == Some(number) && number > old(cache_args).finalized && key == call@.key)
        }),
{
}

/// An answer goes out as its text with the given status; no answer goes out as 204 without a body.
/// Either way the reply says that it is JSON, and that any page may read it.
pub proof fn law_answer_is_the_body(status: u16, value: Option<Json>, reply: HttpReply)
    requires
        call_ensures(response, (status, value), reply),
    ensures
        value is Some ==> reply.status == status && reply.body@ == value_text(value->0@),
        value is None ==> reply.status == 204 && reply.body@.len() == 0,
        reply@.headers == seq![
            ("Content-Type"@, "application/json"@),
            ("Access-Control-Allow-Origin"@, "*"@),
        ],
{
}

/// What a body is: a batch where it is an array with members, each of them a call as it stands
/// there; a single call where it is any other value. An empty array and what is no JSON are
/// refused with 400.
pub proof fn law_body_is_batch_or_call(parsed: Option<Json>, plan: BodyPlan)
    requires
        call_ensures(plan_body, (parsed,), plan),
    ensures
        parsed is None ==> (plan matches BodyPlan::Refuse(reply) && reply.status == 400
            && reply.body@ == value_text(error_reply(JsonView::Null, -32700, "Parse error"@))),
        parsed is Some && parsed->0@ is Array && parsed->0@->Array_0.len() == 0 ==> (
        plan matches BodyPlan::Refuse(reply) && reply.status == 400 && reply.body@ == value_text(
            error_reply(JsonView::Null, -32600, "Invalid Request"@),
        )),
        parsed is Some && parsed->0@ is Array && parsed->0@->Array_0.len() > 0 ==> {
            &&& plan is Batch
            &&& plan->Batch_0@.len() == parsed->0@->Array_0.len()
            &&& forall|i: int|
                0 <= i < plan->Batch_0@.len() ==> (#[trigger] plan->Batch_0@[i])@
                    == parsed->0@->Array_0[i]
        },
        parsed is Some && !(parsed->0@ is Array) ==> (plan matches BodyPlan::Single(call) && call@
            == parsed->0@),
{
    if let BodyPlan::Batch(calls) = plan {
        assert(items_view(calls@).len() == calls@.len());
        assert forall|i: int| 0 <= i < calls@.len() implies (#[trigger] calls@[i])@
            == parsed->0@->Array_0[i] by {
            assert(items_view(calls@)[i] == calls@[i]@);
        }
    }
}

/// The bytes of a body are read, and what they say decides.
pub proof fn law_body_is_read(body: Vec<u8>, plan: BodyPlan, parsed: Option<Json>, same: BodyPlan)
    requires
        call_ensures(incoming_to_value, (body,), parsed),
        call_ensures(plan_body, (parsed,), same),
        call_ensures(forward_body, (body,), plan),
    ensures
        plan is Refuse <==> same is Refuse,
        plan is Batch <==> same is Batch,
        plan is Single <==> same is Single,
        plan is Single ==> plan->Single_0@ == same->Single_0@,
        plan is Batch ==> items_view(plan->Batch_0@) == items_view(same->Batch_0@),
        plan is Refuse ==> plan->Refuse_0@ == same->Refuse_0@,
{
}

/// A request is refused for its content type exactly where that is checked and is not JSON.
pub proof fn law_only_json_passes_the_check(
    header_check: bool,
    content_type: Option<&str>,
    refusal: Option<HttpReply>,
)
    requires
        call_ensures(check_header, (header_check, content_type), refusal),
    ensures
        refusal is None <==> !header_check || (content_type is Some && content_type->0@
            == "application/json"@),
        refusal is Some ==> refusal->0.status == 400 && refusal->0.body@ == value_text(
            error_reply(JsonView::Null, -32600, "Improper content-type header"@),
        ),
{
}

proof fn lemma_answers_bound(replies: Seq<ReplyView>)
    ensures
        answers(replies).len() <= replies.len(),
        (forall|i: int| 0 <= i < replies.len() ==> (#[trigger] replies[i]).value is None)
            ==> answers(replies).len() == 0,
    decreases replies.len(),
{
    if replies.len() > 0 {
        let before = replies.drop_last();
        lemma_answers_bound(before);
        if forall|i: int| 0 <= i < replies.len() ==> (#[trigger] replies[i]).value is None {
            assert forall|i: int| 0 <= i < before.len() implies (
            #[trigger] before[i]).value is None by {
                assert(before[i] == replies[i]);
            }
            assert(replies[replies.len() - 1].value is None);
        }
    }
}

/// The answers of a batch are those of its members and no others: where every member has one, they
/// are these in order, and where none has one there is none.
pub proof fn law_answers_are_those_of_members(replies: Seq<ReplyView>)
    ensures
        (forall|i: int| 0 <= i < replies.len() ==> (#[trigger] replies[i]).value is Some)
            ==> answers(replies) == Seq::new(replies.len(), |i: int| replies[i].value->0),
        (forall|i: int| 0 <= i < replies.len() ==> (#[trigger] replies[i]).value is None)
            ==> answers(replies).len() == 0,
        answers(replies).len() <= replies.len(),
    decreases replies.len(),
{
    lemma_answers_bound(replies);
    if replies.len() > 0 {
        let before = replies.drop_last();
        law_answers_are_those_of_members(before);
        if forall|i: int| 0 <= i < replies.len() ==> (#[trigger] replies[i]).value is Some {
            assert forall|i: int| 0 <= i < before.len() implies (
            #[trigger] before[i]).value is Some by {
                assert(before[i] == replies[i]);
            }
            assert(replies[replies.len() - 1].value is Some);
            assert(answers(replies) =~= Seq::new(replies.len(), |i: int| replies[i].value->0));
        }
    }
}

/// A batch is answered with status 200 and an array of the answers of its members, or with 204 and
/// nothing where there are none.
pub proof fn law_batch_is_answered_with_an_array(replies: &Vec<Reply>, reply: HttpReply)
    requires
        call_ensures(batch_reply, (replies,), reply),
    ensures
        ({
            let values = answers(replies_view(replies@));
            if values.len() == 0 {
                reply.status == 204 && reply.body@.len() == 0
            } else {
                reply.status == 200 && reply.body@ == value_text(JsonView::Array(values))
            }
        }),
{
}

/// Up to sixteen members of a batch are under way at a time. Each step starts the next member in
/// order as long as there is one and fewer than that are under way; it waits only where none may
/// start, and answers only where all have replied.
pub proof fn law_sixteen_members_under_way(batch: &mut BatchRun, step: BatchStep)
    requires
        old(batch)@.wf(),
        call_ensures(BatchRun::step, (batch,), step),
    ensures
        ({
            let before = old(batch)@;
            let after = final(batch)@;
            let under_way = before.started - before.replies.len();
            &&& step is Start <==> before.started < before.calls.len() && under_way < 16
            &&& step is Start ==> step->Start_0@ == before.calls[before.started as int]
                && after.started == before.started + 1 && after.replies == before.replies
                && after.calls == before.calls
            &&& !(step is Start) ==> after == before
            &&& step is Await ==> under_way > 0
            &&& step is Finish ==> before.replies.len() == before.calls.len()
            &&& step is Finish ==> step->Finish_0@ == batch_answer(before.replies)
            &&& after.started - after.replies.len() <= 16
        }),
{
}

/// A reply that comes in is kept behind those that came before it.
pub proof fn law_replies_are_kept_in_order(batch: &mut BatchRun, reply: Reply)
    requires
        call_ensures(BatchRun::finished, (batch, reply), ()),
    ensures
        final(batch)@.replies == old(batch)@.replies.push(reply@),
        final(batch)@.calls == old(batch)@.calls,
        final(batch)@.started == old(batch)@.started,
{
}

/// A batch starts with all its calls, none of them under way.
pub proof fn law_batch_starts_with_all_calls(calls: Vec<Json>, batch: BatchRun)
    requires
        call_ensures(BatchRun::new, (calls,), batch),
    ensures
        batch@.calls.len() == calls@.len(),
        forall|i: int| 0 <= i < calls@.len() ==> #[trigger] batch@.calls[i] == calls@[i]@,
        batch@.started == 0,
        batch@.replies.len() == 0,
{
}

/// A connection is forwarded with the settings as they are; one that asks to become a WebSocket
/// does so where that is enabled and is refused where it is not.
pub proof fn law_settings_decide_on_connections(
    is_upgrade: bool,
    config: &Settings,
    admission: Admission,
)
    requires
        is_upgrade && config.is_ws ==> config.ttl <= u64::MAX,
        call_ensures(accept_request, (is_upgrade, config), admission),
    ensures
        !is_upgrade ==> (admission matches Admission::Forward(params) && params.ttl == config.ttl
            && params.max_retries == config.max_retries && params.header_check
            == config.header_check),
        is_upgrade && config.is_ws ==> (admission matches Admission::Upgrade(millis) && millis
            == config.ttl),
        is_upgrade && !config.is_ws ==> (admission matches Admission::Refuse(reply)
            && reply.status == 500 && reply.body@
            == "{code:-32005, message:\"error: WebSockets are disabled!\"}"@),
{
}

/// A connection that cannot become a WebSocket is told so with 500.
pub proof fn law_failed_upgrade_is_told(reply: HttpReply)
    requires
        call_ensures(upgrade_failed, (), reply),
    ensures
        reply.status == 500,
        reply.body@
            == "{code:-32004, message:\"error: Websocket upgrade error! Try again later...\"}"@,
{
}

/// A call gives out the key and the request that it was made with.
pub proof fn law_call_shows_key_and_request(call: &ForwardCall, key: &[u8; 32], request: &Json)
    requires
        call_ensures(ForwardCall::key, (call,), key),
        call_ensures(ForwardCall::request, (call,), request),
    ensures
        key@ == call@.key,
        request@ == call@.request,
{
}

} // verus!
