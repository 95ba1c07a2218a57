//! Requests to the admin interface: who may make them, and what they are answered.

use crate::admin::claims::{has_repeated_claim, repeats_claim};
use crate::admin::error::AdminError;
use crate::admin::methods::{
    admin_flush_cache, execute_method, executes, requested_method, result_reply, AdminOutcome,
    AdminState, RpseeRpcMethod,
};
use crate::balancer::format::incoming_to_value;
use crate::balancer::response_errors::{
    bare_reply, error_body, error_object, law_errors_say_what_is_wrong, rpc_response, HttpReply,
    HttpReplyView,
};
use crate::config::settings::Settings;
use crate::json::{
    bytes_value, empty_object, from_claims, integer, items_view, token_claims, value_text, Json,
    JsonView, Numeric,
};
use crate::rpc::types::{rpcs_view, Rpc};
use crate::text::{same, trim, trimmed_end, trimmed_start};
use vstd::prelude::*;

verus! {

/// What a path of the admin interface is for.
#[derive(Clone, Copy, PartialEq, Eq, Structural)]
pub enum AdminPath {
    Ready,
    Health,
    Request,
}

/// What a path of the admin interface is for.
pub fn admin_path(path: &str) -> (kind: AdminPath)
    ensures
        kind == if path@ == "/ready"@ {
            AdminPath::Ready
        } else if path@ == "/health"@ {
            AdminPath::Health
        } else {
            AdminPath::Request
        },
{
    if same(path, "/ready") {
        AdminPath::Ready
    } else if same(path, "/health") {
        AdminPath::Health
    } else {
        AdminPath::Request
    }
}

/// The text of the token in a request.
pub open spec fn token_view(request: JsonView) -> Seq<char> {
    trimmed_end(trimmed_start(value_text(request.member("token"@)), '"'), '"')
}

/// The text of the token in a request: that of the value under `token`, without quotes.
pub fn token_text(request: &Json) -> (token: String)
    ensures
        token@ == token_view(request@),
{
    trim(request.member("token").to_text().as_str(), '"')
}

/// A claim: by its name, or by its place where the claims are a list of five.
pub open spec fn claim(claims: JsonView, name: Seq<char>, place: int) -> Option<JsonView> {
    match claims {
        JsonView::Object(entries) => if entries.contains_key(name) {
            Some(entries[name])
        } else {
            None
        },
        JsonView::Array(items) => if items.len() == 5 {
            Some(items[place])
        } else {
            None
        },
        _ => None,
    }
}

fn find_claim<'a>(claims: &'a Json, name: &str, place: usize) -> (found: Option<&'a Json>)
    requires
        place < 5,
    ensures
        match found {
            Some(found) => claim(claims@, name@, place as int) == Some(found@),
            None => claim(claims@, name@, place as int) is None,
        },
{
    match claims.as_array() {
        Some(items) => if items.len() == 5 {
            proof {
                assert(items_view(items@)[place as int] == items@[place as int]@);
            }
            Some(&items[place])
        } else {
            None
        },
        None => claims.get(name),
    }
}

/// The request that the claims of a token make, where they are complete.
pub open spec fn claimed(claims: JsonView) -> Option<JsonView> {
    match (
        claim(claims, "id"@, 0),
        claim(claims, "jsonrpc"@, 1),
        claim(claims, "method"@, 2),
        claim(claims, "params"@, 3),
        claim(claims, "exp"@, 4),
    ) {
        (Some(id), Some(_), Some(method), Some(params), Some(exp)) => match exp.unsigned() {
            Some(exp) => if exp <= usize::MAX {
                Some(
                    empty_object().with("id"@, id).with("jsonrpc"@, JsonView::Text("2.0"@)).with(
                        "method"@,
                        method,
                    ).with("params"@, params),
                )
            } else {
                None
            },
            None => None,
        },
        _ => None,
    }
}

/// The request that the claims of a token make, where they are complete.
pub fn request_of_claims(claims: &Json) -> (request: Option<Json>)
    ensures
        match request {
            Some(request) => claimed(claims@) == Some(request@),
            None => claimed(claims@) is None,
        },
{
    match (
        find_claim(claims, "id", 0),
        find_claim(claims, "jsonrpc", 1),
        find_claim(claims, "method", 2),
        find_claim(claims, "params", 3),
        find_claim(claims, "exp", 4),
    ) {
        (Some(id), Some(_), Some(method), Some(params), Some(exp)) => match exp.as_u64() {
            Some(exp) => if exp <= usize::MAX as u64 {
                Some(
                    Json::object().put("id", id.clone()).put("jsonrpc", Json::text("2.0")).put(
                        "method",
                        method.clone(),
                    ).put("params", params.clone()),
                )
            } else {
                None
            },
            None => None,
        },
        _ => None,
    }
}

/// Who may make a request.
pub enum AdminAccess {
    Refuse(HttpReply),
    Accept(Json),
}

/// Whether access is refused with 401 and `text`.
pub open spec fn refuses(access: AdminAccess, text: Seq<char>) -> bool {
    access matches AdminAccess::Refuse(reply) && reply@ == bare_reply(401, text)
}

/// Decides on a token and its claims; there are none where it is not valid. A token that repeats
/// a claim is refused.
pub fn authorize(token: &str, claims: Option<Json>) -> (access: AdminAccess)
    ensures
        match claims {
            Some(claims) => match claimed(claims@) {
                Some(request) if !repeats_claim(token@) => access matches AdminAccess::Accept(
                    accepted,
                ) && accepted@ == request,
                _ => refuses(access, "Unauthorized or invalid token"@),
            },
            None => refuses(access, "Unauthorized or invalid token"@),
        },
{
    let request = match claims {
        Some(claims) => if has_repeated_claim(token) {
            None
        } else {
            request_of_claims(&claims)
        },
        None => None,
    };
    match request {
        Some(request) => AdminAccess::Accept(request),
        None => AdminAccess::Refuse(rpc_response(401, "Unauthorized or invalid token")),
    }
}

/// Takes in the body of a request. Where tokens are asked for, the request is the one that the
/// claims of its token make. Whether a token is still valid depends on the time, so that one that
/// is signed may be refused all the same.
pub fn accept_admin_request(body: Vec<u8>, config: &Settings) -> (access: AdminAccess)
    ensures
        match bytes_value(body@) {
            None => refuses(access, "Invalid admin request format"@),
            Some(request) => if config.admin.jwt {
                ||| refuses(access, "Unauthorized or invalid token"@)
                ||| {
                    let token = token_view(request);
                    let claims = token_claims(token, config.admin.key@);
                    access matches AdminAccess::Accept(accepted) && !repeats_claim(token)
                        && claims is Some && claimed(claims->0) == Some(accepted@)
                }
            } else {
                access matches AdminAccess::Accept(accepted) && accepted@ == request
            },
        },
{
    let tx = match incoming_to_value(body) {
        Some(tx) => tx,
        None => {
            return AdminAccess::Refuse(rpc_response(401, "Invalid admin request format"));
        },
    };
    if config.admin.jwt {
        let token = token_text(&tx);
        authorize(token.as_str(), from_claims(token.as_str(), &config.admin.key))
    } else {
        AdminAccess::Accept(tx)
    }
}

/// The HTTP reply with a value.
pub open spec fn admin_reply(value: JsonView) -> HttpReplyView {
    HttpReplyView {
        status: 200,
        headers: seq![("content-type"@, "application/json"@)],
        body: value_text(value),
    }
}

fn http(value: &Json) -> (reply: HttpReply)
    ensures
        reply@ == admin_reply(value@),
{
    let mut headers: Vec<(&'static str, &'static str)> = Vec::new();
    headers.push(("content-type", "application/json"));
    let reply = HttpReply { status: 200, headers, body: value.to_text() };
    proof {
        assert(reply@.headers =~= admin_reply(value@).headers);
    }
    reply
}

/// An error in reply to the request `id`.
pub open spec fn admin_error_view(id: JsonView, code: int, message: Seq<char>) -> JsonView {
    empty_object().with("jsonrpc"@, JsonView::Text("2.0"@)).with(
        "error"@,
        error_body(code, message),
    ).with("id"@, id)
}

/// What becomes of an admin request.
pub enum AdminStep {
    Reply(HttpReply),
    /// Flush the cache, and then reply to this id with how long it took.
    Flush(Json),
    /// Flush the cache and end.
    Quit,
}

/// Whether a request is one at all.
pub open spec fn well_formed(request: JsonView) -> bool {
    &&& request is Object
    &&& request.member("jsonrpc"@) == JsonView::Text("2.0"@)
    &&& request.member("method"@) is Text
}

/// Whether a step is what an outcome comes to, for the request `id`.
pub open spec fn concludes(
    step: AdminStep,
    id: JsonView,
    outcome: Result<AdminOutcome, AdminError>,
) -> bool {
    match outcome {
        Ok(AdminOutcome::Reply(reply)) => step matches AdminStep::Reply(http) && http@
            == admin_reply(reply@.with("id"@, id)),
        Ok(AdminOutcome::Flush) => step matches AdminStep::Flush(to) && to@ == id,
        Ok(AdminOutcome::Quit) => step == AdminStep::Quit,
        Err(error) => step matches AdminStep::Reply(http) && http@ == admin_reply(
            admin_error_view(id, error.number(), error.text()),
        ),
    }
}

/// Turns an outcome into what is done about it.
pub fn conclude(outcome: Result<AdminOutcome, AdminError>, id: Json) -> (step: AdminStep)
    ensures
        concludes(step, id@, outcome),
{
    match outcome {
        Ok(AdminOutcome::Reply(reply)) => AdminStep::Reply(http(&reply.put("id", id))),
        Ok(AdminOutcome::Flush) => AdminStep::Flush(id),
        Ok(AdminOutcome::Quit) => AdminStep::Quit,
        Err(error) => AdminStep::Reply(
            http(
                &Json::object().put("jsonrpc", Json::text("2.0")).put(
                    "error",
                    error_object(error.code(), error.message().as_str()),
                ).put("id", id),
            ),
        ),
    }
}

/// Does what an admin request asks for, and replies under the id of the request. `started` holds
/// the settings that the balancer was started with.
pub fn forward_body(
    tx: &Json,
    rpc_list: &mut Vec<Rpc>,
    poverty_list: &mut Vec<Rpc>,
    config: &mut Settings,
    started: &Settings,
) -> (step: AdminStep)
    requires
        requested_method(tx@) == Some(RpseeRpcMethod::Ttl) ==> old(config).ttl <= u64::MAX,
        requested_method(tx@) == Some(RpseeRpcMethod::Config) ==> started.ttl <= u64::MAX,
    ensures
        ({
            let before = AdminState {
                rpcs: rpcs_view(old(rpc_list)@),
                poverty: rpcs_view(old(poverty_list)@),
                config: *old(config),
            };
            let after = AdminState {
                rpcs: rpcs_view(final(rpc_list)@),
                poverty: rpcs_view(final(poverty_list)@),
                config: *final(config),
            };
            let id = tx@.member("id"@);
            if well_formed(tx@) {
                exists|outcome: Result<AdminOutcome, AdminError>| #[trigger]
                    concludes(step, id, outcome) && executes(
                        tx@,
                        *started,
                        before,
                        after,
                        outcome,
                    )
            } else {
                &&& after == before
                &&& step matches AdminStep::Reply(http) && http@ == admin_reply(
                    admin_error_view(id, -32600, "Invalid Request"@),
                )
            }
        }),
{
    let id = tx.member("id");
    let version = match tx.get("jsonrpc") {
        Some(version) => version.is("2.0"),
        None => false,
    };
    let method = match tx.get("method") {
        Some(method) => method.as_str().is_some(),
        None => false,
    };
    if !tx.is_object() || !version || !method {
        return AdminStep::Reply(
            http(
                &Json::object().put("jsonrpc", Json::text("2.0")).put(
                    "error",
                    error_object(-32600, "Invalid Request"),
                ).put("id", id),
            ),
        );
    }
    let outcome = execute_method(tx, rpc_list, poverty_list, config, started);
    conclude(outcome, id)
}

/// The reply to the request `id` once the cache has been flushed, `elapsed` being how long it
/// took, in words.
pub fn flushed(id: Json, elapsed: &str) -> (reply: HttpReply)
    ensures
        reply@ == admin_reply(
            result_reply(JsonView::Text("Cache flushed in "@ + elapsed@)).with("id"@, id@),
        ),
{
    http(&admin_flush_cache(elapsed).put("id", id))
}

/// Every reply to a request goes to the request's own id.
pub proof fn law_admin_replies_keep_id(
    request: JsonView,
    started: Settings,
    before: AdminState,
    after: AdminState,
    outcome: Result<AdminOutcome, AdminError>,
    step: AdminStep,
)
    requires
        executes(request, started, before, after, outcome),
        concludes(step, request.member("id"@), outcome),
        step is Reply,
    ensures
        exists|value: JsonView|
            step->Reply_0@ == #[trigger] admin_reply(value) && value.member("id"@)
                == request.member("id"@),
{
    let id = request.member("id"@);
    match outcome {
        Ok(AdminOutcome::Reply(reply)) => {
            assert(reply@ is Object);
            let value = reply@.with("id"@, id);
            assert(step->Reply_0@ == admin_reply(value));
        },
        Err(error) => {
            let value = admin_error_view(id, error.number(), error.text());
            assert(step->Reply_0@ == admin_reply(value));
        },
        _ => {},
    }
}

/// Two paths are for the state of the nodes, and every other one is for requests.
pub proof fn law_paths_have_their_purpose(path: &str, kind: AdminPath)
    requires
        call_ensures(admin_path, (path,), kind),
    ensures
        kind == AdminPath::Ready <==> path@ == "/ready"@,
        kind == AdminPath::Health <==> path@ == "/health"@,
        kind == AdminPath::Request <==> path@ != "/ready"@ && path@ != "/health"@,
{
    reveal_strlit("/ready");
    reveal_strlit("/health");
    assert("/ready"@.len() == 6 && "/health"@.len() == 7);
}

/// The token is the text of the member `token` with the quotes at its ends left out.
pub proof fn law_token_is_unquoted(
    request: &Json,
    token: String,
    value: &Json,
    text: String,
    whole: &str,
    trimmed: String,
)
    requires
        call_ensures(token_text, (request,), token),
        value@ == request@.member("token"@),
        call_ensures(Json::to_text, (value,), text),
        whole@ == text@,
        call_ensures(trim, (whole, '"'), trimmed),
    ensures
        token@ == trimmed@,
{
}

/// The claims of a token make a request where all five are there and the time is a number that
/// fits: one with the id, the method and the parameters that they hold, and with nothing else but
/// the version. They are members of an object, or the five elements of an array in order.
pub proof fn law_claims_make_the_request(claims: &Json, request: Option<Json>, key: Seq<char>)
    requires
        call_ensures(request_of_claims, (claims,), request),
    ensures
        ({
            let listed = claims@ is Array && claims@->Array_0.len() == 5;
            let named = claims@ is Object && claims@.has("id"@) && claims@.has("jsonrpc"@)
                && claims@.has("method"@) && claims@.has("params"@) && claims@.has("exp"@);
            let id = if listed {
                claims@->Array_0[0]
            } else {
                claims@.member("id"@)
            };
            let method = if listed {
                claims@->Array_0[2]
            } else {
                claims@.member("method"@)
            };
            let params = if listed {
                claims@->Array_0[3]
            } else {
                claims@.member("params"@)
            };
            let exp = if listed {
                claims@->Array_0[4]
            } else {
                claims@.member("exp"@)
            };
            &&& request is Some <==> (listed || named) && (exp matches JsonView::Number(
                Numeric::Unsigned(time),
            ) && time <= usize::MAX)
            &&& request is Some ==> {
                &&& request->0@.member("id"@) == id
                &&& request->0@.member("method"@) == method
                &&& request->0@.member("params"@) == params
                &&& request->0@.member("jsonrpc"@) == JsonView::Text("2.0"@)
                &&& (request->0@.has(key) <==> key == "id"@ || key == "method"@ || key == "params"@
                    || key == "jsonrpc"@)
            }
        }),
{
    reveal_strlit("method");
    reveal_strlit("params");
    reveal_strlit("id");
    reveal_strlit("jsonrpc");
    assert("method"@.len() == 6 && "params"@.len() == 6 && "id"@.len() == 2 && "jsonrpc"@.len()
        == 7);
    assert("method"@[0] == 'm' && "params"@[0] == 'p');
}

/// A token is accepted exactly where it has claims that make a request and repeats none of them:
/// the request is then the one that they make. Any other is refused with 401.
pub proof fn law_only_good_tokens_are_accepted(
    token: &str,
    claims: Option<Json>,
    value: &Json,
    request: Option<Json>,
    repeats: bool,
    access: AdminAccess,
)
    requires
        claims is Some ==> *value == claims->0,
        call_ensures(request_of_claims, (value,), request),
        call_ensures(has_repeated_claim, (token,), repeats),
        call_ensures(authorize, (token, claims), access),
    ensures
        access is Accept <==> claims is Some && request is Some && !repeats,
        access matches AdminAccess::Accept(accepted) ==> accepted@ == request->0@,
        access matches AdminAccess::Refuse(reply) ==> reply.status == 401 && reply.body@
            == "Unauthorized or invalid token"@,
{
}

/// Without tokens a request is what the body says. With tokens it is one only through a token that
/// is signed with the secret of the settings, never through the body itself. A body that is no JSON
/// is refused either way.
pub proof fn law_admin_requests_need_a_signed_token(
    body: Vec<u8>,
    config: &Settings,
    access: AdminAccess,
    parsed: Option<Json>,
    token: String,
    claims: &Json,
    request: Option<Json>,
)
    requires
        call_ensures(incoming_to_value, (body,), parsed),
        parsed is Some ==> call_ensures(token_text, (&parsed->0,), token),
        token_claims(token@, config.admin.key@) is Some ==> claims@ == token_claims(
            token@,
            config.admin.key@,
        )->0,
        call_ensures(request_of_claims, (claims,), request),
        call_ensures(accept_admin_request, (body, config), access),
    ensures
        parsed is None ==> (access matches AdminAccess::Refuse(reply) && reply.status == 401
            && reply.body@ == "Invalid admin request format"@),
        parsed is Some && !config.admin.jwt ==> (access matches AdminAccess::Accept(accepted)
            && accepted@ == parsed->0@),
        parsed is Some && config.admin.jwt && access is Accept ==> {
            &&& token_claims(token@, config.admin.key@) is Some
            &&& request is Some
            &&& access->Accept_0@ == request->0@
            &&& !repeats_claim(token@)
        },
        parsed is Some && config.admin.jwt && access is Refuse ==> access->Refuse_0.status == 401
            && access->Refuse_0.body@ == "Unauthorized or invalid token"@,
{
}

/// What an outcome comes to: a reply goes out with status 200 as JSON, as it is but for its id,
/// which is that of the request; an error goes out in the same way, with its code and message.
/// Flushing and quitting are done first.
pub proof fn law_outcomes_are_replied_to(
    outcome: Result<AdminOutcome, AdminError>,
    id: Json,
    step: AdminStep,
)
    requires
        call_ensures(conclude, (outcome, id), step),
    ensures
        outcome matches Ok(AdminOutcome::Reply(reply)) ==> (step matches AdminStep::Reply(http)
            && http.status == 200 && http.body@ == value_text(reply@.with("id"@, id@))
            && http@.headers == seq![("content-type"@, "application/json"@)]),
        outcome matches Ok(AdminOutcome::Flush) ==> (step matches AdminStep::Flush(to) && to@
            == id@),
        outcome matches Ok(AdminOutcome::Quit) ==> step is Quit,
        outcome matches Err(error) ==> (step matches AdminStep::Reply(http) && http.status == 200
            && http.body@ == value_text(admin_error_view(id@, error.number(), error.text()))
            && http@.headers == seq![("content-type"@, "application/json"@)]),
{
}

/// An error reply of the admin interface has the version, the id, and the code and the message of
/// the error, and nothing else.
pub proof fn law_admin_errors_say_what_is_wrong(id: JsonView, code: int, message: Seq<char>)
    ensures
        ({
            let reply = admin_error_view(id, code, message);
            &&& reply.member("jsonrpc"@) == JsonView::Text("2.0"@)
            &&& reply.member("id"@) == id
            &&& reply.member("error"@).member("code"@) == integer(code)
            &&& reply.member("error"@).member("message"@) == JsonView::Text(message)
            &&& forall|key: Seq<char>| #[trigger]
                reply.has(key) <==> key == "jsonrpc"@ || key == "id"@ || key == "error"@
        }),
{
    law_errors_say_what_is_wrong(id, code, message);
    reveal_strlit("jsonrpc");
    reveal_strlit("id");
    reveal_strlit("error");
    assert("jsonrpc"@.len() == 7 && "id"@.len() == 2 && "error"@.len() == 5);
}

/// A request that is none is answered with an error under its id, and changes nothing; any other is
/// executed, and what comes of it is replied to under its id.
pub proof fn law_admin_requests_are_executed(
    tx: &Json,
    rpcs: &mut Vec<Rpc>,
    poverty: &mut Vec<Rpc>,
    config: &mut Settings,
    started: &Settings,
    step: AdminStep,
)
    requires
        call_ensures(forward_body, (tx, rpcs, poverty, config, started), step),
    ensures
        ({
            let good = tx@ is Object && tx@.member("jsonrpc"@) == JsonView::Text("2.0"@)
                && tx@.member("method"@) is Text;
            &&& !good ==> {
                &&& rpcs_view(final(rpcs)@) == rpcs_view(old(rpcs)@)
                &&& rpcs_view(final(poverty)@) == rpcs_view(old(poverty)@)
                &&& *final(config) == *old(config)
                &&& step matches AdminStep::Reply(http) && http.status == 200 && http.body@
                    == value_text(
                    admin_error_view(tx@.member("id"@), -32600, "Invalid Request"@),
                )
            }
            &&& good ==> exists|outcome: Result<AdminOutcome, AdminError>| #[trigger]
                concludes(step, tx@.member("id"@), outcome) && executes(
                    tx@,
                    *started,
                    AdminState {
                        rpcs: rpcs_view(old(rpcs)@),
                        poverty: rpcs_view(old(poverty)@),
                        config: *old(config),
                    },
                    AdminState {
                        rpcs: rpcs_view(final(rpcs)@),
                        poverty: rpcs_view(final(poverty)@),
                        config: *final(config),
                    },
                    outcome,
                )
        }),
{
}

/// Once the cache is flushed, the reply says how long it took, under the id of the request.
pub proof fn law_flushing_is_replied_to(id: Json, elapsed: &str, reply: HttpReply)
    requires
        call_ensures(flushed, (id, elapsed), reply),
    ensures
        reply.status == 200,
        reply.body@ == value_text(
            result_reply(JsonView::Text("Cache flushed in "@ + elapsed@)).with("id"@, id@),
        ),
{
}

} // verus!
