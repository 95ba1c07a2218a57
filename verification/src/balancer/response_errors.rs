//! Replies for what goes wrong, and the shape of an HTTP reply.

use crate::json::{empty_object, integer, Json, JsonView};
use vstd::prelude::*;

verus! {

/// A JSON-RPC error in reply to the request `id`.
pub open spec fn error_reply(id: JsonView, code: int, message: Seq<char>) -> JsonView {
    empty_object().with("jsonrpc"@, JsonView::Text("2.0"@)).with("id"@, id).with(
        "error"@,
        error_body(code, message),
    )
}

/// The code and the message of an error.
pub open spec fn error_body(code: int, message: Seq<char>) -> JsonView {
    empty_object().with("code"@, integer(code)).with("message"@, JsonView::Text(message))
}

/// The code and the message of an error.
pub fn error_object(code: i64, message: &str) -> (error: Json)
    ensures
        error@ == error_body(code as int, message@),
{
    Json::object().put("code", Json::integer(code)).put("message", Json::text(message))
}

/// A JSON-RPC error in reply to the request `id`.
pub fn request_error(id: Json, code: i64, message: &str) -> (error: Json)
    ensures
        error@ == error_reply(id@, code as int, message@),
{
    Json::object().put("jsonrpc", Json::text("2.0")).put("id", id).put(
        "error",
        error_object(code, message),
    )
}

/// An HTTP reply.
pub struct HttpReply {
    pub status: u16,
    pub headers: Vec<(&'static str, &'static str)>,
    pub body: String,
}

/// What an HTTP reply says.
#[verifier::ext_equal]
pub struct HttpReplyView {
    pub status: u16,
    pub headers: Seq<(Seq<char>, Seq<char>)>,
    pub body: Seq<char>,
}

impl HttpReply {
    pub open spec fn view(&self) -> HttpReplyView {
        HttpReplyView {
            status: self.status,
            headers: Seq::new(
                self.headers@.len(),
                |i: int| (self.headers@[i].0@, self.headers@[i].1@),
            ),
            body: self.body@,
        }
    }
}

/// A reply with a status and a body, and no headers of its own.
pub open spec fn bare_reply(status: u16, body: Seq<char>) -> HttpReplyView {
    HttpReplyView { status, headers: Seq::empty(), body }
}

/// A reply with a status and a body, and no headers of its own.
pub fn rpc_response(status: u16, body: &str) -> (reply: HttpReply)
    ensures
        reply@ == bare_reply(status, body@),
{
    let reply = HttpReply { status, headers: Vec::new(), body: body.to_owned() };
    proof {
        assert(reply@ =~= bare_reply(status, body@));
    }
    reply
}

/// An error reply has four parts and no more: the version, the id, and the code and the message of
/// the error. It has no result.
pub proof fn law_errors_say_what_is_wrong(id: JsonView, code: int, message: Seq<char>)
    ensures
        ({
            let reply = error_reply(id, code, message);
            &&& reply is Object
            &&& reply.member("jsonrpc"@) == JsonView::Text("2.0"@)
            &&& reply.has("id"@)
            &&& reply.member("id"@) == id
            &&& reply.member("error"@).member("code"@) == integer(code)
            &&& reply.member("error"@).member("message"@) == JsonView::Text(message)
            &&& !reply.has("result"@)
            &&& forall|key: Seq<char>| #[trigger]
                reply.has(key) <==> key == "jsonrpc"@ || key == "id"@ || key == "error"@
            &&& forall|key: Seq<char>| #[trigger]
                reply.member("error"@).has(key) <==> key == "code"@ || key == "message"@
        }),
{
    reveal_strlit("jsonrpc");
    reveal_strlit("id");
    reveal_strlit("error");
    reveal_strlit("result");
    reveal_strlit("code");
    reveal_strlit("message");
    assert("jsonrpc"@.len() == 7 && "id"@.len() == 2 && "error"@.len() == 5);
    assert("result"@.len() == 6 && "code"@.len() == 4 && "message"@.len() == 7);
}

/// Making an error reply makes this one.
pub proof fn law_error_replies_are_made(
    id: Json,
    code: i64,
    message: &str,
    reply: Json,
    error: Json,
)
    requires
        call_ensures(request_error, (id, code, message), reply),
        call_ensures(error_object, (code, message), error),
    ensures
        reply@.member("id"@) == id@,
        reply@.member("jsonrpc"@) == JsonView::Text("2.0"@),
        reply@.member("error"@) == error@,
        !reply@.has("result"@),
        error@.member("code"@) == integer(code as int),
        error@.member("message"@) == JsonView::Text(message@),
{
    law_errors_say_what_is_wrong(id@, code as int, message@);
}

/// A bare reply has the status and the body that it is made with, and no headers.
pub proof fn law_bare_replies_say_what_they_are_given(status: u16, body: &str, reply: HttpReply)
    requires
        call_ensures(rpc_response, (status, body), reply),
    ensures
        reply.status == status,
        reply.body@ == body@,
        reply.headers@.len() == 0,
{
    assert(reply@.headers.len() == 0);
}

} // verus!
