//! The connection of a user.
//!
//! Frames are read and written outside. What a user sends is queued; the queue is worked off in
//! order, together with the notifications for the user.

use crate::balancer::response_errors::{error_reply, request_error};
use crate::json::{bytes_value, parse_bytes, value_text, Json, JsonView};
use crate::websocket::error::WsError;
use crate::websocket::types::{RequestResult, SubscriptionData, SubscriptionsView};
use vstd::prelude::*;
use vstd::utf8::encode_utf8;

verus! {

/// What comes from a user.
pub enum ClientFrame {
    Text(String),
    Close,
    /// The connection broke, in words.
    Failed(String),
    Other,
}

/// What is done about a frame.
pub enum ReadStep {
    Queue(RequestResult),
    Skip,
    /// The connection ends.
    Finish(Result<(), WsError>),
}

/// What is done about an entry of the queue.
pub enum WriteStep {
    /// Make the call and send what it gives.
    Execute(Json),
    Send(String),
}

/// Whether an entry of the queue is what a text gives: a call, or the answer that it is none.
pub open spec fn queued(entry: RequestResult, parsed: Option<JsonView>) -> bool {
    match parsed {
        Some(call) => entry matches RequestResult::Call(entry) && entry@ == call,
        None => entry matches RequestResult::Subscription(entry) && entry@ == error_reply(
            JsonView::Null,
            -32700,
            "Parse error"@,
        ),
    }
}

/// The entry of the queue for a text, once it is parsed.
pub fn queue_entry(parsed: Option<Json>) -> (entry: RequestResult)
    ensures
        queued(
            entry,
            match parsed {
                Some(call) => Some(call@),
                None => None,
            },
        ),
{
    match parsed {
        Some(call) => RequestResult::Call(call),
        None => RequestResult::Subscription(request_error(Json::Null, -32700, "Parse error")),
    }
}

/// The connection of a user.
pub struct Session {
    pub user_id: u32,
}

/// After a user has gone.
pub open spec fn gone(before: SubscriptionsView, user_id: u32) -> SubscriptionsView {
    SubscriptionsView { users: before.users.remove(user_id), ..before.left(user_id, None) }
}

impl Session {
    /// Starts the connection of a user.
    pub fn serve_websocket(user_id: u32, sub_data: &mut SubscriptionData) -> (session: Session)
        requires
            old(sub_data).wf(),
        ensures
            session.user_id == user_id,
            final(sub_data).wf(),
            final(sub_data)@ == (SubscriptionsView {
                users: old(sub_data)@.users.insert(user_id),
                ..old(sub_data)@
            }),
    {
        sub_data.add_user(user_id);
        Session { user_id }
    }

    /// Takes in a frame from the user.
    pub fn read(&self, frame: ClientFrame) -> (step: ReadStep)
        ensures
            match frame {
                ClientFrame::Text(text) => step matches ReadStep::Queue(entry) && queued(
                    entry,
                    bytes_value(encode_utf8(text@)),
                ),
                ClientFrame::Close => step == ReadStep::Finish(Ok(())),
                ClientFrame::Failed(error) => step == ReadStep::Finish(
                    Err(WsError::MessageReceptionFailed(error)),
                ),
                ClientFrame::Other => step == ReadStep::Skip,
            },
    {
        match frame {
            ClientFrame::Text(text) => ReadStep::Queue(
                queue_entry(parse_bytes(text.as_str().as_bytes_vec())),
            ),
            ClientFrame::Close => ReadStep::Finish(Ok(())),
            ClientFrame::Failed(error) => ReadStep::Finish(
                Err(WsError::MessageReceptionFailed(error)),
            ),
            ClientFrame::Other => ReadStep::Skip,
        }
    }

    /// Takes an entry from the queue.
    pub fn write(&self, entry: RequestResult) -> (step: WriteStep)
        ensures
            match entry {
                RequestResult::Call(call) => step == WriteStep::Execute(call),
                RequestResult::Subscription(message) => step matches WriteStep::Send(text) && text@
                    == value_text(message@),
            },
    {
        match entry {
            RequestResult::Call(call) => WriteStep::Execute(call),
            RequestResult::Subscription(message) => WriteStep::Send(message.to_text()),
        }
    }

    /// Something could not be sent to the user: the user has gone. Only where it was no reply to
    /// a call does this count as an error.
    pub fn send_failed(&self, was_reply: bool, error: String, sub_data: &mut SubscriptionData) -> (
    result: Result<(), WsError>)
        requires
            old(sub_data).wf(),
        ensures
            final(sub_data).wf(),
            final(sub_data)@ == gone(old(sub_data)@, self.user_id),
            result == if was_reply {
                Ok::<(), WsError>(())
            } else {
                Err(WsError::MessageSendFailed(error))
            },
    {
        sub_data.remove_user(self.user_id);
        if was_reply {
            Ok(())
        } else {
            Err(WsError::MessageSendFailed(error))
        }
    }

    /// The connection has ended.
    pub fn finish(&self, sub_data: &mut SubscriptionData)
        requires
            old(sub_data).wf(),
        ensures
            final(sub_data).wf(),
            final(sub_data)@ == gone(old(sub_data)@, self.user_id),
    {
        sub_data.remove_user(self.user_id);
    }
}

/// Whoever has gone is not connected and shares no subscription.
pub proof fn law_gone_users_share_nothing(
    before: SubscriptionsView,
    user_id: u32,
    node: (usize, Seq<char>),
)
    ensures
        !gone(before, user_id).users.contains(user_id),
        gone(before, user_id).subscriptions.contains_key(node) ==> !gone(
            before,
            user_id,
        ).subscriptions[node].users.contains(user_id),
{
}

/// What a user sends is read: a text that is JSON is queued as the call that it says, any other
/// text is queued as the answer that it is none. A closed connection ends well, a broken one with
/// its error; anything else is passed over.
pub proof fn law_frames_are_queued(
    session: &Session,
    frame: ClientFrame,
    step: ReadStep,
    parsed: Option<Json>,
    entry: RequestResult,
)
    requires
        call_ensures(Session::read, (session, frame), step),
        call_ensures(queue_entry, (parsed,), entry),
    ensures
        match frame {
            ClientFrame::Text(text) => {
                let value = bytes_value(encode_utf8(text@));
                &&& value is Some ==> (step matches ReadStep::Queue(RequestResult::Call(call))
                    && call@ == value->0)
                &&& value is None ==> (step matches ReadStep::Queue(
                    RequestResult::Subscription(answer),
                ) && answer@ == error_reply(JsonView::Null, -32700, "Parse error"@))
            },
            ClientFrame::Close => step == ReadStep::Finish(Ok(())),
            ClientFrame::Failed(error) => step == ReadStep::Finish(
                Err(WsError::MessageReceptionFailed(error)),
            ),
            ClientFrame::Other => step is Skip,
        },
        parsed is Some ==> (entry matches RequestResult::Call(call) && call@ == parsed->0@),
        parsed is None ==> (entry matches RequestResult::Subscription(answer) && answer@
            == error_reply(JsonView::Null, -32700, "Parse error"@)),
{
}

/// A queued call is executed as it is, and a queued message is sent as its text.
pub proof fn law_queue_is_worked_off(session: &Session, entry: RequestResult, step: WriteStep)
    requires
        call_ensures(Session::write, (session, entry), step),
    ensures
        entry matches RequestResult::Call(call) ==> step == WriteStep::Execute(call),
        entry matches RequestResult::Subscription(message) ==> (step matches WriteStep::Send(text)
            && text@ == value_text(message@)),
{
}

/// A user is connected from the start of the session, and gone at its end or once something cannot
/// be sent to it: not connected, and out of every subscription. Nobody else is touched by either.
/// That a reply cannot be sent is no error, that a message cannot be sent is one.
pub proof fn law_session_begins_and_ends(
    user_id: u32,
    start: &mut SubscriptionData,
    session: &Session,
    was_reply: bool,
    error: String,
    failed: &mut SubscriptionData,
    result: Result<(), WsError>,
    end: &mut SubscriptionData,
    user: u32,
    node: (usize, Seq<char>),
)
    requires
        call_ensures(Session::serve_websocket, (user_id, start), *session),
        call_ensures(Session::send_failed, (session, was_reply, error, failed), result),
        call_ensures(Session::finish, (session, end), ()),
    ensures
        session.user_id == user_id,
        final(start)@.users.contains(user) <==> user == user_id || old(start)@.users.contains(user),
        final(start)@.subscriptions == old(start)@.subscriptions,
        final(start)@.incoming == old(start)@.incoming,
        final(end)@.users.contains(user) <==> user != user_id && old(end)@.users.contains(user),
        final(end)@.incoming == old(end)@.incoming,
        final(end)@.subscriptions.contains_key(node) <==> old(end)@.subscriptions.contains_key(
            node,
        ),
        old(end)@.subscriptions.contains_key(node) ==> {
            &&& final(end)@.subscriptions[node].client_id == old(end)@.subscriptions[node].client_id
            &&& (final(end)@.subscriptions[node].users.contains(user) <==> user != user_id && old(
                end,
            )@.subscriptions[node].users.contains(user))
        },
        old(failed)@ == old(end)@ ==> final(failed)@ == final(end)@,
        was_reply ==> result is Ok,
        !was_reply ==> result == Err::<(), WsError>(WsError::MessageSendFailed(error)),
{
}

} // verus!
