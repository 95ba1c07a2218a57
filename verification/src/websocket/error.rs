//! What goes wrong with WebSockets.

use vstd::prelude::*;

verus! {

pub enum WsError {
    ChannelClosed(),
    ReceiverLagged(),
    NoWsResponse,
    FailedParsing(),
    MissingSubscription(),
    InvalidData(String),
    EmptyList(String),
    MessageSendFailed(String),
    MessageReceptionFailed(String),
}

impl WsError {
    pub open spec fn text(self) -> Seq<char> {
        match self {
            WsError::ChannelClosed() => "WebSocket channel closed"@,
            WsError::ReceiverLagged() => "WebSocket receiver lagged behind"@,
            WsError::NoWsResponse => "No response over WebSocket"@,
            WsError::FailedParsing() => "Failed to parse WebSocket message"@,
            WsError::MissingSubscription() => "Missing subscription"@,
            WsError::InvalidData(detail) => "Invalid data: "@ + detail@,
            WsError::EmptyList(detail) => "Empty list: "@ + detail@,
            WsError::MessageSendFailed(detail) => "Sending failed: "@ + detail@,
            WsError::MessageReceptionFailed(detail) => "Reception failed: "@ + detail@,
        }
    }

    /// What went wrong, in words.
    pub fn message(&self) -> (text: String)
        ensures
            text@ == self.text(),
    {
        match self {
            WsError::ChannelClosed() => "WebSocket channel closed".to_owned(),
            WsError::ReceiverLagged() => "WebSocket receiver lagged behind".to_owned(),
            WsError::NoWsResponse => "No response over WebSocket".to_owned(),
            WsError::FailedParsing() => "Failed to parse WebSocket message".to_owned(),
            WsError::MissingSubscription() => "Missing subscription".to_owned(),
            WsError::InvalidData(detail) => "Invalid data: ".to_owned().concat(detail.as_str()),
            WsError::EmptyList(detail) => "Empty list: ".to_owned().concat(detail.as_str()),
            WsError::MessageSendFailed(detail) => "Sending failed: ".to_owned().concat(
                detail.as_str(),
            ),
            WsError::MessageReceptionFailed(detail) => "Reception failed: ".to_owned().concat(
                detail.as_str(),
            ),
        }
    }
}

/// Each error says what went wrong, and those with a detail say it at the end.
pub proof fn law_errors_say_what_went_wrong(error: &WsError, text: String)
    requires
        call_ensures(WsError::message, (error,), text),
    ensures
        *error is ChannelClosed ==> text@ == "WebSocket channel closed"@,
        *error is ReceiverLagged ==> text@ == "WebSocket receiver lagged behind"@,
        *error is NoWsResponse ==> text@ == "No response over WebSocket"@,
        *error is FailedParsing ==> text@ == "Failed to parse WebSocket message"@,
        *error is MissingSubscription ==> text@ == "Missing subscription"@,
        *error matches WsError::InvalidData(detail) ==> text@ == "Invalid data: "@ + detail@,
        *error matches WsError::EmptyList(detail) ==> text@ == "Empty list: "@ + detail@,
        *error matches WsError::MessageSendFailed(detail) ==> text@ == "Sending failed: "@
            + detail@,
        *error matches WsError::MessageReceptionFailed(detail) ==> text@ == "Reception failed: "@
            + detail@,
{
}

} // verus!
