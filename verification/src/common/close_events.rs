//! Close events sent to a client when the server ends a connection.

use vstd::prelude::*;

verus! {

/// A WebSocket close code with its reason.
#[derive(Debug, Clone, PartialEq, Eq)]
pub struct CloseEvent {
    pub code: u16,
    pub reason: String,
}

impl CloseEvent {
    /// A close event with the given code. The reason text is not kept: the
    /// event carries an empty reason.
    pub fn new(code: u16, _reason: &'static str) -> (e: Self)
        ensures
            e.code == code,
            e.reason@ == Seq::<char>::empty(),
    {
        Self { code, reason: String::new() }
    }
}

/// A close event whose reason is `reason`.
pub(crate) fn coded_close_event(code: u16, reason: &str) -> (e: CloseEvent)
    ensures
        e.code == code,
        e.reason@ == reason@,
{
    let text = reason.to_string();
    proof {
        vstd::string::to_string_from_display_ensures_for_str(reason, text);
    }
    CloseEvent { code, reason: text }
}

/// 1009: the message was too big.
pub fn message_too_big() -> (e: CloseEvent)
    ensures
        e.code == 1009,
        e.reason@ == "Message Too Big"@,
{
    coded_close_event(1009, "Message Too Big")
}

/// 4205: the connection is reset.
pub fn reset_connection() -> (e: CloseEvent)
    ensures
        e.code == 4205,
        e.reason@ == "Reset Connection"@,
{
    coded_close_event(4205, "Reset Connection")
}

/// 4401: the client is not authenticated.
pub fn unauthorized() -> (e: CloseEvent)
    ensures
        e.code == 4401,
        e.reason@ == "Unauthorized"@,
{
    coded_close_event(4401, "Unauthorized")
}

/// 4403: the client may not access the document.
pub fn forbidden() -> (e: CloseEvent)
    ensures
        e.code == 4403,
        e.reason@ == "Forbidden"@,
{
    coded_close_event(4403, "Forbidden")
}

/// 4408: the client sent nothing for too long.
pub fn connection_timeout() -> (e: CloseEvent)
    ensures
        e.code == 4408,
        e.reason@ == "Connection Timeout"@,
{
    coded_close_event(4408, "Connection Timeout")
}

} // verus!
