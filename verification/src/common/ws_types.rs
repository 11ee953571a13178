//! The ready states of a WebSocket.

use vstd::prelude::*;

verus! {

/// The ready state of a WebSocket, in the order of the WebSocket API's codes.
#[derive(Debug, Clone, Copy, PartialEq, Eq, Structural)]
pub enum WsReadyState {
    Connecting,
    Open,
    Closing,
    Closed,
}

impl WsReadyState {
    /// Whether the socket is closing or closed, so that nothing more can be sent.
    pub open spec fn is_shutting_down(self) -> bool {
        self == WsReadyState::Closing || self == WsReadyState::Closed
    }

    /// Whether the socket is closing or closed.
    pub fn is_closing_or_closed(&self) -> (b: bool)
        ensures
            b == self.is_shutting_down(),
    {
        match self {
            WsReadyState::Closing | WsReadyState::Closed => true,
            _ => false,
        }
    }
}

} // verus!
