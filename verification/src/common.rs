//! Protocol types shared by server and client: close events, the
//! authentication sub-protocol, routing keys, and socket states.

pub mod auth;
pub mod close_events;
pub mod routing_key;
pub mod skip_further_hooks_error;
pub mod ws_types;

pub use auth::{
    read_var_string, read_var_uint, write_authenticated, write_authentication,
    write_permission_denied, write_token_sync_request, AuthMessageType, ByteCursor,
};
pub use close_events::{
    connection_timeout, forbidden, message_too_big, reset_connection, unauthorized, CloseEvent,
};
pub use routing_key::{make_routing_key, parse_routing_key};
pub use skip_further_hooks_error::SkipFurtherHooksError;
pub use ws_types::WsReadyState;
