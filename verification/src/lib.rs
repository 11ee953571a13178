//! A collaborative-editing server speaking the Hocuspocus protocol over Yjs:
//! the wire encoding and its messages, fragmentation of large messages, and
//! the decisions of the server's connections, documents and debouncer.

pub mod awareness_states;
pub mod client_session;
pub mod common;
pub mod connection;
pub mod debounce;
pub mod document;
pub mod encoding;
pub mod fragment;
pub mod hocuspocus;
pub mod incoming_message;
pub mod keyed;
pub mod message_receiver;
pub mod message_type;
pub mod outgoing_message;
pub mod server;
pub mod types;
pub mod update_shape;

pub use awareness_states::{awareness_states_to_array, AwarenessState, ClientAwarenessState};
pub use client_session::{AuthRequest, ClientSession, ClientStep};
pub use connection::{ConnectionAction, SendDecision};
pub use debounce::{DebounceDecision, Debouncer};
pub use document::{Broadcast, ConnectionEntry, ConnectionRegistry};
pub use encoding::{DecodeError, Decoder};
pub use fragment::{ChunkingSink, FragmentAssembler, FragmentBuffer, FragmentOutcome};
pub use hocuspocus::{AfterDisconnect, CreateStep, DocumentRegistry, HookOutcome, HookStep, StoreOutcome};
pub use incoming_message::IncomingMessage;
pub use message_receiver::{Incoming, MessageReceiver, ReceiveError};
pub use message_type::MessageType;
pub use outgoing_message::OutgoingMessage;
pub use server::{SocketEvent, SocketStep};
pub use types::{
    empty_context, get_parameters, is_transaction_origin, should_skip_store_hooks,
    AfterUnloadDocumentPayload, AwarenessUpdate, BeforeBroadcastStatelessPayload,
    ConnectedPayload, ConnectionConfiguration, ConnectionTransactionOrigin, Context,
    ContextValue, HookName, LoadedDocument, LocalTransactionOrigin, OnAuthenticatePayload,
    OnConfigurePayload, OnConnectPayload, OnCreateDocumentPayload, OnDestroyPayload,
    OnListenPayload, OnRequestPayload, OnUpgradePayload, RequestInfo, SinkError,
    TransactionOrigin, WebSocketSink,
};
