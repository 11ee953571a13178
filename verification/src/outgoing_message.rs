//! Building outgoing messages: the address, the message type, then the payload.

use vstd::prelude::*;
use vstd::string::StringExecFns;

use crate::common::auth;
use crate::encoding::{
    var_array_bytes, var_string_bytes, var_uint_bytes, write_var_string, write_var_uint,
    write_var_uint8_array,
};
use crate::message_type::MessageType;

verus! {

/// The Yjs sync-protocol step that asks for what the peer is missing.
pub open spec fn yjs_sync_step1() -> nat {
    0
}

/// The Yjs sync-protocol step that answers a step 1.
pub open spec fn yjs_sync_step2() -> nat {
    1
}

/// A Yjs update.
pub open spec fn yjs_update() -> nat {
    2
}

/// Whether `c` is `Some` text equal to `s`.
pub open spec fn category_is(c: Option<String>, s: Seq<char>) -> bool {
    c matches Some(text) && text@ == s
}

/// The scope an authenticated client is granted.
pub open spec fn scope_for(read_only: bool) -> Seq<char> {
    if read_only {
        "readonly"@
    } else {
        "read-write"@
    }
}

/// A message under construction, addressed to a document.
pub struct OutgoingMessage {
    encoder: Vec<u8>,
    pub message_type: Option<MessageType>,
    pub category: Option<String>,
}

/// Some(text) with `text@ == s@`.
fn category(s: &str) -> (c: Option<String>)
    ensures
        category_is(c, s@),
{
    Some(String::from_str(s))
}

impl OutgoingMessage {
    /// The bytes written so far.
    pub closed spec fn bytes(&self) -> Seq<u8> {
        self.encoder@
    }

    /// The message type recorded on the message.
    pub closed spec fn message_type_view(&self) -> Option<MessageType> {
        self.message_type
    }

    /// The category recorded on the message.
    pub closed spec fn category_view(&self) -> Option<String> {
        self.category
    }

    /// A message addressed to `document_name` (a document name or a routing key).
    pub fn new(document_name: &str) -> (m: Self)
        ensures
            m.bytes() == var_string_bytes(document_name@),
            m.message_type_view() is None,
            m.category_view() is None,
    {
        let mut encoder = Vec::new();
        write_var_string(&mut encoder, document_name);
        Self { encoder, message_type: None, category: None }
    }

    /// Makes the message a sync message.
    pub fn create_sync_message(self) -> (m: Self)
        ensures
            m.bytes() == self.bytes() + var_uint_bytes(MessageType::Sync.wire() as nat),
            m.message_type_view() == Some(MessageType::Sync),
            m.category_view() == self.category_view(),
    {
        let mut m = self;
        m.message_type = Some(MessageType::Sync);
        write_var_uint(&mut m.encoder, MessageType::Sync.wire_code());
        m
    }

    /// Makes the message a sync reply.
    pub fn create_sync_reply_message(self) -> (m: Self)
        ensures
            m.bytes() == self.bytes() + var_uint_bytes(MessageType::SyncReply.wire() as nat),
            m.message_type_view() == Some(MessageType::SyncReply),
            m.category_view() == self.category_view(),
    {
        let mut m = self;
        m.message_type = Some(MessageType::SyncReply);
        write_var_uint(&mut m.encoder, MessageType::SyncReply.wire_code());
        m
    }

    /// Makes the message an awareness update carrying `update_data`.
    pub fn create_awareness_update_message(self, update_data: &[u8]) -> (m: Self)
        ensures
            m.bytes() == self.bytes() + var_uint_bytes(MessageType::Awareness.wire() as nat)
                + var_array_bytes(update_data@),
            m.message_type_view() == Some(MessageType::Awareness),
            category_is(m.category_view(), "Update"@),
    {
        let mut m = self;
        m.message_type = Some(MessageType::Awareness);
        m.category = category("Update");
        write_var_uint(&mut m.encoder, MessageType::Awareness.wire_code());
        write_var_uint8_array(&mut m.encoder, update_data);
        m
    }

    /// Makes the message a request for the peer's awareness states.
    pub fn write_query_awareness(self) -> (m: Self)
        ensures
            m.bytes() == self.bytes() + var_uint_bytes(MessageType::QueryAwareness.wire() as nat),
            m.message_type_view() == Some(MessageType::QueryAwareness),
            category_is(m.category_view(), "Update"@),
    {
        let mut m = self;
        m.message_type = Some(MessageType::QueryAwareness);
        m.category = category("Update");
        write_var_uint(&mut m.encoder, MessageType::QueryAwareness.wire_code());
        m
    }

    /// Makes the message a request for a fresh token.
    pub fn write_token_sync_request(self) -> (m: Self)
        ensures
            m.bytes() == self.bytes() + var_uint_bytes(MessageType::Auth.wire() as nat)
                + var_uint_bytes(0),
            m.message_type_view() == Some(MessageType::Auth),
            category_is(m.category_view(), "TokenSync"@),
    {
        let mut m = self;
        m.message_type = Some(MessageType::Auth);
        m.category = category("TokenSync");
        write_var_uint(&mut m.encoder, MessageType::Auth.wire_code());
        auth::write_token_sync_request(&mut m.encoder);
        m
    }

    /// Makes the message the grant of access: scope "readonly" or "read-write".
    pub fn write_authenticated(self, read_only: bool) -> (m: Self)
        ensures
            m.bytes() == self.bytes() + var_uint_bytes(MessageType::Auth.wire() as nat)
                + var_uint_bytes(2) + var_string_bytes(scope_for(read_only)),
            m.message_type_view() == Some(MessageType::Auth),
            category_is(m.category_view(), "Authenticated"@),
    {
        let mut m = self;
        m.message_type = Some(MessageType::Auth);
        m.category = category("Authenticated");
        write_var_uint(&mut m.encoder, MessageType::Auth.wire_code());
        let scope = if read_only {
            "readonly"
        } else {
            "read-write"
        };
        auth::write_authenticated(&mut m.encoder, scope);
        m
    }

    /// Makes the message a denial of access for `reason`.
    pub fn write_permission_denied(self, reason: &str) -> (m: Self)
        ensures
            m.bytes() == self.bytes() + var_uint_bytes(MessageType::Auth.wire() as nat)
                + var_uint_bytes(1) + var_string_bytes(reason@),
            m.message_type_view() == Some(MessageType::Auth),
            category_is(m.category_view(), "PermissionDenied"@),
    {
        let mut m = self;
        m.message_type = Some(MessageType::Auth);
        m.category = category("PermissionDenied");
        write_var_uint(&mut m.encoder, MessageType::Auth.wire_code());
        auth::write_permission_denied(&mut m.encoder, reason);
        m
    }

    /// Appends a sync step 1 carrying `state_vector`.
    pub fn write_first_sync_step_for(self, state_vector: &[u8]) -> (m: Self)
        ensures
            m.bytes() == self.bytes() + var_uint_bytes(yjs_sync_step1()) + var_array_bytes(
                state_vector@,
            ),
            m.message_type_view() == self.message_type_view(),
            category_is(m.category_view(), "SyncStep1"@),
    {
        let mut m = self;
        m.category = category("SyncStep1");
        write_var_uint(&mut m.encoder, 0);
        write_var_uint8_array(&mut m.encoder, state_vector);
        m
    }

    /// Appends a sync step 2 carrying `update`.
    pub fn write_sync_step2(self, update: &[u8]) -> (m: Self)
        ensures
            m.bytes() == self.bytes() + var_uint_bytes(yjs_sync_step2()) + var_array_bytes(
                update@,
            ),
            m.message_type_view() == self.message_type_view(),
            category_is(m.category_view(), "SyncStep2"@),
    {
        let mut m = self;
        m.category = category("SyncStep2");
        write_var_uint(&mut m.encoder, 1);
        write_var_uint8_array(&mut m.encoder, update);
        m
    }

    /// Appends a Yjs update.
    pub fn write_update(self, update: &[u8]) -> (m: Self)
        ensures
            m.bytes() == self.bytes() + var_uint_bytes(yjs_update()) + var_array_bytes(update@),
            m.message_type_view() == self.message_type_view(),
            category_is(m.category_view(), "Update"@),
    {
        let mut m = self;
        m.category = category("Update");
        write_var_uint(&mut m.encoder, 2);
        write_var_uint8_array(&mut m.encoder, update);
        m
    }

    /// Makes the message a stateless message carrying `payload`.
    pub fn write_stateless(self, payload: &str) -> (m: Self)
        ensures
            m.bytes() == self.bytes() + var_uint_bytes(MessageType::Stateless.wire() as nat)
                + var_string_bytes(payload@),
            m.message_type_view() == self.message_type_view(),
            category_is(m.category_view(), "Stateless"@),
    {
        let mut m = self;
        m.category = category("Stateless");
        write_var_uint(&mut m.encoder, MessageType::Stateless.wire_code());
        write_var_string(&mut m.encoder, payload);
        m
    }

    /// Makes the message a broadcast stateless message carrying `payload`.
    pub fn write_broadcast_stateless(self, payload: &str) -> (m: Self)
        ensures
            m.bytes() == self.bytes() + var_uint_bytes(
                MessageType::BroadcastStateless.wire() as nat,
            ) + var_string_bytes(payload@),
            m.message_type_view() == self.message_type_view(),
            category_is(m.category_view(), "Stateless"@),
    {
        let mut m = self;
        m.category = category("Stateless");
        write_var_uint(&mut m.encoder, MessageType::BroadcastStateless.wire_code());
        write_var_string(&mut m.encoder, payload);
        m
    }

    /// Makes the message a sync status: 1 when the update was saved, else 0.
    pub fn write_sync_status(self, update_saved: bool) -> (m: Self)
        ensures
            m.bytes() == self.bytes() + var_uint_bytes(MessageType::SyncStatus.wire() as nat)
                + var_uint_bytes(if update_saved { 1 } else { 0 }),
            m.message_type_view() == self.message_type_view(),
            category_is(m.category_view(), "SyncStatus"@),
    {
        let mut m = self;
        m.category = category("SyncStatus");
        write_var_uint(&mut m.encoder, MessageType::SyncStatus.wire_code());
        write_var_uint(
            &mut m.encoder,
            if update_saved {
                1
            } else {
                0
            },
        );
        m
    }

    /// Makes the message a close message carrying `reason`.
    pub fn write_close_message(self, reason: &str) -> (m: Self)
        ensures
            m.bytes() == self.bytes() + var_uint_bytes(MessageType::Close.wire() as nat)
                + var_string_bytes(reason@),
            m.message_type_view() == Some(MessageType::Close),
            m.category_view() == self.category_view(),
    {
        let mut m = self;
        m.message_type = Some(MessageType::Close);
        write_var_uint(&mut m.encoder, MessageType::Close.wire_code());
        write_var_string(&mut m.encoder, reason);
        m
    }

    /// Makes the message the start of the fragment series `unique_id`.
    pub fn write_fragment_start(self, unique_id: &str) -> (m: Self)
        ensures
            m.bytes() == self.bytes() + var_uint_bytes(MessageType::FragmentStart.wire() as nat)
                + var_string_bytes(unique_id@),
            m.message_type_view() == Some(MessageType::FragmentStart),
            m.category_view() == self.category_view(),
    {
        let mut m = self;
        m.message_type = Some(MessageType::FragmentStart);
        write_var_uint(&mut m.encoder, MessageType::FragmentStart.wire_code());
        write_var_string(&mut m.encoder, unique_id);
        m
    }

    /// Makes the message chunk `index` of the fragment series `unique_id`.
    pub fn write_fragment_data(self, unique_id: &str, index: usize, chunk: &[u8]) -> (m: Self)
        ensures
            m.bytes() == self.bytes() + var_uint_bytes(MessageType::FragmentData.wire() as nat)
                + var_string_bytes(unique_id@) + var_uint_bytes(index as nat) + var_array_bytes(
                chunk@,
            ),
            m.message_type_view() == Some(MessageType::FragmentData),
            m.category_view() == self.category_view(),
    {
        let mut m = self;
        m.message_type = Some(MessageType::FragmentData);
        write_var_uint(&mut m.encoder, MessageType::FragmentData.wire_code());
        write_var_string(&mut m.encoder, unique_id);
        write_var_uint(&mut m.encoder, index as u64);
        write_var_uint8_array(&mut m.encoder, chunk);
        m
    }

    /// Makes the message the end of the fragment series `unique_id`.
    pub fn write_fragment_end(self, unique_id: &str) -> (m: Self)
        ensures
            m.bytes() == self.bytes() + var_uint_bytes(MessageType::FragmentEnd.wire() as nat)
                + var_string_bytes(unique_id@),
            m.message_type_view() == Some(MessageType::FragmentEnd),
            m.category_view() == self.category_view(),
    {
        let mut m = self;
        m.message_type = Some(MessageType::FragmentEnd);
        write_var_uint(&mut m.encoder, MessageType::FragmentEnd.wire_code());
        write_var_string(&mut m.encoder, unique_id);
        m
    }

    /// The bytes of the message.
    pub fn to_vec(self) -> (v: Vec<u8>)
        ensures
            v@ == self.bytes(),
    {
        self.encoder
    }
}

} // verus!
