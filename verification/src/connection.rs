//! What a document connection does with a message it receives, once the
//! message has been read: the decisions of the connection's message loop.
//! The caller performs them on the Yjs document and the socket.

use vstd::prelude::*;
use yrs::updates::decoder::Decode;

use crate::common::close_events::{coded_close_event, reset_connection, CloseEvent};
use crate::common::routing_key::{parse_routing_key, spec_parse_routing_key};
use crate::common::ws_types::WsReadyState;
use crate::encoding::{
    lemma_var_array_roundtrip, lemma_var_string_roundtrip, lemma_var_uint_roundtrip,
    spec_read_var_string, u64_modulus, var_array_bytes, var_string_bytes, var_uint_bytes, Decoder,
};
use vstd::utf8::encode_utf8;
use crate::message_receiver::{parse_view, spec_parse_incoming, Incoming, ReceiveError, SpecIncoming};
use crate::message_type::MessageType;
use crate::outgoing_message::{yjs_sync_step1, yjs_sync_step2, yjs_update, OutgoingMessage};
use crate::update_shape::{is_readable_update, update_shape_ok};
use crate::document::{broadcast_frame, Broadcast};

verus! {

/// Whether the message `raw` is addressed to the document `document_name`:
/// its address can be read and names that document, with or without a
/// session id.
pub open spec fn spec_addressed_to(raw: Seq<u8>, document_name: Seq<char>) -> bool {
    match spec_read_var_string(raw).0 {
        Ok(address) => spec_parse_routing_key(address).0 == document_name,
        Err(_) => false,
    }
}

/// Whether the message `raw` is for the document `document_name`; messages
/// for other documents, or without a readable address, are dropped.
pub fn is_addressed_to(raw: &[u8], document_name: &str) -> (b: bool)
    ensures
        b == spec_addressed_to(raw@, document_name@),
{
    let mut d = Decoder::new(raw);
    assert(d.rest() =~= raw@);
    match d.read_var_string() {
        Ok(address) => {
            let name = parse_routing_key(address.as_str()).0;
            let a = name.to_string();
            let b = document_name.to_string();
            proof {
                vstd::string::to_string_from_display_ensures_for_str(name, a);
                vstd::string::to_string_from_display_ensures_for_str(document_name, b);
            }
            a == b
        },
        Err(_) => false,
    }
}

/// What a connection does with a message it has read.
pub enum ConnectionAction {
    /// Answer a sync step 1 carrying `state_vector` with the document's
    /// missing updates, and, when `request_first_sync`, ask for the peer's.
    AnswerSyncStep1 { state_vector: Vec<u8>, request_first_sync: bool },
    /// Send this frame back.
    Reply(Vec<u8>),
    /// A read-only connection sent a sync step 2: acknowledge it positively
    /// only if it holds nothing the document lacks.
    CheckReadOnlySync { update: Vec<u8> },
    /// Apply the update to the document, and acknowledge it when `acknowledge`.
    ApplyUpdate { update: Vec<u8>, acknowledge: bool },
    /// Apply the awareness update.
    ApplyAwareness { update: Vec<u8> },
    /// Send all awareness states back through the reply channel of a
    /// message that did not come through a client connection.
    SendAwareness,
    /// Hand the stateless payload to the hooks.
    Stateless { payload: String },
    /// Send the stateless payload to every connection of the document.
    BroadcastStateless { payload: String },
    /// Run the token-sync hooks with the new token.
    TokenSync { token: String },
    /// Close the connection with this event.
    Close(CloseEvent),
    /// Nothing to do.
    Nothing,
}

/// [`ConnectionAction`] with sequences in place of vectors and strings.
pub enum SpecAction {
    AnswerSyncStep1 { state_vector: Seq<u8>, request_first_sync: bool },
    Reply(Seq<u8>),
    CheckReadOnlySync { update: Seq<u8> },
    ApplyUpdate { update: Seq<u8>, acknowledge: bool },
    ApplyAwareness { update: Seq<u8> },
    SendAwareness,
    Stateless { payload: Seq<char> },
    BroadcastStateless { payload: Seq<char> },
    TokenSync { token: Seq<char> },
    Close { code: u16, reason: Seq<char> },
    Nothing,
}

/// The action as a sequence-level value.
pub open spec fn action_view(a: ConnectionAction) -> SpecAction {
    match a {
        ConnectionAction::AnswerSyncStep1 { state_vector, request_first_sync } =>
            SpecAction::AnswerSyncStep1 { state_vector: state_vector@, request_first_sync },
        ConnectionAction::Reply(frame) => SpecAction::Reply(frame@),
        ConnectionAction::CheckReadOnlySync { update } => SpecAction::CheckReadOnlySync {
            update: update@,
        },
        ConnectionAction::ApplyUpdate { update, acknowledge } => SpecAction::ApplyUpdate {
            update: update@,
            acknowledge,
        },
        ConnectionAction::ApplyAwareness { update } => SpecAction::ApplyAwareness {
            update: update@,
        },
        ConnectionAction::SendAwareness => SpecAction::SendAwareness,
        ConnectionAction::Stateless { payload } => SpecAction::Stateless { payload: payload@ },
        ConnectionAction::BroadcastStateless { payload } => SpecAction::BroadcastStateless {
            payload: payload@,
        },
        ConnectionAction::TokenSync { token } => SpecAction::TokenSync { token: token@ },
        ConnectionAction::Close(e) => SpecAction::Close { code: e.code, reason: e.reason@ },
        ConnectionAction::Nothing => SpecAction::Nothing,
    }
}

/// The close event of a failed message: the connection is reset.
pub open spec fn reset_action() -> SpecAction {
    SpecAction::Close { code: 4205, reason: "Reset Connection"@ }
}

/// The frame that acknowledges an update under `address`: saved or not.
pub open spec fn sync_status_frame(address: Seq<char>, saved: bool) -> Seq<u8> {
    var_string_bytes(address) + var_uint_bytes(MessageType::SyncStatus.wire() as nat)
        + var_uint_bytes(
        if saved {
            1
        } else {
            0
        },
    )
}

/// What a connection does with a sync message of step `sync_type` whose byte
/// array read as `payload`. A step 1 is answered. A step 2 or an update is
/// applied and acknowledged, except on a read-only connection, which refuses
/// an update outright and acknowledges a step 2 only when it brings nothing
/// new. A payload that cannot be read, or an unknown step, resets the
/// connection. Without a connection nothing is acknowledged.
pub open spec fn spec_sync_action(
    request_first_sync: bool,
    sync_type: u64,
    payload: Result<Seq<u8>, crate::encoding::DecodeError>,
    read_only: bool,
    has_connection: bool,
    address: Seq<char>,
) -> SpecAction {
    if sync_type == yjs_sync_step1() {
        match payload {
            Ok(sv) => SpecAction::AnswerSyncStep1 { state_vector: sv, request_first_sync },
            Err(_) => reset_action(),
        }
    } else if sync_type == yjs_sync_step2() || sync_type == yjs_update() {
        match payload {
            Err(_) => reset_action(),
            Ok(update) => if read_only {
                if !has_connection {
                    SpecAction::Nothing
                } else if sync_type == yjs_update() {
                    SpecAction::Reply(sync_status_frame(address, false))
                } else {
                    SpecAction::CheckReadOnlySync { update }
                }
            } else {
                SpecAction::ApplyUpdate { update, acknowledge: has_connection }
            },
        }
    } else {
        reset_action()
    }
}

/// What a connection does with a message that read as `parsed` (see
/// [`crate::message_receiver::spec_parse_incoming`]). A message that could
/// not be read resets the connection; a client asking to close is closed with
/// code 1000; a query for awareness is answered only where there is a reply
/// channel, that is without a client connection; an authentication message
/// other than a token, or a message type with no handler, is ignored.
pub open spec fn spec_connection_action(
    parsed: Result<SpecIncoming, ReceiveError>,
    read_only: bool,
    has_connection: bool,
    address: Seq<char>,
) -> SpecAction {
    match parsed {
        Err(_) => reset_action(),
        Ok(i) => match i {
            SpecIncoming::Sync { request_first_sync, sync_type, payload } => spec_sync_action(
                request_first_sync,
                sync_type,
                payload,
                read_only,
                has_connection,
                address,
            ),
            SpecIncoming::Awareness { update } => SpecAction::ApplyAwareness { update },
            SpecIncoming::QueryAwareness => if has_connection {
                SpecAction::Nothing
            } else {
                SpecAction::SendAwareness
            },
            SpecIncoming::Stateless { payload } => SpecAction::Stateless { payload },
            SpecIncoming::BroadcastStateless { payload } => SpecAction::BroadcastStateless {
                payload,
            },
            SpecIncoming::Close => SpecAction::Close { code: 1000, reason: "provider_initiated"@ },
            SpecIncoming::TokenSync { token } => SpecAction::TokenSync { token },
            SpecIncoming::UnexpectedAuth { .. } => SpecAction::Nothing,
            SpecIncoming::Unhandled { .. } => SpecAction::Nothing,
        },
    }
}

/// Decides what to do with the message that read as `parsed` on a
/// connection whose messages go out under `address` (see
/// [`spec_connection_action`]); `has_connection` is false for a message that
/// did not come through a client connection.
pub fn connection_action(
    parsed: Result<Incoming, ReceiveError>,
    read_only: bool,
    has_connection: bool,
    address: &str,
) -> (a: ConnectionAction)
    ensures
        action_view(a) == spec_connection_action(
            parse_view(parsed),
            read_only,
            has_connection,
            address@,
        ),
{
    proof {
        reveal_strlit("provider_initiated");
    }
    match parsed {
        Err(_) => ConnectionAction::Close(reset_connection()),
        Ok(Incoming::Sync { request_first_sync, sync_type, payload }) => {
            if sync_type == 0 {
                match payload {
                    Ok(state_vector) => ConnectionAction::AnswerSyncStep1 {
                        state_vector,
                        request_first_sync,
                    },
                    Err(_) => ConnectionAction::Close(reset_connection()),
                }
            } else if sync_type == 1 || sync_type == 2 {
                match payload {
                    Err(_) => ConnectionAction::Close(reset_connection()),
                    Ok(update) => {
                        if read_only {
                            if !has_connection {
                                ConnectionAction::Nothing
                            } else if sync_type == 2 {
                                let frame = OutgoingMessage::new(address).write_sync_status(
                                    false,
                                ).to_vec();
                                ConnectionAction::Reply(frame)
                            } else {
                                ConnectionAction::CheckReadOnlySync { update }
                            }
                        } else {
                            ConnectionAction::ApplyUpdate { update, acknowledge: has_connection }
                        }
                    },
                }
            } else {
                ConnectionAction::Close(reset_connection())
            }
        },
        Ok(Incoming::Awareness { update }) => ConnectionAction::ApplyAwareness { update },
        Ok(Incoming::QueryAwareness) => if has_connection {
            ConnectionAction::Nothing
        } else {
            ConnectionAction::SendAwareness
        },
        Ok(Incoming::Stateless { payload }) => ConnectionAction::Stateless { payload },
        Ok(Incoming::BroadcastStateless { payload }) => ConnectionAction::BroadcastStateless {
            payload,
        },
        Ok(Incoming::Close) => ConnectionAction::Close(
            coded_close_event(1000, "provider_initiated"),
        ),
        Ok(Incoming::TokenSync { token }) => ConnectionAction::TokenSync { token },
        Ok(Incoming::UnexpectedAuth { .. }) => ConnectionAction::Nothing,
        Ok(Incoming::Unhandled { .. }) => ConnectionAction::Nothing,
    }
}

/// The frames that answer a sync step 1 under `address`: step 2 with `diff`
/// (the updates the peer lacks), then, when `request_first_sync`, a step 1
/// with the document's `state_vector`, as a sync message to a connection or
/// as a sync reply otherwise.
pub open spec fn spec_sync_step1_answer(
    address: Seq<char>,
    diff: Seq<u8>,
    request_first_sync: bool,
    state_vector: Seq<u8>,
    to_connection: bool,
) -> Seq<Seq<u8>> {
    let step2 = var_string_bytes(address) + var_uint_bytes(MessageType::Sync.wire() as nat)
        + var_uint_bytes(yjs_sync_step2()) + var_array_bytes(diff);
    if request_first_sync {
        let kind = if to_connection {
            MessageType::Sync
        } else {
            MessageType::SyncReply
        };
        seq![
            step2,
            var_string_bytes(address) + var_uint_bytes(kind.wire() as nat) + var_uint_bytes(
                yjs_sync_step1(),
            ) + var_array_bytes(state_vector),
        ]
    } else {
        seq![step2]
    }
}

/// Builds the frames that answer a sync step 1 (see [`spec_sync_step1_answer`]).
pub fn sync_step1_answer(
    address: &str,
    diff: &[u8],
    request_first_sync: bool,
    state_vector: &[u8],
    to_connection: bool,
) -> (frames: Vec<Vec<u8>>)
    ensures
        frames@.map_values(|f: Vec<u8>| f@) == spec_sync_step1_answer(
            address@,
            diff@,
            request_first_sync,
            state_vector@,
            to_connection,
        ),
{
    let mut frames: Vec<Vec<u8>> = Vec::new();
    let step2 = OutgoingMessage::new(address).create_sync_message().write_sync_step2(diff).to_vec();
    frames.push(step2);
    if request_first_sync {
        let head = if to_connection {
            OutgoingMessage::new(address).create_sync_message()
        } else {
            OutgoingMessage::new(address).create_sync_reply_message()
        };
        frames.push(head.write_first_sync_step_for(state_vector).to_vec());
    }
    assert(frames@.map_values(|f: Vec<u8>| f@) =~= spec_sync_step1_answer(
        address@,
        diff@,
        request_first_sync,
        state_vector@,
        to_connection,
    ));
    frames
}

/// The clock that a state vector, as `(client, clock)` entries, holds for
/// `client`: that of its first entry for the client, or zero.
pub open spec fn clock_of(sv: Seq<(u64, u32)>, client: u64) -> u32
    decreases sv.len(),
{
    if sv.len() == 0 {
        0
    } else if sv[0].0 == client {
        sv[0].1
    } else {
        clock_of(sv.drop_first(), client)
    }
}

/// Whether the state vector `update_sv` of an update is ahead of the
/// document's `doc_sv` for some client: whether the update holds something the
/// document lacks.
pub open spec fn spec_has_novel_data(update_sv: Seq<(u64, u32)>, doc_sv: Seq<(u64, u32)>) -> bool {
    exists|i: int| 0 <= i < update_sv.len() && update_sv[i].1 > clock_of(doc_sv, update_sv[i].0)
}

/// The clock `doc_sv` holds for `client` (see [`clock_of`]).
pub fn clock_in(doc_sv: &Vec<(u64, u32)>, client: u64) -> (c: u32)
    ensures
        c == clock_of(doc_sv@, client),
{
    let mut i: usize = 0;
    assert(doc_sv@.skip(0) =~= doc_sv@);
    while i < doc_sv.len()
        invariant
            i <= doc_sv@.len(),
            clock_of(doc_sv@, client) == clock_of(doc_sv@.skip(i as int), client),
        decreases doc_sv@.len() - i,
    {
        let ghost rest = doc_sv@.skip(i as int);
        assert(rest.drop_first() =~= doc_sv@.skip(i + 1));
        if doc_sv[i].0 == client {
            return doc_sv[i].1;
        }
        i = i + 1;
    }
    assert(doc_sv@.skip(i as int) =~= Seq::<(u64, u32)>::empty());
    0
}

/// Whether an update whose state vector is `update_sv` brings anything the
/// document, at state vector `doc_sv`, lacks (see [`spec_has_novel_data`]).
pub fn has_novel_data(update_sv: &Vec<(u64, u32)>, doc_sv: &Vec<(u64, u32)>) -> (b: bool)
    ensures
        b == spec_has_novel_data(update_sv@, doc_sv@),
{
    let mut i: usize = 0;
    while i < update_sv.len()
        invariant
            i <= update_sv@.len(),
            forall|j: int|
                0 <= j < i ==> !(#[trigger] update_sv@[j].1 > clock_of(doc_sv@, update_sv@[j].0)),
        decreases update_sv@.len() - i,
    {
        let (client, clock) = update_sv[i];
        if clock > clock_in(doc_sv, client) {
            return true;
        }
        i = i + 1;
    }
    false
}

/// The clocks by client of a state vector listed as `(client, clock)`
/// entries.
pub open spec fn clocks_of(entries: Seq<(u64, u32)>) -> Map<u64, u32> {
    Map::new(
        |c: u64| exists|i: int| 0 <= i < entries.len() && #[trigger] entries[i].0 == c,
        |c: u64| entries[choose|i: int| 0 <= i < entries.len() && #[trigger] entries[i].0 == c].1,
    )
}

/// No client occurs twice among `entries`.
pub open spec fn distinct_clients(entries: Seq<(u64, u32)>) -> bool {
    forall|i: int, j: int|
        0 <= i < j < entries.len() ==> #[trigger] entries[i].0 != #[trigger] entries[j].0
}

/// The state vector of the v1-encoded update `update`, as clocks by client,
/// that `yrs::encode_state_vector_from_update_v1` encodes; `None` when the
/// update cannot be decoded.
pub uninterp spec fn update_clocks(update: Seq<u8>) -> Option<Map<u64, u32>>;

/// The clocks by client that `yrs::StateVector::decode_v1` reads from
/// `bytes`; `None` when they cannot be decoded.
pub uninterp spec fn state_vector_clocks(bytes: Seq<u8>) -> Option<Map<u64, u32>>;

/// Calls `yrs::encode_state_vector_from_update_v1`, on an update whose shape
/// [`update_shape_ok`] has accepted: decoding then keeps a block for every
/// client it lists and no clock runs past the 32-bit range, so that taking
/// the state vector, which reads each client's last block, does not panic.
/// The call fails exactly when the update cannot be decoded, and what it
/// returns decodes to the update's clocks. The order in which the encoding
/// lists clients follows yrs's hash map and is not claimed, nor is anything
/// about the memory decoding reserves.
#[verifier::external_body]
fn encode_update_state_vector(update: &[u8]) -> (r: Option<Vec<u8>>)
    requires
        update_shape_ok(update@),
    ensures
        r is Some <==> update_clocks(update@) is Some,
        r matches Some(bytes) ==> state_vector_clocks(bytes@) == update_clocks(update@),
{
    yrs::encode_state_vector_from_update_v1(update).ok()
}

/// Calls `yrs::StateVector::decode_v1` and lists the decoded entries: each
/// client once, with its clock. The order of the list follows yrs's hash map
/// and is not claimed, nor is anything about the memory a malformed length
/// field makes it reserve.
#[verifier::external_body]
fn decode_state_vector(bytes: &[u8]) -> (r: Option<Vec<(u64, u32)>>)
    ensures
        r is Some <==> state_vector_clocks(bytes@) is Some,
        r matches Some(entries) ==> distinct_clients(entries@) && state_vector_clocks(bytes@)
            == Some(clocks_of(entries@)),
{
    yrs::StateVector::decode_v1(bytes).ok().map(|sv| sv.iter().map(|(c, k)| (*c, *k)).collect())
}

/// Whether a read-only connection's sync step 2 carrying `update` is
/// acknowledged positively, given the document's state vector `doc_sv`:
/// only when the update has a shape that can be read (see
/// [`update_shape_ok`]), decodes, and none of its clocks is ahead of the
/// document's. An update that cannot be read counts as new.
pub open spec fn spec_read_only_ack(update: Seq<u8>, doc_sv: Seq<(u64, u32)>) -> bool {
    update_shape_ok(update) && match update_clocks(update) {
        None => false,
        Some(m) => !(exists|c: u64| #[trigger] m.contains_key(c) && m[c] > clock_of(doc_sv, c)),
    }
}

/// Decides the acknowledgement of a read-only connection's sync step 2 (see
/// [`spec_read_only_ack`]).
pub fn read_only_ack(update: &[u8], doc_sv: &Vec<(u64, u32)>) -> (saved: bool)
    ensures
        saved == spec_read_only_ack(update@, doc_sv@),
{
    if !is_readable_update(update) {
        return false;
    }
    match encode_update_state_vector(update) {
        None => false,
        Some(bytes) => match decode_state_vector(bytes.as_slice()) {
            None => false,
            Some(update_sv) => {
                let novel = has_novel_data(&update_sv, doc_sv);
                proof {
                    let m = clocks_of(update_sv@);
                    let e = update_sv@;
                    assert(update_clocks(update@) == Some(m));
                    if novel {
                        let i = choose|i: int| 0 <= i < e.len() && e[i].1 > clock_of(doc_sv@, e[i].0);
                        let c = e[i].0;
                        assert(m.contains_key(c));
                        let j = choose|j: int| 0 <= j < e.len() && #[trigger] e[j].0 == c;
                        if i < j {
                            assert(e[i].0 != e[j].0);
                        } else if j < i {
                            assert(e[j].0 != e[i].0);
                        }
                        assert(m[c] > clock_of(doc_sv@, c));
                        let m2 = update_clocks(update@)->Some_0;
                        assert(m2 == m);
                        assert(m2.contains_key(c) && m2[c] > clock_of(doc_sv@, c));
                        assert(!spec_read_only_ack(update@, doc_sv@));
                    } else {
                        assert forall|c: u64| #[trigger] m.contains_key(c) implies !(m[c] > clock_of(
                            doc_sv@,
                            c,
                        )) by {
                            let j = choose|j: int| 0 <= j < e.len() && #[trigger] e[j].0 == c;
                            assert(!(e[j].1 > clock_of(doc_sv@, e[j].0)));
                        }
                        assert(spec_read_only_ack(update@, doc_sv@));
                    }
                }
                !novel
            },
        },
    }
}

/// A read-only connection's update is acknowledged as saved exactly when its
/// shape is readable (however many clients it lists), it decodes, and the
/// document already has, for every client, at least the clock the update
/// reaches.
pub proof fn lemma_read_only_ack_when_nothing_new(update: Seq<u8>, doc_sv: Seq<(u64, u32)>)
    ensures
        spec_read_only_ack(update, doc_sv) <==> update_shape_ok(update) && update_clocks(
            update,
        ) is Some && forall|c: u64| #[trigger]
            update_clocks(update)->Some_0.contains_key(c) ==> update_clocks(update)->Some_0[c]
                <= clock_of(doc_sv, c),
{
}

/// A read-only connection never changes the document: whatever it sends, it
/// is never asked to apply an update.
pub proof fn lemma_read_only_never_applies(
    parsed: Result<SpecIncoming, ReceiveError>,
    has_connection: bool,
    address: Seq<char>,
)
    ensures
        !(spec_connection_action(parsed, true, has_connection, address) is ApplyUpdate),
{
}

/// What a document sends to its connections is read back as what was sent:
/// an update frame is read as a sync update carrying the same bytes, and a
/// stateless frame as a stateless message with the same payload, by a
/// connection whose address is that of the frame.
pub proof fn lemma_broadcast_frames_read_back(address: Seq<char>, update: Seq<u8>, payload: Seq<char>)
    requires
        encode_utf8(address).len() < u64_modulus(),
        encode_utf8(payload).len() < u64_modulus(),
        update.len() < u64_modulus(),
    ensures
        spec_parse_incoming(
            var_string_bytes(address) + var_uint_bytes(MessageType::Sync.wire() as nat)
                + var_uint_bytes(yjs_update()) + var_array_bytes(update),
            true,
        ) == Ok::<SpecIncoming, ReceiveError>(
            SpecIncoming::Sync { request_first_sync: true, sync_type: 2, payload: Ok(update) },
        ),
        spec_parse_incoming(
            var_string_bytes(address) + var_uint_bytes(MessageType::Stateless.wire() as nat)
                + var_string_bytes(payload),
            true,
        ) == Ok::<SpecIncoming, ReceiveError>(SpecIncoming::Stateless { payload }),
{
    let a = var_string_bytes(address);
    let t = var_uint_bytes(MessageType::Sync.wire() as nat);
    let st = var_uint_bytes(yjs_update());
    let arr = var_array_bytes(update);
    let frame = a + t + st + arr;
    lemma_var_string_roundtrip(address, t + st + arr);
    assert(frame == a + (t + st + arr));
    let s1 = frame.subrange(a.len() as int, frame.len() as int);
    assert(s1 =~= t + (st + arr));
    lemma_var_uint_roundtrip(MessageType::Sync.wire(), st + arr);
    let body = s1.subrange(t.len() as int, s1.len() as int);
    assert(body =~= st + arr);
    lemma_var_uint_roundtrip(2, arr);
    assert(body.subrange(st.len() as int, body.len() as int) =~= arr + Seq::<u8>::empty());
    lemma_var_array_roundtrip(update, Seq::<u8>::empty());

    let t2 = var_uint_bytes(MessageType::Stateless.wire() as nat);
    let p = var_string_bytes(payload);
    let frame2 = a + t2 + p;
    lemma_var_string_roundtrip(address, t2 + p);
    assert(frame2 == a + (t2 + p));
    let s2 = frame2.subrange(a.len() as int, frame2.len() as int);
    assert(s2 =~= t2 + p);
    lemma_var_uint_roundtrip(MessageType::Stateless.wire(), p);
    assert(s2.subrange(t2.len() as int, s2.len() as int) =~= p + Seq::<u8>::empty());
    lemma_var_string_roundtrip(payload, Seq::<u8>::empty());
}

/// The length limits under which a broadcast can be written: its address,
/// and the bytes or text it carries, each shorter than 2^64 bytes.
pub open spec fn broadcast_writable(address: Seq<char>, b: Broadcast) -> bool {
    &&& encode_utf8(address).len() < u64_modulus()
    &&& match b {
        Broadcast::Update(u) => u@.len() < u64_modulus(),
        Broadcast::Awareness(u) => u@.len() < u64_modulus(),
        Broadcast::Stateless(p) => encode_utf8(p@).len() < u64_modulus(),
    }
}

/// What a document broadcasts reads back, at a connection whose address the
/// frame carries, as what was broadcast: an update as a sync update with the
/// same bytes, an awareness update as an awareness update with the same
/// bytes, a stateless payload as a stateless message with the same payload.
pub proof fn lemma_broadcast_frame_reads_back(address: Seq<char>, b: Broadcast)
    requires
        broadcast_writable(address, b),
    ensures
        spec_parse_incoming(broadcast_frame(address, b), true) == (match b {
            Broadcast::Update(u) => Ok::<SpecIncoming, ReceiveError>(
                SpecIncoming::Sync { request_first_sync: true, sync_type: 2, payload: Ok(u@) },
            ),
            Broadcast::Awareness(u) => Ok::<SpecIncoming, ReceiveError>(
                SpecIncoming::Awareness { update: u@ },
            ),
            Broadcast::Stateless(p) => Ok::<SpecIncoming, ReceiveError>(
                SpecIncoming::Stateless { payload: p@ },
            ),
        }),
{
    match b {
        Broadcast::Update(u) => {
            lemma_broadcast_frames_read_back(address, u@, Seq::<char>::empty());
        },
        Broadcast::Stateless(p) => {
            lemma_broadcast_frames_read_back(address, Seq::<u8>::empty(), p@);
        },
        Broadcast::Awareness(u) => {
            let a = var_string_bytes(address);
            let t = var_uint_bytes(MessageType::Awareness.wire() as nat);
            let arr = var_array_bytes(u@);
            let frame = broadcast_frame(address, b);
            assert(frame == a + t + arr);
            lemma_var_string_roundtrip(address, t + arr);
            assert(frame == a + (t + arr));
            let s1 = frame.subrange(a.len() as int, frame.len() as int);
            assert(s1 =~= t + arr);
            lemma_var_uint_roundtrip(MessageType::Awareness.wire(), arr);
            assert(s1.subrange(t.len() as int, s1.len() as int) =~= arr + Seq::<u8>::empty());
            lemma_var_array_roundtrip(u@, Seq::<u8>::empty());
        },
    }
}

/// Every connection acts on a document's broadcast as on what it carries:
/// it applies an awareness update with the same bytes, read-only or not; it
/// hands a stateless payload on unchanged; it applies an update, or, being
/// read-only, answers that nothing was saved (when it has a client) or does
/// nothing.
pub proof fn lemma_broadcast_acted_on(
    address: Seq<char>,
    b: Broadcast,
    read_only: bool,
    has_connection: bool,
    connection_address: Seq<char>,
)
    requires
        broadcast_writable(address, b),
    ensures
        spec_connection_action(
            spec_parse_incoming(broadcast_frame(address, b), true),
            read_only,
            has_connection,
            connection_address,
        ) == (match b {
            Broadcast::Awareness(u) => SpecAction::ApplyAwareness { update: u@ },
            Broadcast::Stateless(p) => SpecAction::Stateless { payload: p@ },
            Broadcast::Update(u) => if !read_only {
                SpecAction::ApplyUpdate { update: u@, acknowledge: has_connection }
            } else if has_connection {
                SpecAction::Reply(sync_status_frame(connection_address, false))
            } else {
                SpecAction::Nothing
            },
        }),
{
    lemma_broadcast_frame_reads_back(address, b);
}

/// An awareness update that reads from a message is applied, with the same
/// bytes, whatever the connection: read-only or not, with a client or not.
pub proof fn lemma_awareness_applied(
    update: Seq<u8>,
    read_only: bool,
    has_connection: bool,
    address: Seq<char>,
)
    ensures
        spec_connection_action(
            Ok(SpecIncoming::Awareness { update }),
            read_only,
            has_connection,
            address,
        ) == (SpecAction::ApplyAwareness { update }),
{
}

/// The reason sent with the close message: that of the event, or "Server
/// closed the connection" when there is none.
pub fn close_reason(event: &Option<CloseEvent>) -> (r: String)
    ensures
        r@ == match event {
            Some(e) => e.reason@,
            None => "Server closed the connection"@,
        },
{
    match event {
        Some(e) => e.reason.clone(),
        None => {
            let text = "Server closed the connection";
            let r = text.to_string();
            proof {
                vstd::string::to_string_from_display_ensures_for_str(text, r);
            }
            r
        },
    }
}

/// What sending a frame on a connection does.
#[derive(Debug, Clone, Copy, PartialEq, Eq, Structural)]
pub enum SendDecision {
    /// The connection is closed: drop the frame.
    Drop,
    /// The socket is closing or closed: drop the frame and mark the connection closed.
    MarkClosed,
    /// Hand the frame to the socket; mark the connection closed if that fails.
    Send,
}

/// Whether a frame goes out on a connection that is `closed` or not, whose
/// socket is in `state`.
pub fn send_decision(closed: bool, state: WsReadyState) -> (d: SendDecision)
    ensures
        d == if closed {
            SendDecision::Drop
        } else if state == WsReadyState::Closing || state == WsReadyState::Closed {
            SendDecision::MarkClosed
        } else {
            SendDecision::Send
        },
{
    if closed {
        SendDecision::Drop
    } else if state.is_closing_or_closed() {
        SendDecision::MarkClosed
    } else {
        SendDecision::Send
    }
}

} // verus!
