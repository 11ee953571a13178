//! The state of one client socket: which documents it has a connection for,
//! which it is authenticating, and the messages that wait until a
//! connection is set up. The caller runs the hooks and owns the connections;
//! here it learns what each incoming message asks for.

use vstd::prelude::*;

use crate::common::close_events::{reset_connection, unauthorized, CloseEvent};
use crate::common::routing_key::{
    has_char, lemma_routing_key_roundtrip, parse_routing_key, separator, spec_parse_routing_key,
};
use crate::encoding::{
    lemma_reads_consumed, lemma_rest_advance, lemma_var_string_roundtrip, spec_read_var_string,
    spec_read_var_uint, u64_modulus, Decoder,
};
use crate::keyed::{
    find_key, insert_key, lemma_map_of_empty, lemma_map_of_index, map_of, remove_key, unique_keys,
};
use crate::message_type::MessageType;
use crate::outgoing_message::OutgoingMessage;
use crate::encoding::{var_string_bytes, var_uint_bytes};
use vstd::utf8::encode_utf8;

verus! {

/// What a client asks for when it authenticates for a document.
pub struct AuthRequest {
    /// The address the client used: the document name, or the document name
    /// and a session id.
    pub raw_key: String,
    pub document_name: String,
    pub session_id: Option<String>,
    pub token: String,
    pub provider_version: Option<String>,
}

/// What to do with a message from the socket.
pub enum ClientStep {
    /// Close the socket with this event.
    CloseSocket(CloseEvent),
    /// Hand the message to the connection registered under this key.
    Forward(String),
    /// The message waits until the connection for its address is set up.
    Queued,
    /// Nothing to do.
    Ignored,
    /// Run the connect and authenticate hooks for this request.
    Authenticate(AuthRequest),
}

/// [`ClientStep`] with sequences in place of strings.
pub enum SpecStep {
    CloseSocket { code: u16, reason: Seq<char> },
    Forward(Seq<char>),
    Queued,
    Ignored,
    Authenticate {
        raw_key: Seq<char>,
        document_name: Seq<char>,
        session_id: Option<Seq<char>>,
        token: Seq<char>,
        provider_version: Option<Seq<char>>,
    },
}

/// An optional string as an optional sequence.
pub open spec fn opt_view(o: Option<String>) -> Option<Seq<char>> {
    match o {
        Some(s) => Some(s@),
        None => None,
    }
}

/// The step as a sequence-level value.
pub open spec fn step_view(s: ClientStep) -> SpecStep {
    match s {
        ClientStep::CloseSocket(e) => SpecStep::CloseSocket { code: e.code, reason: e.reason@ },
        ClientStep::Forward(k) => SpecStep::Forward(k@),
        ClientStep::Queued => SpecStep::Queued,
        ClientStep::Ignored => SpecStep::Ignored,
        ClientStep::Authenticate(r) => SpecStep::Authenticate {
            raw_key: r.raw_key@,
            document_name: r.document_name@,
            session_id: opt_view(r.session_id),
            token: r.token@,
            provider_version: opt_view(r.provider_version),
        },
    }
}

/// What is left of `s` after its first `n` bytes.
pub open spec fn after(s: Seq<u8>, n: nat) -> Seq<u8> {
    s.subrange(n as int, s.len() as int)
}

/// The token and the optional provider version of an authentication body
/// (after its sub-type), when the token can be read. The version is read only
/// when bytes follow the token, and dropped when they do not form a string.
pub open spec fn spec_auth_fields(body: Seq<u8>) -> Option<(Seq<char>, Option<Seq<char>>)> {
    let (sub, n1) = spec_read_var_uint(body);
    match sub {
        Err(_) => None,
        Ok(_) => {
            let b2 = after(body, n1);
            let (tok, n2) = spec_read_var_string(b2);
            match tok {
                Err(_) => None,
                Ok(token) => {
                    let b3 = after(b2, n2);
                    let version = if b3.len() > 0 {
                        match spec_read_var_string(b3).0 {
                            Ok(v) => Some(v),
                            Err(_) => None,
                        }
                    } else {
                        None
                    };
                    Some((token, version))
                },
            }
        },
    }
}

/// The session as plain sets and maps: the keys with a connection, the
/// waiting messages by key, and the keys whose authentication has begun.
pub struct SessionState {
    pub connected: Set<Seq<char>>,
    pub queues: Map<Seq<char>, Seq<Seq<u8>>>,
    pub established: Set<Seq<char>>,
}

/// What a message `data` does to the session `st`, and the step it asks for.
/// A message for a document that has a connection, under its full address or
/// its document name, goes to that connection. Otherwise it waits in the
/// queue of its address, unless it is the first authentication message for
/// that address, which starts authentication.
pub open spec fn spec_on_message(st: SessionState, data: Seq<u8>) -> (SessionState, SpecStep) {
    let (a, a_n) = spec_read_var_string(data);
    match a {
        Err(_) => (st, SpecStep::CloseSocket { code: 4401, reason: "Unauthorized"@ }),
        Ok(raw_key) => {
            let document_name = spec_parse_routing_key(raw_key).0;
            if st.connected.contains(raw_key) {
                (st, SpecStep::Forward(raw_key))
            } else if st.connected.contains(document_name) {
                (st, SpecStep::Forward(document_name))
            } else {
                let q1 = if st.queues.contains_key(raw_key) {
                    st.queues
                } else {
                    st.queues.insert(raw_key, Seq::empty())
                };
                let s1 = after(data, a_n);
                let (t, t_n) = spec_read_var_uint(s1);
                match t {
                    Err(_) => (
                        SessionState { queues: q1, ..st },
                        SpecStep::CloseSocket { code: 4205, reason: "Reset Connection"@ },
                    ),
                    Ok(t) => if t != MessageType::Auth.wire() || st.established.contains(raw_key) {
                        (
                            SessionState { queues: q1.insert(raw_key, q1[raw_key].push(data)), ..st },
                            SpecStep::Queued,
                        )
                    } else {
                        let st2 = SessionState {
                            queues: q1,
                            established: st.established.insert(raw_key),
                            ..st
                        };
                        match spec_auth_fields(after(s1, t_n)) {
                            None => (st2, SpecStep::Ignored),
                            Some((token, provider_version)) => (
                                st2,
                                SpecStep::Authenticate {
                                    raw_key,
                                    document_name,
                                    session_id: spec_parse_routing_key(raw_key).1,
                                    token,
                                    provider_version,
                                },
                            ),
                        }
                    },
                }
            }
        },
    }
}

/// The messages of a queue as byte sequences.
pub open spec fn queue_view(q: Vec<Vec<u8>>) -> Seq<Seq<u8>> {
    q@.map_values(|m: Vec<u8>| m@)
}

/// The per-address tables of one client socket.
pub struct ClientSession {
    connected: Vec<(String, ())>,
    queues: Vec<(String, Vec<Vec<u8>>)>,
    established: Vec<(String, ())>,
}

impl ClientSession {
    /// The keys with a connection.
    pub closed spec fn connected(&self) -> Set<Seq<char>> {
        map_of(self.connected@).dom()
    }

    /// The waiting messages by key.
    pub closed spec fn queues(&self) -> Map<Seq<char>, Seq<Seq<u8>>> {
        map_of(self.queues@).map_values(|q: Vec<Vec<u8>>| queue_view(q))
    }

    /// The keys whose authentication has begun.
    pub closed spec fn established(&self) -> Set<Seq<char>> {
        map_of(self.established@).dom()
    }

    /// The session as plain sets and maps.
    pub open spec fn state(&self) -> SessionState {
        SessionState {
            connected: self.connected(),
            queues: self.queues(),
            established: self.established(),
        }
    }

    /// Its internal invariant.
    pub closed spec fn wf(&self) -> bool {
        &&& unique_keys(self.connected@)
        &&& unique_keys(self.queues@)
        &&& unique_keys(self.established@)
    }

    /// A socket with no documents yet.
    pub fn new() -> (s: Self)
        ensures
            s.wf(),
            s.connected() == Set::<Seq<char>>::empty(),
            s.queues() == Map::<Seq<char>, Seq<Seq<u8>>>::empty(),
            s.established() == Set::<Seq<char>>::empty(),
    {
        let s = Self { connected: Vec::new(), queues: Vec::new(), established: Vec::new() };
        proof {
            lemma_map_of_empty(s.connected@);
            lemma_map_of_empty(s.queues@);
            lemma_map_of_empty(s.established@);
            assert(s.connected() =~= Set::<Seq<char>>::empty());
            assert(s.established() =~= Set::<Seq<char>>::empty());
            assert(s.queues() =~= Map::<Seq<char>, Seq<Seq<u8>>>::empty());
        }
        s
    }

    /// Whether a connection is registered under `key`.
    pub fn is_connected(&self, key: &String) -> (b: bool)
        ensures
            b == self.connected().contains(key@),
    {
        find_key(&self.connected, key).is_some()
    }

    /// Adds `data` to the queue of `key`, which must exist.
    fn enqueue(&mut self, key: &String, data: Vec<u8>)
        requires
            old(self).wf(),
            old(self).queues().contains_key(key@),
        ensures
            final(self).wf(),
            final(self).queues() == old(self).queues().insert(
                key@,
                old(self).queues()[key@].push(data@),
            ),
            final(self).connected() == old(self).connected(),
            final(self).established() == old(self).established(),
    {
        let ghost before = map_of(self.queues@);
        let mut q = match remove_key(&mut self.queues, key) {
            Some(q) => q,
            None => Vec::new(),
        };
        q.push(data);
        proof {
            assert(queue_view(q) =~= queue_view(before[key@]).push(data@));
        }
        insert_key(&mut self.queues, key.clone(), q);
        proof {
            assert(map_of(self.queues@) =~= before.insert(key@, q));
            assert(self.queues() =~= old(self).queues().insert(
                key@,
                old(self).queues()[key@].push(data@),
            ));
        }
    }

    /// Handles the message `data` from the socket (see [`spec_on_message`]).
    pub fn on_message(&mut self, data: &[u8]) -> (step: ClientStep)
        requires
            old(self).wf(),
        ensures
            final(self).wf(),
            (final(self).state(), step_view(step)) == spec_on_message(old(self).state(), data@),
    {
        let ghost raw = data@;
        let mut d = Decoder::new(data);
        assert(d.rest() =~= raw);
        proof {
            lemma_reads_consumed(raw);
        }
        let raw_key = match d.read_var_string() {
            Ok(k) => k,
            Err(_) => {
                return ClientStep::CloseSocket(unauthorized());
            },
        };
        let ghost a_n = spec_read_var_string(raw).1;
        let name_part = parse_routing_key(raw_key.as_str()).0;
        let document_name = name_part.to_string();
        proof {
            vstd::string::to_string_from_display_ensures_for_str(name_part, document_name);
        }
        if self.is_connected(&raw_key) {
            return ClientStep::Forward(raw_key);
        }
        if self.is_connected(&document_name) {
            return ClientStep::Forward(document_name);
        }
        let ghost before = self.state();
        if find_key(&self.queues, &raw_key).is_none() {
            let empty: Vec<Vec<u8>> = Vec::new();
            assert(queue_view(empty) =~= Seq::<Seq<u8>>::empty());
            insert_key(&mut self.queues, raw_key.clone(), empty);
            proof {
                assert(self.queues() =~= before.queues.insert(raw_key@, Seq::empty()));
            }
        }
        let ghost s1 = raw.subrange(a_n as int, raw.len() as int);
        assert(d.rest() == s1);
        proof {
            lemma_reads_consumed(s1);
        }
        let t = match d.read_var_uint() {
            Ok(t) => t,
            Err(_) => {
                return ClientStep::CloseSocket(reset_connection());
            },
        };
        let ghost t_n = spec_read_var_uint(s1).1;
        let ghost body = s1.subrange(t_n as int, s1.len() as int);
        proof {
            lemma_rest_advance(raw, a_n, t_n);
            lemma_reads_consumed(body);
        }
        assert(d.rest() == body);
        if t != MessageType::Auth.wire_code() || find_key(&self.established, &raw_key).is_some() {
            self.enqueue(&raw_key, vstd::slice::slice_to_vec(data));
            return ClientStep::Queued;
        }
        insert_key(&mut self.established, raw_key.clone(), ());
        let ghost p1 = d.pos();
        let sub = d.read_var_uint();
        if sub.is_err() {
            return ClientStep::Ignored;
        }
        let ghost n1 = spec_read_var_uint(body).1;
        let ghost b2 = after(body, n1);
        proof {
            lemma_rest_advance(raw, p1, n1);
            lemma_reads_consumed(b2);
        }
        assert(d.rest() == b2);
        let ghost p2 = d.pos();
        let token = match d.read_var_string() {
            Ok(tok) => tok,
            Err(_) => {
                return ClientStep::Ignored;
            },
        };
        let ghost n2 = spec_read_var_string(b2).1;
        let ghost b3 = after(b2, n2);
        proof {
            lemma_rest_advance(raw, p2, n2);
        }
        assert(d.rest() == b3);
        let provider_version = if d.has_content() {
            d.read_var_string().ok()
        } else {
            None
        };
        let parts = parse_routing_key(raw_key.as_str());
        let session_id = match parts.1 {
            Some(s) => {
                let owned = s.to_string();
                proof {
                    vstd::string::to_string_from_display_ensures_for_str(s, owned);
                }
                Some(owned)
            },
            None => None,
        };
        ClientStep::Authenticate(
            AuthRequest { raw_key, document_name, session_id, token, provider_version },
        )
    }

    /// Authentication for `key` failed: forget its queue and let a later
    /// authentication message start again.
    pub fn auth_failed(&mut self, key: &String)
        requires
            old(self).wf(),
        ensures
            final(self).wf(),
            final(self).connected() == old(self).connected(),
            final(self).queues() == old(self).queues().remove(key@),
            final(self).established() == old(self).established().remove(key@),
    {
        let _ = remove_key(&mut self.established, key);
        let _ = remove_key(&mut self.queues, key);
        proof {
            assert(self.queues() =~= old(self).queues().remove(key@));
        }
    }

    /// The connection for `key` is set up: it is registered, and the messages
    /// that waited for it are handed back in the order they came.
    pub fn connection_ready(&mut self, key: &String) -> (waiting: Vec<Vec<u8>>)
        requires
            old(self).wf(),
        ensures
            final(self).wf(),
            final(self).connected() == old(self).connected().insert(key@),
            final(self).queues() == old(self).queues().remove(key@),
            final(self).established() == old(self).established(),
            queue_view(waiting) == if old(self).queues().contains_key(key@) {
                old(self).queues()[key@]
            } else {
                Seq::empty()
            },
    {
        insert_key(&mut self.connected, key.clone(), ());
        let waiting = match remove_key(&mut self.queues, key) {
            Some(q) => q,
            None => {
                let empty: Vec<Vec<u8>> = Vec::new();
                assert(queue_view(empty) =~= Seq::<Seq<u8>>::empty());
                empty
            },
        };
        proof {
            assert(self.connected() =~= old(self).connected().insert(key@));
            assert(self.queues() =~= old(self).queues().remove(key@));
        }
        waiting
    }

    /// The connection for `key` has closed: everything about `key` is forgotten.
    pub fn connection_closed(&mut self, key: &String)
        requires
            old(self).wf(),
        ensures
            final(self).wf(),
            final(self).connected() == old(self).connected().remove(key@),
            final(self).queues() == old(self).queues().remove(key@),
            final(self).established() == old(self).established().remove(key@),
    {
        let _ = remove_key(&mut self.connected, key);
        let _ = remove_key(&mut self.queues, key);
        let _ = remove_key(&mut self.established, key);
        proof {
            assert(self.connected() =~= old(self).connected().remove(key@));
            assert(self.queues() =~= old(self).queues().remove(key@));
            assert(self.established() =~= old(self).established().remove(key@));
        }
    }
}

/// The reason sent to a client whose authentication was refused: the refusal's
/// own text, or "permission-denied" when that is empty.
pub fn denial_reason(reason: &str) -> (r: String)
    ensures
        r@ == if reason@.len() == 0 {
            "permission-denied"@
        } else {
            reason@
        },
{
    proof {
        reveal_strlit("permission-denied");
    }
    let text = if reason.is_empty() {
        "permission-denied"
    } else {
        reason
    };
    let r = text.to_string();
    proof {
        vstd::string::to_string_from_display_ensures_for_str(text, r);
    }
    r
}


/// Where a client's request for a document was refused.
#[derive(Debug, Clone, Copy, PartialEq, Eq, Structural)]
pub enum RefusalStage {
    /// A connect hook failed.
    Connect,
    /// An authenticate hook failed.
    Authenticate,
    /// The document could not be created or loaded.
    CreateDocument,
}

/// The reason a refusal at `stage` carries for a failure whose text is
/// `error`: a failed connect hook's text as it is, otherwise the text or,
/// when it is empty, "permission-denied".
pub open spec fn refusal_reason(stage: RefusalStage, error: Seq<char>) -> Seq<char> {
    if stage == RefusalStage::Connect || error.len() > 0 {
        error
    } else {
        "permission-denied"@
    }
}

/// The frame that answers a refused request for the document at `address`:
/// a permission-denied authentication message with the reason of
/// [`refusal_reason`].
pub fn refusal_frame(stage: RefusalStage, address: &str, error: &str) -> (frame: Vec<u8>)
    ensures
        frame@ == var_string_bytes(address@) + var_uint_bytes(MessageType::Auth.wire() as nat)
            + var_uint_bytes(1) + var_string_bytes(refusal_reason(stage, error@)),
{
    let reason = match stage {
        RefusalStage::Connect => {
            let r = error.to_string();
            proof {
                vstd::string::to_string_from_display_ensures_for_str(error, r);
            }
            r
        },
        _ => denial_reason(error),
    };
    OutgoingMessage::new(address).write_permission_denied(reason.as_str()).to_vec()
}

/// Whether a socket whose last message came at `last_ms` has timed out at
/// `now_ms`: more than `timeout_ms` have passed.
pub fn timed_out(last_ms: u64, now_ms: u64, timeout_ms: u64) -> (b: bool)
    ensures
        b == (now_ms > last_ms && now_ms - last_ms > timeout_ms),
{
    now_ms > last_ms && now_ms - last_ms > timeout_ms
}


/// The session after the messages `msgs`, in order.
pub open spec fn run_messages(st: SessionState, msgs: Seq<Seq<u8>>) -> SessionState
    decreases msgs.len(),
{
    if msgs.len() == 0 {
        st
    } else {
        spec_on_message(run_messages(st, msgs.drop_last()), msgs.last()).0
    }
}

/// `data` is addressed to `key` and is a message of a type other than
/// authentication.
pub open spec fn plain_message_for(data: Seq<u8>, key: Seq<char>) -> bool {
    let (a, a_n) = spec_read_var_string(data);
    &&& a == Ok::<Seq<char>, crate::encoding::DecodeError>(key)
    &&& match spec_read_var_uint(after(data, a_n)).0 {
        Ok(t) => t != MessageType::Auth.wire(),
        Err(_) => false,
    }
}

/// Messages wait in the order they came: while the address `key` (and its
/// document) has no connection, messages for it other than authentication
/// are appended to its queue one after the other, and nothing else changes
/// about which addresses are connected.
pub proof fn lemma_queue_keeps_arrival_order(st: SessionState, key: Seq<char>, msgs: Seq<Seq<u8>>)
    requires
        !st.connected.contains(key),
        !st.connected.contains(spec_parse_routing_key(key).0),
        forall|i: int| 0 <= i < msgs.len() ==> plain_message_for(#[trigger] msgs[i], key),
    ensures
        run_messages(st, msgs).connected == st.connected,
        msgs.len() > 0 ==> run_messages(st, msgs).queues.contains_key(key),
        msgs.len() > 0 ==> run_messages(st, msgs).queues[key] == (if st.queues.contains_key(key) {
            st.queues[key]
        } else {
            Seq::empty()
        }) + msgs,
    decreases msgs.len(),
{
    if msgs.len() > 0 {
        let prev = msgs.drop_last();
        assert forall|i: int| 0 <= i < prev.len() implies plain_message_for(#[trigger] prev[i], key) by {
            assert(prev[i] == msgs[i]);
        }
        lemma_queue_keeps_arrival_order(st, key, prev);
        let m = msgs.last();
        assert(plain_message_for(msgs[msgs.len() - 1], key));
        let base = if st.queues.contains_key(key) {
            st.queues[key]
        } else {
            Seq::<Seq<u8>>::empty()
        };
        if prev.len() == 0 {
            assert(run_messages(st, prev) == st);
            assert(base + msgs =~= base.push(m));
        } else {
            assert(base + msgs =~= (base + prev).push(m));
        }
    }
}

/// A message goes to the connection of the address it is written under
/// whenever that address has one, and leaves the session as it was.
pub proof fn lemma_message_goes_to_its_address(st: SessionState, address: Seq<char>, rest: Seq<u8>)
    requires
        encode_utf8(address).len() < u64_modulus(),
        st.connected.contains(address),
    ensures
        spec_on_message(st, var_string_bytes(address) + rest) == (st, SpecStep::Forward(address)),
{
    lemma_var_string_roundtrip(address, rest);
}

/// Two providers of one document can share a socket: a message written under
/// the routing key of document `document_name` and session `session_id` goes
/// to the connection of that key when it has one, even when the document has
/// a connection of its own; only when the key has none does it go to the
/// document's connection. The session is left as it was.
pub proof fn lemma_session_message_routing(
    st: SessionState,
    document_name: Seq<char>,
    session_id: Seq<char>,
    rest: Seq<u8>,
)
    requires
        !has_char(document_name, separator()),
        encode_utf8(document_name + seq![separator()] + session_id).len() < u64_modulus(),
    ensures
        st.connected.contains(document_name + seq![separator()] + session_id) ==> spec_on_message(
            st,
            var_string_bytes(document_name + seq![separator()] + session_id) + rest,
        ) == (st, SpecStep::Forward(document_name + seq![separator()] + session_id)),
        !st.connected.contains(document_name + seq![separator()] + session_id)
            && st.connected.contains(document_name) ==> spec_on_message(
            st,
            var_string_bytes(document_name + seq![separator()] + session_id) + rest,
        ) == (st, SpecStep::Forward(document_name)),
{
    let key = document_name + seq![separator()] + session_id;
    lemma_var_string_roundtrip(key, rest);
    lemma_routing_key_roundtrip(document_name, session_id);
}

} // verus!
