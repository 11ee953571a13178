//! Reading an incoming message and deciding what it asks for. What needs the
//! Yjs document (computing updates, applying them, awareness) is done by the
//! caller with the decisions made here.

use vstd::prelude::*;

use crate::common::auth::AuthMessageType;
use crate::encoding::{
    lemma_reads_consumed, lemma_rest_advance, spec_read_var_array, spec_read_var_string,
    spec_read_var_uint, DecodeError, Decoder,
};
use crate::message_type::MessageType;
use crate::types::TransactionOrigin;

verus! {

/// Why a message could not be handled.
#[derive(Debug, Clone, PartialEq, Eq)]
pub enum ReceiveError {
    /// The message is malformed.
    Decode(DecodeError),
    /// A client sent a broadcast, which only the server may originate.
    BroadcastFromClient,
    /// A sync message of an unknown step.
    UnknownSyncType(u64),
}

/// What an incoming message asks for.
pub enum Incoming {
    /// A step of the Yjs sync protocol. `request_first_sync` is false for a
    /// sync reply; `payload` is the step's byte array, or why it could not be read.
    Sync { request_first_sync: bool, sync_type: u64, payload: Result<Vec<u8>, DecodeError> },
    /// An awareness update.
    Awareness { update: Vec<u8> },
    /// A request for all awareness states.
    QueryAwareness,
    /// A stateless message for the server's hooks.
    Stateless { payload: String },
    /// A stateless message to be broadcast to every connection.
    BroadcastStateless { payload: String },
    /// The client asks to close the connection.
    Close,
    /// The client sends a fresh token.
    TokenSync { token: String },
    /// An authentication message other than a token, which an authenticated
    /// connection does not expect.
    UnexpectedAuth { auth_type: u64 },
    /// A message type with no handler.
    Unhandled { message_type: u64 },
}

/// [`Incoming`] with sequences in place of vectors and strings.
pub enum SpecIncoming {
    Sync { request_first_sync: bool, sync_type: u64, payload: Result<Seq<u8>, DecodeError> },
    Awareness { update: Seq<u8> },
    QueryAwareness,
    Stateless { payload: Seq<char> },
    BroadcastStateless { payload: Seq<char> },
    Close,
    TokenSync { token: Seq<char> },
    UnexpectedAuth { auth_type: u64 },
    Unhandled { message_type: u64 },
}

/// The incoming message as a sequence-level value.
pub open spec fn incoming_view(i: Incoming) -> SpecIncoming {
    match i {
        Incoming::Sync { request_first_sync, sync_type, payload } => SpecIncoming::Sync {
            request_first_sync,
            sync_type,
            payload: match payload {
                Ok(p) => Ok(p@),
                Err(e) => Err(e),
            },
        },
        Incoming::Awareness { update } => SpecIncoming::Awareness { update: update@ },
        Incoming::QueryAwareness => SpecIncoming::QueryAwareness,
        Incoming::Stateless { payload } => SpecIncoming::Stateless { payload: payload@ },
        Incoming::BroadcastStateless { payload } => SpecIncoming::BroadcastStateless {
            payload: payload@,
        },
        Incoming::Close => SpecIncoming::Close,
        Incoming::TokenSync { token } => SpecIncoming::TokenSync { token: token@ },
        Incoming::UnexpectedAuth { auth_type } => SpecIncoming::UnexpectedAuth { auth_type },
        Incoming::Unhandled { message_type } => SpecIncoming::Unhandled { message_type },
    }
}

/// The parse result as a sequence-level value.
pub open spec fn parse_view(r: Result<Incoming, ReceiveError>) -> Result<SpecIncoming, ReceiveError> {
    match r {
        Ok(i) => Ok(incoming_view(i)),
        Err(e) => Err(e),
    }
}

/// What the rest of a message after its address and type asks for, given the
/// type `t` and whether it came from a client connection.
pub open spec fn spec_parse_body(t: u64, body: Seq<u8>, from_client: bool) -> Result<
    SpecIncoming,
    ReceiveError,
> {
    if t == MessageType::Sync.wire() || t == MessageType::SyncReply.wire() {
        let (st, n) = spec_read_var_uint(body);
        match st {
            Err(e) => Err(ReceiveError::Decode(e)),
            Ok(sync_type) => Ok(
                SpecIncoming::Sync {
                    request_first_sync: t != MessageType::SyncReply.wire(),
                    sync_type,
                    payload: spec_read_var_array(body.subrange(n as int, body.len() as int)).0,
                },
            ),
        }
    } else if t == MessageType::Awareness.wire() {
        match spec_read_var_array(body).0 {
            Ok(u) => Ok(SpecIncoming::Awareness { update: u }),
            Err(e) => Err(ReceiveError::Decode(e)),
        }
    } else if t == MessageType::QueryAwareness.wire() {
        Ok(SpecIncoming::QueryAwareness)
    } else if t == MessageType::Stateless.wire() {
        match spec_read_var_string(body).0 {
            Ok(p) => Ok(SpecIncoming::Stateless { payload: p }),
            Err(e) => Err(ReceiveError::Decode(e)),
        }
    } else if t == MessageType::BroadcastStateless.wire() {
        if from_client {
            Err(ReceiveError::BroadcastFromClient)
        } else {
            match spec_read_var_string(body).0 {
                Ok(p) => Ok(SpecIncoming::BroadcastStateless { payload: p }),
                Err(e) => Err(ReceiveError::Decode(e)),
            }
        }
    } else if t == MessageType::Close.wire() {
        Ok(SpecIncoming::Close)
    } else if t == MessageType::Auth.wire() {
        let (at, n) = spec_read_var_uint(body);
        match at {
            Err(e) => Err(ReceiveError::Decode(e)),
            Ok(auth_type) => if auth_type == AuthMessageType::Token.spec_code() {
                match spec_read_var_string(body.subrange(n as int, body.len() as int)).0 {
                    Ok(token) => Ok(SpecIncoming::TokenSync { token }),
                    Err(e) => Err(ReceiveError::Decode(e)),
                }
            } else {
                Ok(SpecIncoming::UnexpectedAuth { auth_type })
            },
        }
    } else {
        Ok(SpecIncoming::Unhandled { message_type: t })
    }
}

/// What the message `data` asks for: its address and its type are read first.
pub open spec fn spec_parse_incoming(data: Seq<u8>, from_client: bool) -> Result<
    SpecIncoming,
    ReceiveError,
> {
    let (a, a_n) = spec_read_var_string(data);
    match a {
        Err(e) => Err(ReceiveError::Decode(e)),
        Ok(_) => {
            let s1 = data.subrange(a_n as int, data.len() as int);
            let (t, t_n) = spec_read_var_uint(s1);
            match t {
                Err(e) => Err(ReceiveError::Decode(e)),
                Ok(t) => spec_parse_body(t, s1.subrange(t_n as int, s1.len() as int), from_client),
            }
        },
    }
}

/// A received message, with the origin to record for changes it makes when
/// it does not come from a client connection.
pub struct MessageReceiver {
    data: Vec<u8>,
    default_transaction_origin: Option<TransactionOrigin>,
}

impl MessageReceiver {
    /// The message's bytes.
    pub closed spec fn bytes(&self) -> Seq<u8> {
        self.data@
    }

    /// The receiver of the message `data`.
    pub fn new(data: Vec<u8>, default_transaction_origin: Option<TransactionOrigin>) -> (r: Self)
        ensures
            r.bytes() == data@,
            r.default_origin() == default_transaction_origin,
    {
        Self { data, default_transaction_origin }
    }

    /// The origin recorded for changes made by a message not from a client.
    pub closed spec fn default_origin(&self) -> Option<TransactionOrigin> {
        self.default_transaction_origin
    }

    /// The origin recorded for changes made by a message not from a client.
    pub fn default_transaction_origin(&self) -> (o: &Option<TransactionOrigin>)
        ensures
            *o == self.default_origin(),
    {
        &self.default_transaction_origin
    }

    /// The message's bytes.
    pub fn data(&self) -> (d: &[u8])
        ensures
            d@ == self.bytes(),
    {
        self.data.as_slice()
    }

    /// Reads what the message asks for (see [`spec_parse_incoming`]);
    /// `from_client` is whether it came through a client connection.
    pub fn parse(&self, from_client: bool) -> (r: Result<Incoming, ReceiveError>)
        ensures
            parse_view(r) == spec_parse_incoming(self.bytes(), from_client),
    {
        let mut d = Decoder::new(self.data.as_slice());
        let ghost raw = self.data@;
        assert(d.rest() =~= raw);
        proof {
            lemma_reads_consumed(raw);
        }
        if let Err(e) = d.read_var_string() {
            return Err(ReceiveError::Decode(e));
        }
        let ghost a_n = spec_read_var_string(raw).1;
        let ghost s1 = raw.subrange(a_n as int, raw.len() as int);
        assert(d.rest() == s1);
        proof {
            lemma_reads_consumed(s1);
        }
        let t = match d.read_var_uint() {
            Ok(t) => t,
            Err(e) => return Err(ReceiveError::Decode(e)),
        };
        let ghost t_n = spec_read_var_uint(s1).1;
        let ghost body = s1.subrange(t_n as int, s1.len() as int);
        proof {
            lemma_rest_advance(raw, a_n, t_n);
            lemma_reads_consumed(body);
        }
        assert(d.rest() == body);
        Self::parse_body(&mut d, t, from_client)
    }

    fn parse_body(d: &mut Decoder, t: u64, from_client: bool) -> (r: Result<Incoming, ReceiveError>)
        requires
            old(d).pos() <= old(d).data().len(),
        ensures
            parse_view(r) == spec_parse_body(t, old(d).rest(), from_client),
    {
        let ghost body = d.rest();
        proof {
            lemma_reads_consumed(body);
        }
        if t == MessageType::Sync.wire_code() || t == MessageType::SyncReply.wire_code() {
            let sync_type = match d.read_var_uint() {
                Ok(s) => s,
                Err(e) => return Err(ReceiveError::Decode(e)),
            };
            proof {
                lemma_rest_advance(old(d).data(), old(d).pos(), spec_read_var_uint(body).1);
            }
            let payload = d.read_var_uint8_array();
            Ok(
                Incoming::Sync {
                    request_first_sync: t != MessageType::SyncReply.wire_code(),
                    sync_type,
                    payload,
                },
            )
        } else if t == MessageType::Awareness.wire_code() {
            match d.read_var_uint8_array() {
                Ok(update) => Ok(Incoming::Awareness { update }),
                Err(e) => Err(ReceiveError::Decode(e)),
            }
        } else if t == MessageType::QueryAwareness.wire_code() {
            Ok(Incoming::QueryAwareness)
        } else if t == MessageType::Stateless.wire_code() {
            match d.read_var_string() {
                Ok(payload) => Ok(Incoming::Stateless { payload }),
                Err(e) => Err(ReceiveError::Decode(e)),
            }
        } else if t == MessageType::BroadcastStateless.wire_code() {
            if from_client {
                return Err(ReceiveError::BroadcastFromClient);
            }
            match d.read_var_string() {
                Ok(payload) => Ok(Incoming::BroadcastStateless { payload }),
                Err(e) => Err(ReceiveError::Decode(e)),
            }
        } else if t == MessageType::Close.wire_code() {
            Ok(Incoming::Close)
        } else if t == MessageType::Auth.wire_code() {
            let auth_type = match d.read_var_uint() {
                Ok(a) => a,
                Err(e) => return Err(ReceiveError::Decode(e)),
            };
            if auth_type == AuthMessageType::Token.code() {
                proof {
                    lemma_rest_advance(old(d).data(), old(d).pos(), spec_read_var_uint(body).1);
                }
                match d.read_var_string() {
                    Ok(token) => Ok(Incoming::TokenSync { token }),
                    Err(e) => Err(ReceiveError::Decode(e)),
                }
            } else {
                Ok(Incoming::UnexpectedAuth { auth_type })
            }
        } else {
            Ok(Incoming::Unhandled { message_type: t })
        }
    }
}

} // verus!
