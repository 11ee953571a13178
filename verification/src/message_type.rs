//! The message types of the Hocuspocus protocol.

use vstd::prelude::*;

verus! {

/// The type of a message, written as a var-uint after the message's address.
/// `Ping` and `Pong` are defined but unused; the fragment types lie above the
/// range of the base Hocuspocus protocol.
#[derive(Debug, Clone, Copy, PartialEq, Eq, Structural)]
pub enum MessageType {
    Sync,
    Awareness,
    Auth,
    QueryAwareness,
    SyncReply,
    Stateless,
    BroadcastStateless,
    Close,
    SyncStatus,
    Ping,
    Pong,
    FragmentStart,
    FragmentData,
    FragmentEnd,
    Unknown,
}

impl MessageType {
    /// The protocol code of the type (`-1` for `Unknown`).
    pub open spec fn spec_code(self) -> int {
        match self {
            MessageType::Unknown => -1,
            MessageType::Sync => 0,
            MessageType::Awareness => 1,
            MessageType::Auth => 2,
            MessageType::QueryAwareness => 3,
            MessageType::SyncReply => 4,
            MessageType::Stateless => 5,
            MessageType::BroadcastStateless => 6,
            MessageType::Close => 7,
            MessageType::SyncStatus => 8,
            MessageType::Ping => 9,
            MessageType::Pong => 10,
            MessageType::FragmentStart => 100,
            MessageType::FragmentData => 101,
            MessageType::FragmentEnd => 102,
        }
    }

    /// The code written on the wire for a type other than `Unknown`.
    pub open spec fn wire(self) -> u64 {
        self.spec_code() as u64
    }

    /// The protocol code of the type (`-1` for `Unknown`).
    pub fn code(self) -> (c: i8)
        ensures
            c == self.spec_code(),
    {
        match self {
            MessageType::Unknown => -1,
            MessageType::Sync => 0,
            MessageType::Awareness => 1,
            MessageType::Auth => 2,
            MessageType::QueryAwareness => 3,
            MessageType::SyncReply => 4,
            MessageType::Stateless => 5,
            MessageType::BroadcastStateless => 6,
            MessageType::Close => 7,
            MessageType::SyncStatus => 8,
            MessageType::Ping => 9,
            MessageType::Pong => 10,
            MessageType::FragmentStart => 100,
            MessageType::FragmentData => 101,
            MessageType::FragmentEnd => 102,
        }
    }

    /// The code written on the wire for a type other than `Unknown`.
    pub fn wire_code(self) -> (c: u64)
        requires
            self != MessageType::Unknown,
        ensures
            c == self.wire(),
            c == self.spec_code(),
    {
        self.code() as u64
    }
}

/// The type whose wire code is `value`; `Unknown` has none.
pub open spec fn message_type_of(value: u64) -> Result<MessageType, ()> {
    if value == 0 {
        Ok(MessageType::Sync)
    } else if value == 1 {
        Ok(MessageType::Awareness)
    } else if value == 2 {
        Ok(MessageType::Auth)
    } else if value == 3 {
        Ok(MessageType::QueryAwareness)
    } else if value == 4 {
        Ok(MessageType::SyncReply)
    } else if value == 5 {
        Ok(MessageType::Stateless)
    } else if value == 6 {
        Ok(MessageType::BroadcastStateless)
    } else if value == 7 {
        Ok(MessageType::Close)
    } else if value == 8 {
        Ok(MessageType::SyncStatus)
    } else if value == 9 {
        Ok(MessageType::Ping)
    } else if value == 10 {
        Ok(MessageType::Pong)
    } else if value == 100 {
        Ok(MessageType::FragmentStart)
    } else if value == 101 {
        Ok(MessageType::FragmentData)
    } else if value == 102 {
        Ok(MessageType::FragmentEnd)
    } else {
        Err(())
    }
}

impl TryFrom<u64> for MessageType {
    type Error = ();

    fn try_from(value: u64) -> (r: Result<Self, Self::Error>) {
        match value {
            0 => Ok(MessageType::Sync),
            1 => Ok(MessageType::Awareness),
            2 => Ok(MessageType::Auth),
            3 => Ok(MessageType::QueryAwareness),
            4 => Ok(MessageType::SyncReply),
            5 => Ok(MessageType::Stateless),
            6 => Ok(MessageType::BroadcastStateless),
            7 => Ok(MessageType::Close),
            8 => Ok(MessageType::SyncStatus),
            9 => Ok(MessageType::Ping),
            10 => Ok(MessageType::Pong),
            100 => Ok(MessageType::FragmentStart),
            101 => Ok(MessageType::FragmentData),
            102 => Ok(MessageType::FragmentEnd),
            _ => Err(()),
        }
    }
}

impl vstd::std_specs::convert::TryFromSpecImpl<u64> for MessageType {
    open spec fn obeys_try_from_spec() -> bool {
        true
    }

    open spec fn try_from_spec(v: u64) -> Result<Self, ()> {
        message_type_of(v)
    }
}

/// Reading back the wire code of a type gives the type.
pub proof fn lemma_message_type_code_roundtrip(t: MessageType)
    requires
        t != MessageType::Unknown,
    ensures
        message_type_of(t.wire()) == Ok::<MessageType, ()>(t),
{
}

} // verus!
