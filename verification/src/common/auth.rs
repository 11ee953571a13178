//! The authentication sub-protocol carried inside `Auth` messages: a message
//! type code followed by a token, a denial reason or a granted scope.

use vstd::prelude::*;

use crate::encoding::{
    spec_read_var_string, spec_read_var_uint, var_string_bytes, var_uint_bytes, DecodeError,
    Decoder, write_var_string, write_var_uint,
};

verus! {

/// The kinds of authentication message.
#[derive(Debug, Clone, Copy, PartialEq, Eq, Structural)]
pub enum AuthMessageType {
    Token,
    PermissionDenied,
    Authenticated,
}

impl AuthMessageType {
    /// The wire code of the kind.
    pub open spec fn spec_code(self) -> u64 {
        match self {
            AuthMessageType::Token => 0,
            AuthMessageType::PermissionDenied => 1,
            AuthMessageType::Authenticated => 2,
        }
    }

    /// The wire code of the kind.
    pub fn code(self) -> (c: u64)
        ensures
            c == self.spec_code(),
    {
        match self {
            AuthMessageType::Token => 0,
            AuthMessageType::PermissionDenied => 1,
            AuthMessageType::Authenticated => 2,
        }
    }
}

/// The kind whose wire code is `value`, if any.
pub open spec fn auth_message_type_of(value: u64) -> Result<AuthMessageType, ()> {
    if value == 0 {
        Ok(AuthMessageType::Token)
    } else if value == 1 {
        Ok(AuthMessageType::PermissionDenied)
    } else if value == 2 {
        Ok(AuthMessageType::Authenticated)
    } else {
        Err(())
    }
}

impl TryFrom<u64> for AuthMessageType {
    type Error = ();

    fn try_from(value: u64) -> (r: Result<Self, Self::Error>) {
        match value {
            0 => Ok(AuthMessageType::Token),
            1 => Ok(AuthMessageType::PermissionDenied),
            2 => Ok(AuthMessageType::Authenticated),
            _ => Err(()),
        }
    }
}

impl vstd::std_specs::convert::TryFromSpecImpl<u64> for AuthMessageType {
    open spec fn obeys_try_from_spec() -> bool {
        true
    }

    open spec fn try_from_spec(v: u64) -> Result<Self, ()> {
        auth_message_type_of(v)
    }
}

/// Appends a token message carrying `auth`.
pub fn write_authentication(buf: &mut Vec<u8>, auth: &str)
    ensures
        final(buf)@ == old(buf)@ + var_uint_bytes(0) + var_string_bytes(auth@),
{
    write_var_uint(buf, AuthMessageType::Token.code());
    write_var_string(buf, auth);
}

/// Appends a permission-denied message carrying `reason`.
pub fn write_permission_denied(buf: &mut Vec<u8>, reason: &str)
    ensures
        final(buf)@ == old(buf)@ + var_uint_bytes(1) + var_string_bytes(reason@),
{
    write_var_uint(buf, AuthMessageType::PermissionDenied.code());
    write_var_string(buf, reason);
}

/// Appends an authenticated message granting `scope`.
pub fn write_authenticated(buf: &mut Vec<u8>, scope: &str)
    ensures
        final(buf)@ == old(buf)@ + var_uint_bytes(2) + var_string_bytes(scope@),
{
    write_var_uint(buf, AuthMessageType::Authenticated.code());
    write_var_string(buf, scope);
}

/// Appends a bare token message: the server asks the client for a fresh token.
pub fn write_token_sync_request(buf: &mut Vec<u8>)
    ensures
        final(buf)@ == old(buf)@ + var_uint_bytes(0),
{
    write_var_uint(buf, AuthMessageType::Token.code());
}

/// A read position over borrowed bytes, as a standard I/O cursor keeps it: the
/// position may lie past the end, and a read that runs out of bytes leaves it
/// at the end.
pub struct ByteCursor<'a> {
    data: &'a [u8],
    pos: u64,
}

impl<'a> ByteCursor<'a> {
    /// The bytes under the cursor.
    pub closed spec fn data(&self) -> Seq<u8> {
        self.data@
    }

    /// The position.
    pub closed spec fn pos(&self) -> nat {
        self.pos as nat
    }

    /// The bytes from the position on.
    pub open spec fn rest(&self) -> Seq<u8> {
        if self.pos() <= self.data().len() {
            self.data().subrange(self.pos() as int, self.data().len() as int)
        } else {
            Seq::empty()
        }
    }

    /// A cursor at the start of `data`.
    pub fn new(data: &'a [u8]) -> (c: Self)
        ensures
            c.data() == data@,
            c.pos() == 0,
    {
        Self { data, pos: 0 }
    }

    /// The position.
    pub fn position(&self) -> (p: u64)
        ensures
            p == self.pos(),
    {
        self.pos
    }

    /// Moves the position.
    pub fn set_position(&mut self, pos: u64)
        ensures
            final(self).data() == old(self).data(),
            final(self).pos() == pos,
    {
        self.pos = pos;
    }

    /// The bytes under the cursor.
    pub fn get_ref(&self) -> (d: &'a [u8])
        ensures
            d@ == self.data(),
    {
        self.data
    }

    /// A decoder at the cursor's position, which must lie within the data.
    fn decoder(&self) -> (d: Decoder<'a>)
        requires
            self.pos() <= self.data().len(),
        ensures
            d.data() == self.data(),
            d.pos() == self.pos(),
            d.rest() == self.rest(),
    {
        let len = self.data.len();
        assert(self.pos <= len);
        let mut d = Decoder::new(self.data);
        d.set_position(self.pos as usize);
        d
    }
}

/// Where a read leaves a cursor: at the end of the data when the data ran
/// out, else past the bytes consumed.
pub open spec fn cursor_pos_after(c: ByteCursor, e: Option<DecodeError>, consumed: nat) -> nat {
    if e == Some(DecodeError::UnexpectedEnd) {
        c.data().len()
    } else {
        c.pos() + consumed
    }
}

/// Reads a var-uint at the cursor; `None` when the data runs out or the
/// var-uint runs past ten bytes.
pub fn read_var_uint(cursor: &mut ByteCursor) -> (r: Option<u64>)
    ensures
        final(cursor).data() == old(cursor).data(),
        match spec_read_var_uint(old(cursor).rest()).0 {
            Ok(v) => r == Some(v) && final(cursor).pos() == old(cursor).pos() + spec_read_var_uint(
                old(cursor).rest(),
            ).1,
            Err(e) => r is None && final(cursor).pos() == cursor_pos_after(
                *old(cursor),
                Some(e),
                spec_read_var_uint(old(cursor).rest()).1,
            ),
        },
{
    if cursor.pos >= cursor.data.len() as u64 {
        cursor.pos = cursor.data.len() as u64;
        return None;
    }
    let mut d = cursor.decoder();
    let r = d.read_var_uint();
    match r {
        Ok(v) => {
            cursor.pos = d.position() as u64;
            Some(v)
        },
        Err(DecodeError::UnexpectedEnd) => {
            cursor.pos = cursor.data.len() as u64;
            None
        },
        Err(_) => {
            cursor.pos = d.position() as u64;
            None
        },
    }
}

/// Reads a length-prefixed UTF-8 string at the cursor; `None` when the data
/// runs out, the length points past the end or the bytes are not UTF-8.
pub fn read_var_string(cursor: &mut ByteCursor) -> (r: Option<String>)
    ensures
        final(cursor).data() == old(cursor).data(),
        match spec_read_var_string(old(cursor).rest()).0 {
            Ok(s) => r is Some && r->Some_0@ == s && final(cursor).pos() == old(cursor).pos()
                + spec_read_var_string(old(cursor).rest()).1,
            Err(e) => r is None && final(cursor).pos() == cursor_pos_after(
                *old(cursor),
                Some(e),
                spec_read_var_string(old(cursor).rest()).1,
            ),
        },
{
    if cursor.pos >= cursor.data.len() as u64 {
        cursor.pos = cursor.data.len() as u64;
        return None;
    }
    let mut d = cursor.decoder();
    let r = d.read_var_string();
    match r {
        Ok(s) => {
            cursor.pos = d.position() as u64;
            Some(s)
        },
        Err(DecodeError::UnexpectedEnd) => {
            cursor.pos = cursor.data.len() as u64;
            None
        },
        Err(_) => {
            cursor.pos = d.position() as u64;
            None
        },
    }
}

} // verus!
