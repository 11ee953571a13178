//! An incoming message: a decoder over its bytes and an encoder for a reply.

use vstd::prelude::*;

use crate::encoding::{
    spec_read_var_array, spec_read_var_string, spec_read_var_uint, var_string_bytes,
    var_uint_bytes, DecodeError, Decoder, write_var_string, write_var_uint,
};

verus! {

/// An incoming message being read, with a reply being written.
pub struct IncomingMessage<'a> {
    decoder: Decoder<'a>,
    encoder: Vec<u8>,
}

impl<'a> IncomingMessage<'a> {
    /// The decoder over the message.
    pub closed spec fn reader(&self) -> Decoder<'a> {
        self.decoder
    }

    /// The reply written so far.
    pub closed spec fn reply(&self) -> Seq<u8> {
        self.encoder@
    }

    /// A message over `data`, read from the start, with an empty reply.
    pub fn new(data: &'a [u8]) -> (m: Self)
        ensures
            m.reader().data() == data@,
            m.reader().pos() == 0,
            m.reply() == Seq::<u8>::empty(),
    {
        Self { decoder: Decoder::new(data), encoder: Vec::new() }
    }

    /// Reads a var-uint (see [`Decoder::read_var_uint`]).
    pub fn read_var_uint(&mut self) -> (r: Result<u64, DecodeError>)
        ensures
            final(self).reader().data() == old(self).reader().data(),
            r == spec_read_var_uint(old(self).reader().rest()).0,
            final(self).reader().pos() == old(self).reader().pos() + spec_read_var_uint(
                old(self).reader().rest(),
            ).1,
            final(self).reply() == old(self).reply(),
    {
        self.decoder.read_var_uint()
    }

    /// Reads a string (see [`Decoder::read_var_string`]).
    pub fn read_var_string(&mut self) -> (r: Result<String, DecodeError>)
        ensures
            final(self).reader().data() == old(self).reader().data(),
            match spec_read_var_string(old(self).reader().rest()).0 {
                Ok(cs) => r is Ok && r->Ok_0@ == cs,
                Err(e) => r == Err::<String, DecodeError>(e),
            },
            final(self).reader().pos() == old(self).reader().pos() + spec_read_var_string(
                old(self).reader().rest(),
            ).1,
            final(self).reply() == old(self).reply(),
    {
        self.decoder.read_var_string()
    }

    /// Reads a byte array (see [`Decoder::read_var_uint8_array`]).
    pub fn read_var_uint8_array(&mut self) -> (r: Result<Vec<u8>, DecodeError>)
        ensures
            final(self).reader().data() == old(self).reader().data(),
            match spec_read_var_array(old(self).reader().rest()).0 {
                Ok(d) => r is Ok && r->Ok_0@ == d,
                Err(e) => r == Err::<Vec<u8>, DecodeError>(e),
            },
            final(self).reader().pos() == old(self).reader().pos() + spec_read_var_array(
                old(self).reader().rest(),
            ).1,
            final(self).reply() == old(self).reply(),
    {
        self.decoder.read_var_uint8_array()
    }

    /// Reads a byte array without moving the read position.
    pub fn peek_var_uint8_array(&mut self) -> (r: Result<Vec<u8>, DecodeError>)
        ensures
            final(self).reader().data() == old(self).reader().data(),
            final(self).reader().pos() == old(self).reader().pos(),
            match spec_read_var_array(old(self).reader().rest()).0 {
                Ok(d) => r is Ok && r->Ok_0@ == d,
                Err(e) => r == Err::<Vec<u8>, DecodeError>(e),
            },
            final(self).reply() == old(self).reply(),
    {
        self.decoder.peek_var_uint8_array()
    }

    /// Whether bytes are left to read.
    pub fn has_content(&self) -> (b: bool)
        ensures
            b == (self.reader().pos() < self.reader().data().len()),
    {
        self.decoder.has_content()
    }

    /// The bytes not yet read.
    pub fn remaining(&self) -> (r: &'a [u8])
        requires
            self.reader().pos() <= self.reader().data().len(),
        ensures
            r@ == self.reader().rest(),
    {
        self.decoder.remaining()
    }

    /// Appends a var-uint to the reply.
    pub fn write_var_uint(&mut self, value: u64)
        ensures
            final(self).reader() == old(self).reader(),
            final(self).reply() == old(self).reply() + var_uint_bytes(value as nat),
    {
        write_var_uint(&mut self.encoder, value);
    }

    /// Appends a string to the reply.
    pub fn write_var_string(&mut self, s: &str)
        ensures
            final(self).reader() == old(self).reader(),
            final(self).reply() == old(self).reply() + var_string_bytes(s@),
    {
        write_var_string(&mut self.encoder, s);
    }

    /// A copy of the reply.
    pub fn encoder_to_vec(&self) -> (v: Vec<u8>)
        ensures
            v@ == self.reply(),
    {
        let mut v = Vec::new();
        v.extend_from_slice(self.encoder.as_slice());
        assert(v@ =~= self.encoder@);
        v
    }

    /// The length of the reply.
    pub fn encoder_len(&self) -> (n: usize)
        ensures
            n == self.reply().len(),
    {
        self.encoder.len()
    }
}

} // verus!
