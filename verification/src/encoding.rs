//! The lib0 binary encoding used on the wire: variable-length unsigned
//! integers (seven bits per byte, least significant group first), and
//! length-prefixed strings and byte arrays, plus a cursor that decodes them.

use vstd::prelude::*;
use vstd::arithmetic::power2::*;
use vstd::bits::*;
use vstd::slice::*;
use vstd::string::StringSliceAdditionalSpecFns;
use vstd::utf8::*;

verus! {

/// 2^64, the modulus of `u64` arithmetic.
pub open spec fn u64_modulus() -> nat {
    0x1_0000_0000_0000_0000
}

/// The weight of the seven-bit group at position `i` of a var-uint.
pub open spec fn group_weight(i: nat) -> nat {
    pow2(7 * i)
}

/// The lib0 var-uint encoding of `v`: seven bits per byte, least significant
/// group first, the high bit set on every byte but the last.
pub open spec fn var_uint_bytes(v: nat) -> Seq<u8>
    decreases v,
{
    if v < 128 {
        seq![v as u8]
    } else {
        seq![(v % 128 + 128) as u8] + var_uint_bytes(v / 128)
    }
}

/// The encoding of a string: the byte length of its UTF-8 form as a var-uint,
/// followed by that UTF-8 form.
pub open spec fn var_string_bytes(s: Seq<char>) -> Seq<u8> {
    var_uint_bytes(encode_utf8(s).len()) + encode_utf8(s)
}

/// The encoding of a byte array: its length as a var-uint, then the bytes.
pub open spec fn var_array_bytes(d: Seq<u8>) -> Seq<u8> {
    var_uint_bytes(d.len()) + d
}

/// Why a read from a [`Decoder`] failed.
#[derive(Debug, Clone, Copy, PartialEq, Eq)]
pub enum DecodeError {
    /// The data ended inside a var-uint.
    UnexpectedEnd,
    /// A var-uint ran on past ten bytes.
    VarUintTooLarge,
    /// A string's length prefix points past the end of the data.
    StringTruncated,
    /// A string's bytes are not valid UTF-8.
    InvalidUtf8,
    /// A byte array's length prefix points past the end of the data.
    ArrayTruncated,
    /// Fewer bytes are left than were asked for.
    NotEnoughData,
}

/// Reading a var-uint from `s`, having read `i` bytes whose groups sum to
/// `acc`: the value read (before truncation to 64 bits) or the error, and the
/// number of bytes consumed from the front of `s` in either case.
pub open spec fn read_var_uint_from(s: Seq<u8>, i: nat, acc: nat) -> (Result<nat, DecodeError>, nat)
    decreases 10 - i,
{
    if i >= 10 {
        (Err(DecodeError::VarUintTooLarge), i)
    } else if i >= s.len() {
        (Err(DecodeError::UnexpectedEnd), i)
    } else {
        let acc2 = acc + (s[i as int] % 128) as nat * group_weight(i);
        if s[i as int] < 128 {
            (Ok(acc2), i + 1)
        } else if i + 1 >= 10 {
            (Err(DecodeError::VarUintTooLarge), i + 1)
        } else {
            read_var_uint_from(s, i + 1, acc2)
        }
    }
}

/// Reading a var-uint never consumes more bytes than there are.
pub proof fn lemma_read_var_uint_from_consumed(s: Seq<u8>, i: nat, acc: nat)
    requires
        i <= s.len(),
    ensures
        read_var_uint_from(s, i, acc).1 <= s.len(),
        read_var_uint_from(s, i, acc).1 >= i,
    decreases 10 - i,
{
    if i < 10 && i < s.len() {
        let acc2 = acc + (s[i as int] % 128) as nat * group_weight(i);
        if s[i as int] >= 128 && i + 1 < 10 {
            lemma_read_var_uint_from_consumed(s, i + 1, acc2);
        }
    }
}

/// What reading a var-uint from the front of `s` gives (the sum of its groups,
/// truncated to 64 bits), and how many bytes it consumes.
pub open spec fn spec_read_var_uint(s: Seq<u8>) -> (Result<u64, DecodeError>, nat) {
    let (r, n) = read_var_uint_from(s, 0, 0);
    (
        match r {
            Ok(v) => Ok((v % u64_modulus()) as u64),
            Err(e) => Err(e),
        },
        n,
    )
}

/// What reading a length-prefixed string from the front of `s` gives, and how
/// many bytes it consumes.
pub open spec fn spec_read_var_string(s: Seq<u8>) -> (Result<Seq<char>, DecodeError>, nat) {
    let (r, n) = spec_read_var_uint(s);
    match r {
        Err(e) => (Err(e), n),
        Ok(len) => if len > s.len() - n {
            (Err(DecodeError::StringTruncated), n)
        } else {
            let bytes = s.subrange(n as int, n + len);
            if valid_utf8(bytes) {
                (Ok(decode_utf8(bytes)), (n + len) as nat)
            } else {
                (Err(DecodeError::InvalidUtf8), n)
            }
        },
    }
}

/// Reading a string or an array never consumes more bytes than there are.
pub proof fn lemma_reads_consumed(s: Seq<u8>)
    ensures
        spec_read_var_uint(s).1 <= s.len(),
        spec_read_var_string(s).1 <= s.len(),
        spec_read_var_array(s).1 <= s.len(),
{
    lemma_read_var_uint_from_consumed(s, 0, 0);
}

/// What is left after consuming `n` more bytes of what is left.
pub proof fn lemma_rest_advance(data: Seq<u8>, p: nat, n: nat)
    requires
        p + n <= data.len(),
    ensures
        data.subrange((p + n) as int, data.len() as int) == data.subrange(
            p as int,
            data.len() as int,
        ).subrange(n as int, data.len() - p),
{
    assert(data.subrange((p + n) as int, data.len() as int) =~= data.subrange(
        p as int,
        data.len() as int,
    ).subrange(n as int, data.len() - p));
}

/// What reading a length-prefixed byte array from the front of `s` gives, and
/// how many bytes it consumes.
pub open spec fn spec_read_var_array(s: Seq<u8>) -> (Result<Seq<u8>, DecodeError>, nat) {
    let (r, n) = spec_read_var_uint(s);
    match r {
        Err(e) => (Err(e), n),
        Ok(len) => if len > s.len() - n {
            (Err(DecodeError::ArrayTruncated), n)
        } else {
            (Ok(s.subrange(n as int, n + len)), (n + len) as nat)
        },
    }
}

// ───────────── lemmas on the var-uint encoding ─────────────

proof fn lemma_group_weight_step(i: nat)
    ensures
        group_weight(i + 1) == 128 * group_weight(i),
        group_weight(i) > 0,
{
    lemma_pow2_adds(7 * i, 7);
    lemma2_to64();
    assert(7 * (i + 1) == 7 * i + 7) by (nonlinear_arith);
    lemma_pow2_pos(7 * i);
}

proof fn lemma_group_weight_values()
    ensures
        group_weight(9) == 0x8000_0000_0000_0000,
        group_weight(10) == 0x40_0000_0000_0000_0000,
{
    lemma2_to64();
    lemma2_to64_rest();
    lemma_pow2_adds(64, 6);
}

/// The groups read so far weigh less than the next group.
proof fn lemma_read_bound(acc: nat, i: nat, b: u8)
    requires
        acc < group_weight(i),
    ensures
        acc + (b % 128) as nat * group_weight(i) < group_weight(i + 1),
{
    lemma_group_weight_step(i);
    let w = group_weight(i);
    assert((b % 128) as nat * w <= 127 * w) by (nonlinear_arith)
        requires
            (b % 128) <= 127,
    ;
}

/// One step of the decoding loop: or-ing the next group into the accumulator
/// adds its weighted value, modulo 2^64.
proof fn lemma_accumulate(acc: u64, b: u8, i: u32)
    requires
        i < 10,
        acc < group_weight(i as nat),
    ensures
        (acc | (((b & 0x7f) as u64) << (7 * i) as u64)) as int == (acc as int + (b % 128) as int
            * group_weight(i as nat) as int) % (u64_modulus() as int),
{
    let x: u64 = (b & 0x7f) as u64;
    let sh: u64 = (7 * i) as u64;
    assert((b & 0x7f) == b % 128) by (bit_vector);
    lemma_group_weight_values();
    if i < 9 {
        assert(sh <= 56);
        lemma_u64_pow2_no_overflow(sh as nat);
        assert(x * pow2(sh as nat) <= u64::MAX) by {
            lemma_pow2_strictly_increases(sh as nat, 63);
            lemma2_to64_rest();
            if sh < 56 {
                lemma_pow2_strictly_increases(sh as nat, 56);
            }
            assert(x * pow2(sh as nat) <= 127 * pow2(56)) by (nonlinear_arith)
                requires
                    x <= 127,
                    pow2(sh as nat) <= pow2(56),
            ;
        }
        lemma_u64_shl_is_mul(x, sh);
        assert(acc < (1u64 << sh)) by {
            lemma_u64_shl_is_mul(1u64, sh);
        }
        assert(acc < (1u64 << sh) && sh <= 56 && x < 128 ==> (acc | (x << sh)) == acc + (x
            << sh)) by (bit_vector);
        lemma_read_bound(acc as nat, i as nat, b);
        lemma_group_weight_step(i as nat);
        assert(group_weight((i + 1) as nat) <= group_weight(9)) by {
            if i + 1 < 9 {
                lemma_pow2_strictly_increases(7 * (i + 1) as nat, 63);
            }
        }
    } else {
        assert(sh == 63);
        assert(acc < 0x8000_0000_0000_0000u64 && x < 128 ==> (acc | (x << 63u64)) == acc + (x
            % 2) * 0x8000_0000_0000_0000u64) by (bit_vector);
        assert((acc as int + x as int * 0x8000_0000_0000_0000int) % 0x1_0000_0000_0000_0000int
            == acc as int + (x % 2) as int * 0x8000_0000_0000_0000int) by (nonlinear_arith)
            requires
                acc < 0x8000_0000_0000_0000u64,
                x < 128,
        ;
    }
}

/// The encoding of any value takes at least one byte, and a value below
/// `group_weight(k)` takes at most `k` bytes.
pub proof fn lemma_var_uint_len(v: nat, k: nat)
    requires
        k >= 1,
        v < group_weight(k),
    ensures
        1 <= var_uint_bytes(v).len() <= k,
    decreases v,
{
    if v >= 128 {
        lemma_group_weight_step((k - 1) as nat);
        assert(k >= 2) by {
            if k == 1 {
                assert(group_weight(1) == 128) by {
                    lemma_group_weight_step(0);
                    lemma2_to64();
                }
            }
        }
        assert(v / 128 < group_weight((k - 1) as nat)) by (nonlinear_arith)
            requires
                v < 128 * group_weight((k - 1) as nat),
        ;
        lemma_var_uint_len(v / 128, (k - 1) as nat);
    }
}

/// Every byte of an encoding but the last has its high bit set; the last does not.
pub proof fn lemma_var_uint_bytes_shape(v: nat)
    ensures
        var_uint_bytes(v).last() < 128,
        forall|j: int| 0 <= j < var_uint_bytes(v).len() - 1 ==> var_uint_bytes(v)[j] >= 128,
    decreases v,
{
    if v >= 128 {
        lemma_var_uint_bytes_shape(v / 128);
        let t = var_uint_bytes(v / 128);
        assert(var_uint_bytes(v) == seq![(v % 128 + 128) as u8] + t);
        assert forall|j: int| 0 <= j < var_uint_bytes(v).len() - 1 implies var_uint_bytes(v)[j]
            >= 128 by {
            if j > 0 {
                assert(var_uint_bytes(v)[j] == t[j - 1]);
            }
        }
    }
}

/// Reading the encoding of `v` placed at index `k` of `s` (after `k` groups
/// summing to `acc`) adds `v`'s weighted value and stops right after it.
proof fn lemma_read_encoded(s: Seq<u8>, k: nat, acc: nat, v: nat)
    requires
        k + var_uint_bytes(v).len() <= 10,
        k + var_uint_bytes(v).len() <= s.len(),
        s.subrange(k as int, (k + var_uint_bytes(v).len()) as int) == var_uint_bytes(v),
    ensures
        read_var_uint_from(s, k, acc) == (Ok::<nat, DecodeError>(acc + v * group_weight(k)), k
            + var_uint_bytes(v).len()),
    decreases v,
{
    let e = var_uint_bytes(v);
    assert(s[k as int] == e[0]);
    if v < 128 {
        assert(e == seq![v as u8]);
        assert((v as u8) % 128 == v);
    } else {
        let t = var_uint_bytes(v / 128);
        assert(e == seq![(v % 128 + 128) as u8] + t);
        assert(v / 128 < group_weight(1 + (v / 128))) by {
            lemma_pow_grows(1 + v / 128);
            lemma_group_weight_step(v / 128);
        }
        lemma_var_uint_len(v / 128, 1 + (v / 128));
        assert(s.subrange((k + 1) as int, (k + 1 + t.len()) as int) == t) by {
            assert forall|j: int| 0 <= j < t.len() implies s.subrange(
                (k + 1) as int,
                (k + 1 + t.len()) as int,
            )[j] == t[j] by {
                assert(s[k + 1 + j] == s.subrange(k as int, (k + e.len()) as int)[1 + j]);
                assert(e[1 + j] == t[j]);
            }
        }
        let b = s[k as int];
        assert(b == (v % 128 + 128) as u8);
        assert(b % 128 == v % 128);
        lemma_read_encoded(s, k + 1, acc + (v % 128) * group_weight(k), v / 128);
        lemma_group_weight_step(k);
        assert(acc + (v % 128) * group_weight(k) + (v / 128) * group_weight(k + 1) == acc + v
            * group_weight(k)) by (nonlinear_arith)
            requires
                group_weight(k + 1) == 128 * group_weight(k),
        ;
    }
}

/// `n` is below the weight of the group at position `n`.
proof fn lemma_pow_grows(n: nat)
    ensures
        n < group_weight(n),
    decreases n,
{
    if n == 0 {
        lemma2_to64();
    } else {
        lemma_pow_grows((n - 1) as nat);
        lemma_group_weight_step((n - 1) as nat);
    }
}

/// Decoding law of the var-uint: reading the encoding of `v`, whatever follows
/// it, gives back `v` and consumes exactly the encoding.
pub proof fn lemma_var_uint_roundtrip(v: u64, rest: Seq<u8>)
    ensures
        spec_read_var_uint(var_uint_bytes(v as nat) + rest) == (Ok::<u64, DecodeError>(v),
        var_uint_bytes(v as nat).len()),
        var_uint_bytes(v as nat).len() <= 10,
{
    let e = var_uint_bytes(v as nat);
    let s = e + rest;
    lemma_group_weight_values();
    lemma_var_uint_len(v as nat, 10);
    assert(s.subrange(0, e.len() as int) == e);
    lemma_read_encoded(s, 0, 0, v as nat);
    lemma2_to64();
    assert(group_weight(0) == 1);
    assert((v as nat) * group_weight(0) == v as nat) by (nonlinear_arith)
        requires
            group_weight(0) == 1,
    ;
    assert(read_var_uint_from(s, 0, 0) == (Ok::<nat, DecodeError>(v as nat), e.len()));
    assert((v as nat) % u64_modulus() == v as nat);
}

/// Decoding law of strings: reading the encoding of `s`, whatever follows it,
/// gives back `s` and consumes exactly the encoding.
pub proof fn lemma_var_string_roundtrip(s: Seq<char>, rest: Seq<u8>)
    requires
        encode_utf8(s).len() < u64_modulus(),
    ensures
        spec_read_var_string(var_string_bytes(s) + rest) == (Ok::<Seq<char>, DecodeError>(s),
        var_string_bytes(s).len()),
{
    let bytes = encode_utf8(s);
    let n = bytes.len();
    let prefix = var_uint_bytes(n);
    let all = var_string_bytes(s) + rest;
    assert(all == prefix + (bytes + rest));
    lemma_var_uint_roundtrip(n as u64, bytes + rest);
    assert(all.subrange(prefix.len() as int, (prefix.len() + n) as int) == bytes);
    encode_utf8_valid_utf8(s);
    encode_utf8_decode_utf8(s);
}

/// Decoding law of byte arrays: reading the encoding of `d`, whatever follows
/// it, gives back `d` and consumes exactly the encoding.
pub proof fn lemma_var_array_roundtrip(d: Seq<u8>, rest: Seq<u8>)
    requires
        d.len() < u64_modulus(),
    ensures
        spec_read_var_array(var_array_bytes(d) + rest) == (Ok::<Seq<u8>, DecodeError>(d),
        var_array_bytes(d).len()),
{
    let n = d.len();
    let prefix = var_uint_bytes(n);
    let all = var_array_bytes(d) + rest;
    assert(all == prefix + (d + rest));
    lemma_var_uint_roundtrip(n as u64, d + rest);
    assert(all.subrange(prefix.len() as int, (prefix.len() + n) as int) == d);
}

// ───────────── writing ─────────────

/// Appends the var-uint encoding of `value` to `buf`.
pub fn write_var_uint(buf: &mut Vec<u8>, value: u64)
    ensures
        final(buf)@ == old(buf)@ + var_uint_bytes(value as nat),
{
    let mut value = value;
    let ghost orig = value;
    loop
        invariant_except_break
            old(buf)@ + var_uint_bytes(orig as nat) == buf@ + var_uint_bytes(value as nat),
        ensures
            buf@ == old(buf)@ + var_uint_bytes(orig as nat),
        decreases value,
    {
        let ghost before = buf@;
        let mut byte = (value & 0x7F) as u8;
        let ghost v0 = value;
        value = value >> 7;
        assert((v0 & 0x7f) as u8 == v0 % 128 && (v0 >> 7) == v0 / 128) by (bit_vector);
        if value > 0 {
            assert(byte < 128 ==> (byte | 0x80) == byte + 128) by (bit_vector);
            byte = byte | 0x80;
        }
        buf.push(byte);
        if value == 0 {
            assert(var_uint_bytes(v0 as nat) == seq![byte]);
            assert(buf@ == before + var_uint_bytes(v0 as nat));
            break;
        }
        assert(var_uint_bytes(v0 as nat) == seq![byte] + var_uint_bytes(value as nat));
        assert(buf@ + var_uint_bytes(value as nat) == before + var_uint_bytes(v0 as nat));
    }
}

/// Appends the length-prefixed UTF-8 encoding of `s` to `buf`.
pub fn write_var_string(buf: &mut Vec<u8>, s: &str)
    ensures
        final(buf)@ == old(buf)@ + var_string_bytes(s@),
{
    let bytes = s.as_bytes();
    write_var_uint(buf, bytes.len() as u64);
    let ghost mid = buf@;
    buf.extend_from_slice(bytes);
    assert(buf@ =~= mid + bytes@);
}

/// Appends the length-prefixed bytes of `data` to `buf`.
pub fn write_var_uint8_array(buf: &mut Vec<u8>, data: &[u8])
    ensures
        final(buf)@ == old(buf)@ + var_array_bytes(data@),
{
    write_var_uint(buf, data.len() as u64);
    let ghost mid = buf@;
    buf.extend_from_slice(data);
    assert(buf@ =~= mid + data@);
}

// ───────────── reading ─────────────

/// The error of `std::str::from_utf8`, carried through and never inspected.
#[verifier::external_type_specification]
#[verifier::external_body]
pub struct ExUtf8Error(core::str::Utf8Error);

/// `std::str::from_utf8` succeeds exactly on valid UTF-8, and the string it
/// returns is made of the bytes it was given.
pub assume_specification<'a>[ core::str::from_utf8 ](v: &'a [u8]) -> (r: Result<
    &'a str,
    core::str::Utf8Error,
>)
    ensures
        r is Ok <==> valid_utf8(v@),
        r matches Ok(s) ==> s.spec_bytes() == v@,
;

/// A read cursor over borrowed bytes.
pub struct Decoder<'a> {
    data: &'a [u8],
    pos: usize,
}

impl<'a> Decoder<'a> {
    /// The bytes being decoded.
    pub closed spec fn data(&self) -> Seq<u8> {
        self.data@
    }

    /// The read position.
    pub closed spec fn pos(&self) -> nat {
        self.pos as nat
    }

    /// The bytes not yet read (none once the position is at or past the end).
    pub open spec fn rest(&self) -> Seq<u8> {
        if self.pos() <= self.data().len() {
            self.data().subrange(self.pos() as int, self.data().len() as int)
        } else {
            Seq::empty()
        }
    }

    /// A decoder at the start of `data`.
    pub fn new(data: &'a [u8]) -> (d: Self)
        ensures
            d.data() == data@,
            d.pos() == 0,
    {
        Self { data, pos: 0 }
    }

    /// The read position.
    pub fn position(&self) -> (p: usize)
        ensures
            p == self.pos(),
    {
        self.pos
    }

    /// Moves the read position to `pos` (which may lie past the end).
    pub fn set_position(&mut self, pos: usize)
        ensures
            final(self).data() == old(self).data(),
            final(self).pos() == pos,
    {
        self.pos = pos;
    }

    /// Whether bytes are left to read.
    pub fn has_content(&self) -> (b: bool)
        ensures
            b == (self.pos() < self.data().len()),
    {
        self.pos < self.data.len()
    }

    /// The bytes not yet read.
    pub fn remaining(&self) -> (r: &'a [u8])
        requires
            self.pos() <= self.data().len(),
        ensures
            r@ == self.rest(),
    {
        slice_subrange(self.data, self.pos, self.data.len())
    }

    /// Reads a var-uint: the sum of its seven-bit groups, truncated to 64
    /// bits. The position moves past every byte looked at, also on failure.
    pub fn read_var_uint(&mut self) -> (r: Result<u64, DecodeError>)
        ensures
            final(self).data() == old(self).data(),
            r == spec_read_var_uint(old(self).rest()).0,
            final(self).pos() == old(self).pos() + spec_read_var_uint(old(self).rest()).1,
    {
        let ghost s = self.rest();
        let ghost start = self.pos as nat;
        let mut result: u64 = 0;
        let mut shift: u32 = 0;
        let ghost mut i: nat = 0;
        let ghost mut acc: nat = 0;
        proof {
            lemma2_to64();
        }
        loop
            invariant
                self.data() == old(self).data(),
                start == old(self).pos(),
                s == old(self).rest(),
                i < 10,
                shift == 7 * i,
                self.pos() == start + i,
                start > self.data().len() ==> i == 0,
                acc < group_weight(i),
                result == acc,
                read_var_uint_from(s, 0, 0) == read_var_uint_from(s, i, acc),
            decreases 10 - i,
        {
            if self.pos >= self.data.len() {
                return Err(DecodeError::UnexpectedEnd);
            }
            let byte = self.data[self.pos];
            assert(byte == s[i as int]);
            self.pos = self.pos + 1;
            proof {
                lemma_accumulate(result, byte, shift / 7);
                lemma_read_bound(acc, i, byte);
                acc = acc + (byte % 128) as nat * group_weight(i);
            }
            result = result | (((byte & 0x7F) as u64) << shift);
            assert(byte & 0x80 == 0 <==> byte < 128) by (bit_vector);
            if byte & 0x80 == 0 {
                proof {
                    lemma_group_weight_values();
                    if i + 1 < 10 {
                        lemma_pow2_strictly_increases(7 * (i + 1), 70);
                    }
                }
                return Ok(result);
            }
            shift = shift + 7;
            if shift >= 64 {
                return Err(DecodeError::VarUintTooLarge);
            }
            proof {
                lemma_group_weight_values();
                if 7 * (i + 1) < 63 {
                    lemma_pow2_strictly_increases(7 * (i + 1), 63);
                }
                i = i + 1;
            }
        }
    }

    /// Reads a length-prefixed UTF-8 string. On failure the position is left
    /// after the length prefix.
    pub fn read_var_string(&mut self) -> (r: Result<String, DecodeError>)
        ensures
            final(self).data() == old(self).data(),
            match spec_read_var_string(old(self).rest()).0 {
                Ok(cs) => r is Ok && r->Ok_0@ == cs,
                Err(e) => r == Err::<String, DecodeError>(e),
            },
            final(self).pos() == old(self).pos() + spec_read_var_string(old(self).rest()).1,
    {
        proof {
            lemma_read_var_uint_from_consumed(self.rest(), 0, 0);
        }
        let len = self.read_var_uint()?;
        let avail = self.data.len() - self.pos;
        if len > avail as u64 {
            return Err(DecodeError::StringTruncated);
        }
        let len = len as usize;
        let bytes = slice_subrange(self.data, self.pos, self.pos + len);
        assert(bytes@ == old(self).rest().subrange(
            spec_read_var_uint(old(self).rest()).1 as int,
            spec_read_var_uint(old(self).rest()).1 + len,
        ));
        match core::str::from_utf8(bytes) {
            Ok(text) => {
                let s = text.to_string();
                proof {
                    vstd::string::to_string_from_display_ensures_for_str(text, s);
                    decode_utf8_encode_utf8(bytes@);
                    encode_utf8_decode_utf8(text@);
                }
                self.pos = self.pos + len;
                Ok(s)
            },
            Err(_) => Err(DecodeError::InvalidUtf8),
        }
    }

    /// Reads a length-prefixed byte array. On failure the position is left
    /// after the length prefix.
    pub fn read_var_uint8_array(&mut self) -> (r: Result<Vec<u8>, DecodeError>)
        ensures
            final(self).data() == old(self).data(),
            match spec_read_var_array(old(self).rest()).0 {
                Ok(d) => r is Ok && r->Ok_0@ == d,
                Err(e) => r == Err::<Vec<u8>, DecodeError>(e),
            },
            final(self).pos() == old(self).pos() + spec_read_var_array(old(self).rest()).1,
    {
        proof {
            lemma_read_var_uint_from_consumed(self.rest(), 0, 0);
        }
        let len = self.read_var_uint()?;
        let avail = self.data.len() - self.pos;
        if len > avail as u64 {
            return Err(DecodeError::ArrayTruncated);
        }
        let len = len as usize;
        let data = slice_to_vec(slice_subrange(self.data, self.pos, self.pos + len));
        self.pos = self.pos + len;
        Ok(data)
    }

    /// Reads a length-prefixed byte array without moving the position.
    pub fn peek_var_uint8_array(&mut self) -> (r: Result<Vec<u8>, DecodeError>)
        ensures
            final(self).data() == old(self).data(),
            final(self).pos() == old(self).pos(),
            match spec_read_var_array(old(self).rest()).0 {
                Ok(d) => r is Ok && r->Ok_0@ == d,
                Err(e) => r == Err::<Vec<u8>, DecodeError>(e),
            },
    {
        let saved_pos = self.pos;
        let result = self.read_var_uint8_array();
        self.pos = saved_pos;
        result
    }

    /// Fills `buf` with the next `buf.len()` bytes, or fails, reading nothing,
    /// when fewer are left.
    pub fn read_exact(&mut self, buf: &mut [u8]) -> (r: Result<(), DecodeError>)
        ensures
            final(self).data() == old(self).data(),
            old(self).pos() + old(buf)@.len() <= old(self).data().len() ==> {
                &&& r is Ok
                &&& final(buf)@ == old(self).rest().subrange(0, old(buf)@.len() as int)
                &&& final(self).pos() == old(self).pos() + old(buf)@.len()
            },
            old(self).pos() + old(buf)@.len() > old(self).data().len() ==> {
                &&& r == Err::<(), DecodeError>(DecodeError::NotEnoughData)
                &&& final(buf)@ == old(buf)@
                &&& final(self).pos() == old(self).pos()
            },
    {
        let n = buf.len();
        if self.pos > self.data.len() || n > self.data.len() - self.pos {
            return Err(DecodeError::NotEnoughData);
        }
        let total = self.data.len();
        let mut i: usize = 0;
        while i < n
            invariant
                total == self.data().len(),
                self.data() == old(self).data(),
                self.pos() == old(self).pos(),
                self.pos() + n <= self.data().len(),
                n == buf@.len(),
                n == old(buf)@.len(),
                i <= n,
                forall|j: int| 0 <= j < i ==> buf@[j] == self.data()[self.pos() + j],
            decreases n - i,
        {
            buf[i] = self.data[self.pos + i];
            i = i + 1;
        }
        assert(buf@ =~= old(self).rest().subrange(0, n as int));
        self.pos = self.pos + n;
        Ok(())
    }
}

} // verus!
