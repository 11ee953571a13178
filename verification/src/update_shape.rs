//! The shape of a v1-encoded document update, checked byte by byte before the
//! update is decoded and its state vector taken.
//!
//! An update lists client sections, each a count of blocks, a client id, a
//! starting clock and the blocks, and ends with a delete set. The check reads
//! that layout as the decoder does: variable-length integers of up to eleven
//! bytes whose bits wrap around as the decoder's do, block and content kinds,
//! nested values, deleted ranges. It accepts an update that the decoder reads
//! and takes the state vector of without a panic, with these exact bounds:
//! - every client section holds at least one block that decoding keeps (an
//!   item whose content is empty is dropped), so that every client listed has
//!   a last block; a client listed twice needs a kept block in each section;
//! - clocks stay in the 32-bit range: an item's end at most at the last clock,
//!   a skip's or a garbage-collected range's end one before it (its state
//!   vector entry counts one past it), a deleted range's end at most at it;
//! - a signed integer takes at most ten bytes, the longest the decoder shifts
//!   without overflow, and is not the negation of the smallest 64-bit integer;
//! - a count of values or ranges that is reserved ahead fits in the bytes that
//!   follow and is at most [`max_reserved`];
//! - every string is UTF-8, as the decoder takes it to be without checking;
//! - values nest at most [`MAX_NESTING`] levels deep, which bounds the depth
//!   of the decoder's recursion.
//!
//! An update outside these bounds is not handed to the decoder.
use vstd::prelude::*;
use vstd::slice::*;
use vstd::utf8::*;

verus! {

/// How deeply values may nest in one another inside an update: the
/// decoder reads nested values by recursion, one call per level.
pub const MAX_NESTING: u64 = 128;

/// The largest count of values or ranges that decoding may reserve room for
/// ahead: a 256th of the address space, so that the room, at most 128 bytes a
/// value, stays within what an allocation may ask for. On a 64-bit target no
/// update that fits in memory holds a larger count.
pub open spec fn max_reserved() -> nat {
    (usize::MAX / 256) as nat
}

/// The last clock value of the 32-bit range.
pub open spec fn clock_limit() -> nat {
    4294967295
}

// ───────────── integers ─────────────

/// A variable-length unsigned integer read as a 32-bit value, from its `k`-th
/// byte at `p` on, with the bits read so far in `acc`. Each byte carries
/// seven bits, low bits first, and a set top bit means another byte follows;
/// the `k`-th byte's bits are shifted left by `7 * k` taken modulo 32 and
/// or-ed in, bits past the 32nd being dropped. At most eleven bytes. Gives
/// the value and the position after it.
pub open spec fn var_u32_from(b: Seq<u8>, p: nat, k: nat, acc: u32) -> Option<(u32, nat)>
    decreases 11 - k,
{
    if k >= 11 || p >= b.len() {
        None
    } else {
        let acc2 = acc | (((b[p as int] % 128) as u32) << (((7 * k) % 32) as u32));
        if b[p as int] < 128 {
            Some((acc2, p + 1))
        } else {
            var_u32_from(b, p + 1, k + 1, acc2)
        }
    }
}

/// The variable-length unsigned integer at `p`, as a 32-bit value (see
/// [`var_u32_from`]).
pub open spec fn var_u32_at(b: Seq<u8>, p: nat) -> Option<(nat, nat)> {
    match var_u32_from(b, p, 0, 0) {
        Some(r) => Some((r.0 as nat, r.1)),
        None => None,
    }
}

/// A variable-length unsigned integer read as a 64-bit value, as
/// [`var_u32_from`] does with shifts taken modulo 64.
pub open spec fn var_u64_from(b: Seq<u8>, p: nat, k: nat, acc: u64) -> Option<(u64, nat)>
    decreases 11 - k,
{
    if k >= 11 || p >= b.len() {
        None
    } else {
        let acc2 = acc | (((b[p as int] % 128) as u64) << (((7 * k) % 64) as u64));
        if b[p as int] < 128 {
            Some((acc2, p + 1))
        } else {
            var_u64_from(b, p + 1, k + 1, acc2)
        }
    }
}

/// The variable-length unsigned integer at `p` read as a 64-bit value and
/// taken as a `usize`, as a count of values is.
pub open spec fn var_usize_at(b: Seq<u8>, p: nat) -> Option<(nat, nat)> {
    match var_u64_from(b, p, 0, 0) {
        Some(r) => Some(((r.0 as usize) as nat, r.1)),
        None => None,
    }
}

/// The bit pattern of the smallest 64-bit signed integer.
pub open spec fn i64_min_bits() -> u64 {
    0x8000_0000_0000_0000
}

/// The bytes of a variable-length signed integer after its first, from its
/// `j`-th such byte at `p` on, with the bits read so far in `acc`: each
/// carries seven bits, shifted left by `6 + 7 * j`, and a set top bit when
/// another follows. At most nine such bytes, so that no shift reaches 64 bits.
pub open spec fn var_int_tail(b: Seq<u8>, p: nat, j: nat, acc: u64) -> Option<(u64, nat)>
    decreases 9 - j,
{
    if j >= 9 || p >= b.len() {
        None
    } else {
        let acc2 = acc | (((b[p as int] % 128) as u64) << ((6 + 7 * j) as u64));
        if b[p as int] < 128 {
            Some((acc2, p + 1))
        } else {
            var_int_tail(b, p + 1, j + 1, acc2)
        }
    }
}

/// The end of the variable-length signed integer at `p`: its first byte
/// carries six bits, the sign (bit 6) and a set top bit when another byte
/// follows (see [`var_int_tail`]). A negative value whose magnitude is the
/// bit pattern of the smallest 64-bit integer cannot be negated, and is
/// refused.
pub open spec fn var_int_end(b: Seq<u8>, p: nat) -> Option<nat> {
    if p >= b.len() {
        None
    } else if b[p as int] < 128 {
        Some(p + 1)
    } else {
        match var_int_tail(b, p + 1, 0, (b[p as int] % 64) as u64) {
            Some(r) => if (b[p as int] / 64) % 2 == 1 && r.0 == i64_min_bits() {
                None
            } else {
                Some(r.1)
            },
            None => None,
        }
    }
}

/// The end of an id at `p`: a client and a clock, both variable-length.
pub open spec fn id_end(b: Seq<u8>, p: nat) -> Option<nat> {
    match var_u32_at(b, p) {
        Some(c) => match var_u32_at(b, c.1) {
            Some(k) => Some(k.1),
            None => None,
        },
        None => None,
    }
}

// ───────────── byte runs ─────────────

/// A run of bytes at `p`, written as its length and the bytes: where they
/// start and end.
pub open spec fn bytes_at(b: Seq<u8>, p: nat) -> Option<(nat, nat)> {
    match var_u32_at(b, p) {
        Some(n) => if n.1 + n.0 <= b.len() {
            Some((n.1, n.1 + n.0))
        } else {
            None
        },
        None => None,
    }
}

/// A string at `p`: a run of bytes that is UTF-8.
pub open spec fn string_at(b: Seq<u8>, p: nat) -> Option<(nat, nat)> {
    match bytes_at(b, p) {
        Some(r) => if valid_utf8(b.subrange(r.0 as int, r.1 as int)) {
            Some(r)
        } else {
            None
        },
        None => None,
    }
}

/// The number of UTF-16 code units of the UTF-8 text `s`: one for each byte
/// that starts a character, and one more for each that starts a four-byte
/// one.
pub open spec fn utf16_units(s: Seq<u8>) -> nat
    decreases s.len(),
{
    if s.len() == 0 {
        0
    } else {
        utf16_units(s.drop_last()) + (if s.last() < 128 || s.last() >= 192 {
            1nat
        } else {
            0nat
        }) + (if s.last() >= 240 {
            1nat
        } else {
            0nat
        })
    }
}

// ───────────── values ─────────────

/// The end of the value at `p`, nested at most `depth` levels below it. A
/// tag byte tells its kind: undefined, null and the booleans end there; an
/// integer is variable-length; floats and big integers take four or eight
/// bytes; strings and buffers are byte runs; arrays and maps give their size,
/// which must fit in the bytes that follow, then their elements.
pub open spec fn any_end(b: Seq<u8>, p: nat, depth: nat) -> Option<nat>
    decreases depth, 0nat,
{
    if p >= b.len() {
        None
    } else {
        let t = b[p as int];
        let q = p + 1;
        if t == 127 || t == 126 || t == 121 || t == 120 {
            Some(q)
        } else if t == 125 {
            var_int_end(b, q)
        } else if t == 124 {
            if q + 4 <= b.len() {
                Some(q + 4)
            } else {
                None
            }
        } else if t == 123 || t == 122 {
            if q + 8 <= b.len() {
                Some(q + 8)
            } else {
                None
            }
        } else if t == 119 {
            match string_at(b, q) {
                Some(r) => Some(r.1),
                None => None,
            }
        } else if t == 116 {
            match bytes_at(b, q) {
                Some(r) => Some(r.1),
                None => None,
            }
        } else if (t == 117 || t == 118) && depth > 0 {
            match var_usize_at(b, q) {
                Some(n) => if n.0 + n.1 <= b.len() && n.0 <= max_reserved() {
                    if t == 117 {
                        anys_end(b, n.1, n.0, (depth - 1) as nat)
                    } else {
                        entries_end(b, n.1, n.0, (depth - 1) as nat)
                    }
                } else {
                    None
                },
                None => None,
            }
        } else {
            None
        }
    }
}

/// The end of `n` values in a row from `p`.
pub open spec fn anys_end(b: Seq<u8>, p: nat, n: nat, depth: nat) -> Option<nat>
    decreases depth, n,
{
    if n == 0 {
        Some(p)
    } else {
        match any_end(b, p, depth) {
            Some(q) => anys_end(b, q, (n - 1) as nat, depth),
            None => None,
        }
    }
}

/// The end of `n` map entries in a row from `p`, each a string key and a
/// value.
pub open spec fn entries_end(b: Seq<u8>, p: nat, n: nat, depth: nat) -> Option<nat>
    decreases depth, n,
{
    if n == 0 {
        Some(p)
    } else {
        match string_at(b, p) {
            Some(k) => match any_end(b, k.1, depth) {
                Some(q) => entries_end(b, q, (n - 1) as nat, depth),
                None => None,
            },
            None => None,
        }
    }
}

// ───────────── blocks ─────────────

/// The end of `n` strings in a row from `p`.
pub open spec fn strings_end(b: Seq<u8>, p: nat, n: nat) -> Option<nat>
    decreases n,
{
    if n == 0 {
        Some(p)
    } else {
        match string_at(b, p) {
            Some(r) => strings_end(b, r.1, (n - 1) as nat),
            None => None,
        }
    }
}

/// The end of a type reference at `p`: a kind byte, and for an XML element
/// its name. Kinds: array, map, text, XML element, fragment, hook and text,
/// sub-document, undefined.
pub open spec fn type_ref_end(b: Seq<u8>, p: nat) -> Option<nat> {
    if p >= b.len() {
        None
    } else {
        let t = b[p as int];
        if t == 3 {
            match string_at(b, p + 1) {
                Some(r) => Some(r.1),
                None => None,
            }
        } else if t == 0 || t == 1 || t == 2 || t == 4 || t == 5 || t == 6 || t == 9 || t == 15 {
            Some(p + 1)
        } else {
            None
        }
    }
}

/// The end of a move at `p`: flags, a start id and, unless the flags' lowest
/// bit marks it collapsed, an end id.
pub open spec fn move_end(b: Seq<u8>, p: nat) -> Option<nat> {
    match var_int_end(b, p) {
        Some(q) => match id_end(b, q) {
            Some(r) => if b[p as int] % 2 == 1 {
                Some(r)
            } else {
                id_end(b, r)
            },
            None => None,
        },
        None => None,
    }
}

/// The content of kind `kind` at `p`: where it ends and the length it gives
/// its item. Kinds: deleted (a length), JSON (a count `n` and `n + 1`
/// strings), binary, string (its UTF-16 length), embed, format (a key and a
/// value), type, values (a count and the values), sub-document (an id and
/// options), move.
pub open spec fn content_at(b: Seq<u8>, p: nat, kind: nat) -> Option<(nat, nat)> {
    if kind == 1 {
        match var_u32_at(b, p) {
            Some(n) => Some((n.1, n.0)),
            None => None,
        }
    } else if kind == 2 {
        match var_u32_at(b, p) {
            Some(n) => if n.0 < 2147483648 {
                match strings_end(b, n.1, n.0 + 1) {
                    Some(e) => Some((e, n.0 + 1)),
                    None => None,
                }
            } else {
                None
            },
            None => None,
        }
    } else if kind == 3 {
        match bytes_at(b, p) {
            Some(r) => Some((r.1, 1)),
            None => None,
        }
    } else if kind == 4 {
        match string_at(b, p) {
            Some(r) => Some((r.1, utf16_units(b.subrange(r.0 as int, r.1 as int)))),
            None => None,
        }
    } else if kind == 5 {
        match string_at(b, p) {
            Some(r) => Some((r.1, 1)),
            None => None,
        }
    } else if kind == 6 {
        match string_at(b, p) {
            Some(k) => match string_at(b, k.1) {
                Some(r) => Some((r.1, 1)),
                None => None,
            },
            None => None,
        }
    } else if kind == 7 {
        match type_ref_end(b, p) {
            Some(e) => Some((e, 1)),
            None => None,
        }
    } else if kind == 8 {
        match var_u32_at(b, p) {
            Some(n) => match anys_end(b, n.1, n.0, MAX_NESTING as nat) {
                Some(e) => Some((e, n.0)),
                None => None,
            },
            None => None,
        }
    } else if kind == 9 {
        match string_at(b, p) {
            Some(g) => match any_end(b, g.1, MAX_NESTING as nat) {
                Some(e) => Some((e, 1)),
                None => None,
            },
            None => None,
        }
    } else if kind == 11 {
        match move_end(b, p) {
            Some(e) => Some((e, 1)),
            None => None,
        }
    } else {
        None
    }
}

/// What precedes an item's content after its info byte `info`: a left
/// origin id when the top bit is set, a right origin id when the next is, and
/// when neither is set, a parent (a name when a number 1 comes first,
/// otherwise an id) and, when bit 5 is set, a key in the parent.
pub open spec fn item_head_end(b: Seq<u8>, p: nat, info: u8) -> Option<nat> {
    let has_origin = info >= 128;
    let has_right = (info / 64) % 2 == 1;
    let has_sub = (info / 32) % 2 == 1;
    let p1 = if has_origin {
        id_end(b, p)
    } else {
        Some(p)
    };
    let p2 = match p1 {
        Some(q) => if has_right {
            id_end(b, q)
        } else {
            Some(q)
        },
        None => None,
    };
    if has_origin || has_right {
        p2
    } else {
        let p3 = match p2 {
            Some(q) => match var_u32_at(b, q) {
                Some(pi) => if pi.0 == 1 {
                    match string_at(b, pi.1) {
                        Some(r) => Some(r.1),
                        None => None,
                    }
                } else {
                    id_end(b, pi.1)
                },
                None => None,
            },
            None => None,
        };
        match p3 {
            Some(q) => if has_sub {
                match string_at(b, q) {
                    Some(r) => Some(r.1),
                    None => None,
                }
            } else {
                Some(q)
            },
            None => None,
        }
    }
}

/// The block at `p`: where it ends, the clock length it covers, whether
/// decoding keeps it, and the clock room it needs past its length. An info
/// byte of 10 marks a skip and 0 a garbage-collected range, each a length,
/// always kept, and needing one clock more, since the state vector counts one
/// past such a range's end; any other starts an item, kept when its content
/// is not empty.
pub open spec fn block_at(b: Seq<u8>, p: nat) -> Option<(nat, nat, bool, nat)> {
    if p >= b.len() {
        None
    } else {
        let info = b[p as int];
        if info == 10 || info == 0 {
            match var_u32_at(b, p + 1) {
                Some(n) => Some((n.1, n.0, true, 1)),
                None => None,
            }
        } else {
            match item_head_end(b, p + 1, info) {
                Some(q) => match content_at(b, q, (info % 16) as nat) {
                    Some(c) => Some((c.0, c.1, c.1 > 0, 0)),
                    None => None,
                },
                None => None,
            }
        }
    }
}

/// `n` blocks in a row from `p`, the first at clock `clock`, after blocks of
/// which some were kept when `kept`: where they end and whether any was kept.
/// Each block, with the room it needs past its length, must fit in the 32-bit
/// range of clocks.
pub open spec fn blocks_end(b: Seq<u8>, p: nat, n: nat, clock: nat, kept: bool) -> Option<(nat, bool)>
    decreases n,
{
    if n == 0 {
        Some((p, kept))
    } else {
        match block_at(b, p) {
            Some(r) => if clock + r.1 + r.3 <= clock_limit() {
                blocks_end(b, r.0, (n - 1) as nat, clock + r.1, kept || r.2)
            } else {
                None
            },
            None => None,
        }
    }
}

/// The end of the client section at `p`: a block count, a client, a starting
/// clock and the blocks, of which one at least is kept.
pub open spec fn section_end(b: Seq<u8>, p: nat) -> Option<nat> {
    match var_u32_at(b, p) {
        Some(n) => match var_u32_at(b, n.1) {
            Some(c) => match var_u32_at(b, c.1) {
                Some(k) => match blocks_end(b, k.1, n.0, k.0, false) {
                    Some(e) => if e.1 {
                        Some(e.0)
                    } else {
                        None
                    },
                    None => None,
                },
                None => None,
            },
            None => None,
        },
        None => None,
    }
}

/// The end of `n` client sections in a row from `p`.
pub open spec fn sections_end(b: Seq<u8>, p: nat, n: nat) -> Option<nat>
    decreases n,
{
    if n == 0 {
        Some(p)
    } else {
        match section_end(b, p) {
            Some(q) => sections_end(b, q, (n - 1) as nat),
            None => None,
        }
    }
}

// ───────────── the delete set ─────────────

/// The end of a deleted range at `p`: a clock and a length that does not run
/// past the 32-bit range.
pub open spec fn range_end(b: Seq<u8>, p: nat) -> Option<nat> {
    match var_u32_at(b, p) {
        Some(c) => match var_u32_at(b, c.1) {
            Some(l) => if c.0 + l.0 <= clock_limit() {
                Some(l.1)
            } else {
                None
            },
            None => None,
        },
        None => None,
    }
}

/// The end of `n` deleted ranges in a row from `p`.
pub open spec fn ranges_end(b: Seq<u8>, p: nat, n: nat) -> Option<nat>
    decreases n,
{
    if n == 0 {
        Some(p)
    } else {
        match range_end(b, p) {
            Some(q) => ranges_end(b, q, (n - 1) as nat),
            None => None,
        }
    }
}

/// The end of the deleted ranges of one client at `p`: the client, a count,
/// and the ranges. A count other than 1 is reserved ahead, so it must fit in
/// the bytes that follow.
pub open spec fn deleted_client_end(b: Seq<u8>, p: nat) -> Option<nat> {
    match var_u32_at(b, p) {
        Some(c) => match var_u32_at(b, c.1) {
            Some(m) => if m.0 == 1 {
                range_end(b, m.1)
            } else if m.0 + m.1 <= b.len() && m.0 <= max_reserved() {
                ranges_end(b, m.1, m.0)
            } else {
                None
            },
            None => None,
        },
        None => None,
    }
}

/// The end of `n` clients' deleted ranges in a row from `p`.
pub open spec fn deleted_clients_end(b: Seq<u8>, p: nat, n: nat) -> Option<nat>
    decreases n,
{
    if n == 0 {
        Some(p)
    } else {
        match deleted_client_end(b, p) {
            Some(q) => deleted_clients_end(b, q, (n - 1) as nat),
            None => None,
        }
    }
}

/// The end of the delete set at `p`: a client count and each client's ranges.
pub open spec fn delete_set_end(b: Seq<u8>, p: nat) -> Option<nat> {
    match var_u32_at(b, p) {
        Some(n) => deleted_clients_end(b, n.1, n.0),
        None => None,
    }
}

/// Whether `b` has the shape of an update that decoding and taking its state
/// vector can handle (see the module's documentation): a section count, the
/// sections and the delete set; what follows is not read.
pub open spec fn update_shape_ok(b: Seq<u8>) -> bool {
    match var_u32_at(b, 0) {
        Some(n) => match sections_end(b, n.1, n.0) {
            Some(e) => delete_set_end(b, e) is Some,
            None => false,
        },
        None => false,
    }
}

/// Client sections read one after the other: `n + m` sections from `p` end
/// where `m` sections end that start where the first `n` end, and do not
/// read when the first `n` do not.
pub proof fn lemma_sections_compose(b: Seq<u8>, p: nat, n: nat, m: nat)
    ensures
        match sections_end(b, p, n) {
            Some(q) => sections_end(b, p, n + m) == sections_end(b, q, m),
            None => sections_end(b, p, n + m) is None,
        },
    decreases n,
{
    if n > 0 {
        match section_end(b, p) {
            Some(q) => {
                lemma_sections_compose(b, q, (n - 1) as nat, m);
                assert((n + m - 1) as nat == (n - 1) as nat + m);
            },
            None => {},
        }
    }
}

/// The check does not depend on how many clients an update lists: an update
/// whose section count `n` is followed by `n` sections that each read, and
/// then by a delete set that reads, has a readable shape, whatever `n` is.
pub proof fn lemma_any_number_of_sections(b: Seq<u8>, n: nat, p: nat, e: nat)
    requires
        var_u32_at(b, 0) == Some((n, p)),
        sections_end(b, p, n) == Some(e),
        delete_set_end(b, e) is Some,
    ensures
        update_shape_ok(b),
{
}

/// Each client section of an update is read on its own: an update whose
/// first `n` sections read and end at `q`, followed by one more section that
/// reads and ends at `r`, then a delete set that reads, has a readable shape
/// when its count says `n + 1`.
pub proof fn lemma_one_more_section(b: Seq<u8>, p: nat, n: nat, q: nat, r: nat)
    requires
        var_u32_at(b, 0) == Some((n + 1, p)),
        sections_end(b, p, n) == Some(q),
        section_end(b, q) == Some(r),
        delete_set_end(b, r) is Some,
    ensures
        update_shape_ok(b),
{
    lemma_sections_compose(b, p, n, 1);
    assert(sections_end(b, r, 0) == Some(r));
    assert(sections_end(b, q, 1) == sections_end(b, r, 0));
}

// ───────────── the check ─────────────

/// Reads a variable-length unsigned integer as a 32-bit value (see
/// [`var_u32_from`]).
fn read_var_u32(b: &[u8], p: usize, k: usize, acc: u32) -> (r: Option<(u32, usize)>)
    requires
        k <= 11,
    ensures
        match r {
            Some((v, q)) => var_u32_from(b@, p as nat, k as nat, acc) == Some((v, q as nat)) && q
                <= b@.len(),
            None => var_u32_from(b@, p as nat, k as nat, acc) is None,
        },
    decreases 11 - k,
{
    if k >= 11 || p >= b.len() {
        return None;
    }
    let byte = b[p];
    let acc2 = acc | (((byte % 128) as u32) << (((7 * k) % 32) as u32));
    if byte < 128 {
        Some((acc2, p + 1))
    } else {
        read_var_u32(b, p + 1, k + 1, acc2)
    }
}

/// Reads the variable-length unsigned integer at `p` as a 32-bit value (see
/// [`var_u32_at`]).
fn read_u32_at(b: &[u8], p: usize) -> (r: Option<(u64, usize)>)
    ensures
        match r {
            Some((v, q)) => var_u32_at(b@, p as nat) == Some((v as nat, q as nat)) && q <= b@.len()
                && v < 4294967296,
            None => var_u32_at(b@, p as nat) is None,
        },
{
    match read_var_u32(b, p, 0, 0) {
        Some((v, q)) => Some((v as u64, q)),
        None => None,
    }
}

/// Reads a variable-length unsigned integer as a 64-bit value (see
/// [`var_u64_from`]).
fn read_var_u64(b: &[u8], p: usize, k: usize, acc: u64) -> (r: Option<(u64, usize)>)
    requires
        k <= 11,
    ensures
        match r {
            Some((v, q)) => var_u64_from(b@, p as nat, k as nat, acc) == Some((v, q as nat)) && q
                <= b@.len(),
            None => var_u64_from(b@, p as nat, k as nat, acc) is None,
        },
    decreases 11 - k,
{
    if k >= 11 || p >= b.len() {
        return None;
    }
    let byte = b[p];
    let acc2 = acc | (((byte % 128) as u64) << (((7 * k) % 64) as u64));
    if byte < 128 {
        Some((acc2, p + 1))
    } else {
        read_var_u64(b, p + 1, k + 1, acc2)
    }
}

/// Reads the variable-length unsigned integer at `p` as a count (see
/// [`var_usize_at`]).
fn read_usize_at(b: &[u8], p: usize) -> (r: Option<(usize, usize)>)
    ensures
        match r {
            Some((v, q)) => var_usize_at(b@, p as nat) == Some((v as nat, q as nat)) && q <= b@.len(),
            None => var_usize_at(b@, p as nat) is None,
        },
{
    match read_var_u64(b, p, 0, 0) {
        Some((v, q)) => Some((v as usize, q)),
        None => None,
    }
}

/// Reads the bytes of a variable-length signed integer after its first (see
/// [`var_int_tail`]).
fn read_var_int_tail(b: &[u8], p: usize, j: usize, acc: u64) -> (r: Option<(u64, usize)>)
    requires
        j <= 9,
    ensures
        match r {
            Some((v, q)) => var_int_tail(b@, p as nat, j as nat, acc) == Some((v, q as nat)) && q
                <= b@.len(),
            None => var_int_tail(b@, p as nat, j as nat, acc) is None,
        },
    decreases 9 - j,
{
    if j >= 9 || p >= b.len() {
        return None;
    }
    let byte = b[p];
    let acc2 = acc | (((byte % 128) as u64) << ((6 + 7 * j) as u64));
    if byte < 128 {
        Some((acc2, p + 1))
    } else {
        read_var_int_tail(b, p + 1, j + 1, acc2)
    }
}

/// Skips a variable-length signed integer (see [`var_int_end`]).
fn skip_var_int(b: &[u8], p: usize) -> (r: Option<usize>)
    ensures
        match r {
            Some(q) => var_int_end(b@, p as nat) == Some(q as nat) && q <= b@.len(),
            None => var_int_end(b@, p as nat) is None,
        },
{
    if p >= b.len() {
        return None;
    }
    let first = b[p];
    if first < 128 {
        return Some(p + 1);
    }
    match read_var_int_tail(b, p + 1, 0, (first % 64) as u64) {
        Some((v, q)) => {
            if (first / 64) % 2 == 1 && v == 0x8000_0000_0000_0000 {
                None
            } else {
                Some(q)
            }
        },
        None => None,
    }
}

/// Skips an id (see [`id_end`]).
fn skip_id(b: &[u8], p: usize) -> (r: Option<usize>)
    ensures
        match r {
            Some(q) => id_end(b@, p as nat) == Some(q as nat) && q <= b@.len(),
            None => id_end(b@, p as nat) is None,
        },
{
    match read_u32_at(b, p) {
        Some((_, c)) => match read_u32_at(b, c) {
            Some((_, k)) => Some(k),
            None => None,
        },
        None => None,
    }
}

/// Finds the run of bytes at `p` (see [`bytes_at`]).
fn find_bytes(b: &[u8], p: usize) -> (r: Option<(usize, usize)>)
    ensures
        match r {
            Some((s, e)) => bytes_at(b@, p as nat) == Some((s as nat, e as nat)) && s <= e <= b@.len()
                && e - s < 4294967296,
            None => bytes_at(b@, p as nat) is None,
        },
{
    match read_u32_at(b, p) {
        Some((n, q)) => {
            if n <= (b.len() - q) as u64 {
                Some((q, q + n as usize))
            } else {
                None
            }
        },
        None => None,
    }
}

/// Finds the string at `p` (see [`string_at`]).
fn find_string(b: &[u8], p: usize) -> (r: Option<(usize, usize)>)
    ensures
        match r {
            Some((s, e)) => string_at(b@, p as nat) == Some((s as nat, e as nat)) && s <= e <= b@.len()
                && e - s < 4294967296,
            None => string_at(b@, p as nat) is None,
        },
{
    match find_bytes(b, p) {
        Some((s, e)) => {
            let run = slice_subrange(b, s, e);
            match core::str::from_utf8(run) {
                Ok(_) => Some((s, e)),
                Err(_) => None,
            }
        },
        None => None,
    }
}

/// Skips the string at `p`.
fn skip_string(b: &[u8], p: usize) -> (r: Option<usize>)
    ensures
        match r {
            Some(e) => string_at(b@, p as nat) matches Some(x) && x.1 == e && e <= b@.len(),
            None => string_at(b@, p as nat) is None,
        },
{
    match find_string(b, p) {
        Some((_, e)) => Some(e),
        None => None,
    }
}

/// The number of UTF-16 code units of the bytes from `s` to `e` (see
/// [`utf16_units`]).
fn count_utf16(b: &[u8], s: usize, e: usize) -> (n: u64)
    requires
        s <= e <= b@.len(),
        e - s < 4294967296,
    ensures
        n as nat == utf16_units(b@.subrange(s as int, e as int)),
        n <= 2 * (e - s),
{
    let mut n: u64 = 0;
    let mut i = s;
    assert(b@.subrange(s as int, s as int).len() == 0);
    while i < e
        invariant
            s <= i <= e <= b@.len(),
            e - s < 4294967296,
            n as nat == utf16_units(b@.subrange(s as int, i as int)),
            n <= 2 * (i - s),
        decreases e - i,
    {
        let c = b[i];
        proof {
            let t = b@.subrange(s as int, i + 1);
            assert(t.drop_last() =~= b@.subrange(s as int, i as int));
            assert(t.last() == c);
        }
        if c < 128 || c >= 192 {
            n = n + 1;
        }
        if c >= 240 {
            n = n + 1;
        }
        i = i + 1;
    }
    n
}

/// Skips the value at `p`, nested at most `depth` levels (see [`any_end`]).
fn skip_any(b: &[u8], p: usize, depth: u64) -> (r: Option<usize>)
    ensures
        match r {
            Some(e) => any_end(b@, p as nat, depth as nat) == Some(e as nat) && e <= b@.len(),
            None => any_end(b@, p as nat, depth as nat) is None,
        },
    decreases depth,
{
    if p >= b.len() {
        return None;
    }
    let t = b[p];
    let q = p + 1;
    if t == 127 || t == 126 || t == 121 || t == 120 {
        Some(q)
    } else if t == 125 {
        skip_var_int(b, q)
    } else if t == 124 {
        if 4 <= b.len() - q {
            Some(q + 4)
        } else {
            None
        }
    } else if t == 123 || t == 122 {
        if 8 <= b.len() - q {
            Some(q + 8)
        } else {
            None
        }
    } else if t == 119 {
        skip_string(b, q)
    } else if t == 116 {
        match find_bytes(b, q) {
            Some((_, e)) => Some(e),
            None => None,
        }
    } else if (t == 117 || t == 118) && depth > 0 {
        match read_usize_at(b, q) {
            Some((n, r0)) => {
                if n > b.len() - r0 || n > usize::MAX / 256 {
                    return None;
                }
                let d1 = depth - 1;
                let mut cur = r0;
                let mut i: usize = 0;
                assert(any_end(b@, p as nat, depth as nat) == if t == 117 {
                    anys_end(b@, r0 as nat, n as nat, d1 as nat)
                } else {
                    entries_end(b@, r0 as nat, n as nat, d1 as nat)
                });
                while i < n
                    invariant
                        cur <= b@.len(),
                        i <= n,
                        d1 < depth,
                        t == 117 || t == 118,
                        any_end(b@, p as nat, depth as nat) == if t == 117 {
                            anys_end(b@, r0 as nat, n as nat, d1 as nat)
                        } else {
                            entries_end(b@, r0 as nat, n as nat, d1 as nat)
                        },
                        t == 117 ==> anys_end(b@, r0 as nat, n as nat, d1 as nat) == anys_end(
                            b@,
                            cur as nat,
                            (n - i) as nat,
                            d1 as nat,
                        ),
                        t == 118 ==> entries_end(b@, r0 as nat, n as nat, d1 as nat) == entries_end(
                            b@,
                            cur as nat,
                            (n - i) as nat,
                            d1 as nat,
                        ),
                    decreases n - i,
                {
                    let mut at = cur;
                    if t == 118 {
                        match skip_string(b, cur) {
                            Some(e) => {
                                at = e;
                            },
                            None => {
                                return None;
                            },
                        }
                    }
                    match skip_any(b, at, d1) {
                        Some(e) => {
                            cur = e;
                        },
                        None => {
                            return None;
                        },
                    }
                    i = i + 1;
                }
                Some(cur)
            },
            None => None,
        }
    } else {
        None
    }
}

/// Skips `n` strings in a row (see [`strings_end`]).
fn skip_strings(b: &[u8], p: usize, n: u64) -> (r: Option<usize>)
    requires
        p <= b@.len(),
    ensures
        match r {
            Some(e) => strings_end(b@, p as nat, n as nat) == Some(e as nat) && e <= b@.len(),
            None => strings_end(b@, p as nat, n as nat) is None,
        },
{
    let mut cur = p;
    let mut i: u64 = 0;
    while i < n
        invariant
            i <= n,
            cur <= b@.len(),
            strings_end(b@, p as nat, n as nat) == strings_end(b@, cur as nat, (n - i) as nat),
        decreases n - i,
    {
        match skip_string(b, cur) {
            Some(e) => {
                cur = e;
            },
            None => {
                return None;
            },
        }
        i = i + 1;
    }
    Some(cur)
}

/// Skips a type reference (see [`type_ref_end`]).
fn skip_type_ref(b: &[u8], p: usize) -> (r: Option<usize>)
    ensures
        match r {
            Some(e) => type_ref_end(b@, p as nat) == Some(e as nat) && e <= b@.len(),
            None => type_ref_end(b@, p as nat) is None,
        },
{
    if p >= b.len() {
        return None;
    }
    let t = b[p];
    if t == 3 {
        skip_string(b, p + 1)
    } else if t == 0 || t == 1 || t == 2 || t == 4 || t == 5 || t == 6 || t == 9 || t == 15 {
        Some(p + 1)
    } else {
        None
    }
}

/// Skips a move (see [`move_end`]).
fn skip_move(b: &[u8], p: usize) -> (r: Option<usize>)
    ensures
        match r {
            Some(e) => move_end(b@, p as nat) == Some(e as nat) && e <= b@.len(),
            None => move_end(b@, p as nat) is None,
        },
{
    match skip_var_int(b, p) {
        Some(q) => match skip_id(b, q) {
            Some(r) => {
                if b[p] % 2 == 1 {
                    Some(r)
                } else {
                    skip_id(b, r)
                }
            },
            None => None,
        },
        None => None,
    }
}

/// Reads the content of kind `kind` at `p` (see [`content_at`]).
fn read_content(b: &[u8], p: usize, kind: u8) -> (r: Option<(usize, u64)>)
    ensures
        match r {
            Some((e, l)) => content_at(b@, p as nat, kind as nat) == Some((e as nat, l as nat)) && e
                <= b@.len() && l < 8589934592,
            None => content_at(b@, p as nat, kind as nat) is None,
        },
{
    if kind == 1 {
        match read_u32_at(b, p) {
            Some((n, q)) => Some((q, n)),
            None => None,
        }
    } else if kind == 2 {
        match read_u32_at(b, p) {
            Some((n, q)) => {
                if n < 2147483648 {
                    match skip_strings(b, q, n + 1) {
                        Some(e) => Some((e, n + 1)),
                        None => None,
                    }
                } else {
                    None
                }
            },
            None => None,
        }
    } else if kind == 3 {
        match find_bytes(b, p) {
            Some((_, e)) => Some((e, 1)),
            None => None,
        }
    } else if kind == 4 {
        match find_string(b, p) {
            Some((s, e)) => Some((e, count_utf16(b, s, e))),
            None => None,
        }
    } else if kind == 5 {
        match skip_string(b, p) {
            Some(e) => Some((e, 1)),
            None => None,
        }
    } else if kind == 6 {
        match skip_string(b, p) {
            Some(k) => match skip_string(b, k) {
                Some(e) => Some((e, 1)),
                None => None,
            },
            None => None,
        }
    } else if kind == 7 {
        match skip_type_ref(b, p) {
            Some(e) => Some((e, 1)),
            None => None,
        }
    } else if kind == 8 {
        match read_u32_at(b, p) {
            Some((n, q)) => {
                let mut cur = q;
                let mut i: u64 = 0;
                while i < n
                    invariant
                        i <= n,
                        cur <= b@.len(),
                        content_at(b@, p as nat, kind as nat) == match anys_end(
                            b@,
                            q as nat,
                            n as nat,
                            MAX_NESTING as nat,
                        ) {
                            Some(e) => Some((e, n as nat)),
                            None => None,
                        },
                        anys_end(b@, q as nat, n as nat, MAX_NESTING as nat) == anys_end(
                            b@,
                            cur as nat,
                            (n - i) as nat,
                            MAX_NESTING as nat,
                        ),
                    decreases n - i,
                {
                    match skip_any(b, cur, MAX_NESTING) {
                        Some(e) => {
                            cur = e;
                        },
                        None => {
                            return None;
                        },
                    }
                    i = i + 1;
                }
                Some((cur, n))
            },
            None => None,
        }
    } else if kind == 9 {
        match skip_string(b, p) {
            Some(g) => match skip_any(b, g, MAX_NESTING) {
                Some(e) => Some((e, 1)),
                None => None,
            },
            None => None,
        }
    } else if kind == 11 {
        match skip_move(b, p) {
            Some(e) => Some((e, 1)),
            None => None,
        }
    } else {
        None
    }
}

/// Skips what precedes an item's content (see [`item_head_end`]).
fn skip_item_head(b: &[u8], p: usize, info: u8) -> (r: Option<usize>)
    ensures
        match r {
            Some(e) => item_head_end(b@, p as nat, info) == Some(e as nat) && e <= b@.len(),
            None => item_head_end(b@, p as nat, info) is None,
        },
{
    let has_origin = info >= 128;
    let has_right = (info / 64) % 2 == 1;
    let has_sub = (info / 32) % 2 == 1;
    let mut q = p;
    if has_origin {
        match skip_id(b, q) {
            Some(e) => {
                q = e;
            },
            None => {
                return None;
            },
        }
    }
    if has_right {
        match skip_id(b, q) {
            Some(e) => {
                q = e;
            },
            None => {
                return None;
            },
        }
    }
    if has_origin || has_right {
        return Some(q);
    }
    match read_u32_at(b, q) {
        Some((pi, r)) => {
            if pi == 1 {
                match skip_string(b, r) {
                    Some(e) => {
                        q = e;
                    },
                    None => {
                        return None;
                    },
                }
            } else {
                match skip_id(b, r) {
                    Some(e) => {
                        q = e;
                    },
                    None => {
                        return None;
                    },
                }
            }
        },
        None => {
            return None;
        },
    }
    if has_sub {
        skip_string(b, q)
    } else {
        Some(q)
    }
}

/// Reads the block at `p` (see [`block_at`]).
fn read_block(b: &[u8], p: usize) -> (r: Option<(usize, u64, bool, u64)>)
    ensures
        match r {
            Some((e, l, k, x)) => block_at(b@, p as nat) == Some((e as nat, l as nat, k, x as nat))
                && e <= b@.len() && l < 8589934592 && x <= 1,
            None => block_at(b@, p as nat) is None,
        },
{
    if p >= b.len() {
        return None;
    }
    let info = b[p];
    if info == 10 || info == 0 {
        match read_u32_at(b, p + 1) {
            Some((n, q)) => Some((q, n, true, 1)),
            None => None,
        }
    } else {
        match skip_item_head(b, p + 1, info) {
            Some(q) => match read_content(b, q, info % 16) {
                Some((e, l)) => Some((e, l, l > 0, 0)),
                None => None,
            },
            None => None,
        }
    }
}

/// Skips a client section (see [`section_end`]).
fn skip_section(b: &[u8], p: usize) -> (r: Option<usize>)
    ensures
        match r {
            Some(e) => section_end(b@, p as nat) == Some(e as nat) && e <= b@.len(),
            None => section_end(b@, p as nat) is None,
        },
{
    let (n, q1) = match read_u32_at(b, p) {
        Some(x) => x,
        None => {
            return None;
        },
    };
    let q2 = match read_u32_at(b, q1) {
        Some((_, x)) => x,
        None => {
            return None;
        },
    };
    let (start, q3) = match read_u32_at(b, q2) {
        Some(x) => x,
        None => {
            return None;
        },
    };
    let mut cur = q3;
    let mut clock = start;
    let mut kept = false;
    let mut i: u64 = 0;
    assert(section_end(b@, p as nat) == match blocks_end(b@, q3 as nat, n as nat, start as nat, false) {
        Some(e) => if e.1 {
            Some(e.0)
        } else {
            None
        },
        None => None,
    });
    while i < n
        invariant
            i <= n,
            cur <= b@.len(),
            clock < 4294967296,
            section_end(b@, p as nat) == match blocks_end(b@, q3 as nat, n as nat, start as nat, false) {
                Some(e) => if e.1 {
                    Some(e.0)
                } else {
                    None
                },
                None => None,
            },
            blocks_end(b@, q3 as nat, n as nat, start as nat, false) == blocks_end(
                b@,
                cur as nat,
                (n - i) as nat,
                clock as nat,
                kept,
            ),
        decreases n - i,
    {
        match read_block(b, cur) {
            Some((e, l, k, x)) => {
                if l + x > 4294967295 - clock {
                    return None;
                }
                cur = e;
                clock = clock + l;
                kept = kept || k;
            },
            None => {
                return None;
            },
        }
        i = i + 1;
    }
    if kept {
        Some(cur)
    } else {
        None
    }
}

/// Skips `n` client sections in a row (see [`sections_end`]).
fn skip_sections(b: &[u8], p: usize, n: u64) -> (r: Option<usize>)
    ensures
        match r {
            Some(e) => sections_end(b@, p as nat, n as nat) == Some(e as nat),
            None => sections_end(b@, p as nat, n as nat) is None,
        },
{
    let mut cur = p;
    let mut i: u64 = 0;
    while i < n
        invariant
            i <= n,
            sections_end(b@, p as nat, n as nat) == sections_end(b@, cur as nat, (n - i) as nat),
        decreases n - i,
    {
        match skip_section(b, cur) {
            Some(e) => {
                cur = e;
            },
            None => {
                return None;
            },
        }
        i = i + 1;
    }
    Some(cur)
}

/// Skips a deleted range (see [`range_end`]).
fn skip_range(b: &[u8], p: usize) -> (r: Option<usize>)
    ensures
        match r {
            Some(e) => range_end(b@, p as nat) == Some(e as nat) && e <= b@.len(),
            None => range_end(b@, p as nat) is None,
        },
{
    match read_u32_at(b, p) {
        Some((c, q)) => match read_u32_at(b, q) {
            Some((l, e)) => {
                if c + l <= 4294967295 {
                    Some(e)
                } else {
                    None
                }
            },
            None => None,
        },
        None => None,
    }
}

/// Skips one client's deleted ranges (see [`deleted_client_end`]).
fn skip_deleted_client(b: &[u8], p: usize) -> (r: Option<usize>)
    ensures
        match r {
            Some(e) => deleted_client_end(b@, p as nat) == Some(e as nat),
            None => deleted_client_end(b@, p as nat) is None,
        },
{
    let q = match read_u32_at(b, p) {
        Some((_, x)) => x,
        None => {
            return None;
        },
    };
    let (m, r0) = match read_u32_at(b, q) {
        Some(x) => x,
        None => {
            return None;
        },
    };
    if m == 1 {
        return skip_range(b, r0);
    }
    if m > (b.len() - r0) as u64 || m > (usize::MAX / 256) as u64 {
        return None;
    }
    let mut cur = r0;
    let mut i: u64 = 0;
    while i < m
        invariant
            i <= m,
            deleted_client_end(b@, p as nat) == ranges_end(b@, r0 as nat, m as nat),
            ranges_end(b@, r0 as nat, m as nat) == ranges_end(b@, cur as nat, (m - i) as nat),
        decreases m - i,
    {
        match skip_range(b, cur) {
            Some(e) => {
                cur = e;
            },
            None => {
                return None;
            },
        }
        i = i + 1;
    }
    Some(cur)
}

/// Skips the delete set (see [`delete_set_end`]).
fn skip_delete_set(b: &[u8], p: usize) -> (r: Option<usize>)
    ensures
        match r {
            Some(e) => delete_set_end(b@, p as nat) == Some(e as nat),
            None => delete_set_end(b@, p as nat) is None,
        },
{
    let (n, q) = match read_u32_at(b, p) {
        Some(x) => x,
        None => {
            return None;
        },
    };
    let mut cur = q;
    let mut i: u64 = 0;
    while i < n
        invariant
            i <= n,
            delete_set_end(b@, p as nat) == deleted_clients_end(b@, q as nat, n as nat),
            deleted_clients_end(b@, q as nat, n as nat) == deleted_clients_end(
                b@,
                cur as nat,
                (n - i) as nat,
            ),
        decreases n - i,
    {
        match skip_deleted_client(b, cur) {
            Some(e) => {
                cur = e;
            },
            None => {
                return None;
            },
        }
        i = i + 1;
    }
    Some(cur)
}

/// Whether `update` has the shape of an update that can be decoded and its
/// state vector taken (see [`update_shape_ok`]).
pub fn is_readable_update(update: &[u8]) -> (ok: bool)
    ensures
        ok == update_shape_ok(update@),
{
    match read_u32_at(update, 0) {
        Some((n, q)) => match skip_sections(update, q, n) {
            Some(e) => skip_delete_set(update, e).is_some(),
            None => false,
        },
        None => false,
    }
}


} // verus!
