//! Application-level fragmentation of large messages: an outbound message
//! longer than the chunk size is sent as a `FragmentStart` frame, one
//! `FragmentData` frame per chunk, and a `FragmentEnd` frame, all under the
//! message's address; inbound fragment frames are collected per series id and
//! the message is put back together once the series is complete.

use std::collections::HashMap;
use vstd::prelude::*;

use vstd::utf8::encode_utf8;

use crate::encoding::{
    lemma_reads_consumed, lemma_rest_advance, lemma_var_array_roundtrip, lemma_var_string_roundtrip,
    lemma_var_uint_roundtrip, spec_read_var_string, spec_read_var_uint, u64_modulus,
    var_array_bytes, var_string_bytes, var_uint_bytes, Decoder,
};
use crate::message_type::MessageType;
use crate::outgoing_message::OutgoingMessage;
use crate::types::{SinkError, WebSocketSink};
use crate::common::ws_types::WsReadyState;
use std::sync::Arc;

verus! {

broadcast use vstd::std_specs::hash::group_hash_axioms;

/// The concatenation of the chunks at indices `0..n`.
pub open spec fn concat_chunks(chunks: Map<u64, Seq<u8>>, n: nat) -> Seq<u8>
    decreases n,
{
    if n == 0 {
        Seq::empty()
    } else {
        concat_chunks(chunks, (n - 1) as nat) + chunks[(n - 1) as u64]
    }
}

/// Whether the chunk indices `0..chunks.len()` are all present.
pub open spec fn contiguous(chunks: Map<u64, Seq<u8>>) -> bool {
    forall|i: u64| 0 <= i < chunks.len() ==> #[trigger] chunks.contains_key(i)
}

/// The chunks received for one fragment series, by index, and whether its
/// end frame has arrived.
pub struct FragmentBuffer {
    chunks: HashMap<u64, Vec<u8>>,
    received_end: bool,
}

impl FragmentBuffer {
    /// The chunks received, by index.
    pub closed spec fn chunk_map(&self) -> Map<u64, Seq<u8>> {
        self.chunks@.map_values(|v: Vec<u8>| v@)
    }

    /// Whether the end frame has arrived.
    pub closed spec fn end_received(&self) -> bool {
        self.received_end
    }

    /// A series is complete once its end has arrived and its chunks are
    /// exactly the indices `0..n` for some `n > 0`.
    pub open spec fn complete(&self) -> bool {
        &&& self.end_received()
        &&& self.chunk_map().len() > 0
        &&& contiguous(self.chunk_map())
    }

    proof fn lemma_view(&self)
        ensures
            self.chunk_map().len() == self.chunks@.len(),
            self.chunk_map().dom() == self.chunks@.dom(),
            forall|k: u64| #[trigger]
                self.chunk_map().contains_key(k) ==> self.chunk_map()[k] == self.chunks@[k]@,
    {
        assert(self.chunk_map().dom() =~= self.chunks@.dom());
    }

    /// An empty buffer awaiting chunks.
    pub fn new() -> (b: Self)
        ensures
            b.chunk_map() == Map::<u64, Seq<u8>>::empty(),
            !b.end_received(),
    {
        let b = Self { chunks: HashMap::new(), received_end: false };
        assert(b.chunk_map() =~= Map::<u64, Seq<u8>>::empty());
        b
    }

    /// Stores chunk `index`, replacing any chunk already stored there.
    pub fn add_chunk(&mut self, index: u64, data: Vec<u8>)
        ensures
            final(self).chunk_map() == old(self).chunk_map().insert(index, data@),
            final(self).end_received() == old(self).end_received(),
    {
        let ghost d = data@;
        self.chunks.insert(index, data);
        assert(self.chunk_map() =~= old(self).chunk_map().insert(index, d));
    }

    /// Records that the end frame has arrived.
    pub fn mark_end(&mut self)
        ensures
            final(self).chunk_map() == old(self).chunk_map(),
            final(self).end_received(),
    {
        self.received_end = true;
    }

    /// Whether the series is complete (see [`FragmentBuffer::complete`]).
    pub fn is_complete(&self) -> (b: bool)
        ensures
            b == self.complete(),
    {
        proof {
            self.lemma_view();
        }
        if !self.received_end || self.chunks.is_empty() {
            return false;
        }
        let n = self.chunks.len();
        let mut i: usize = 0;
        while i < n
            invariant
                n == self.chunk_map().len(),
                i <= n,
                forall|j: u64| 0 <= j < i ==> #[trigger] self.chunk_map().contains_key(j),
            decreases n - i,
        {
            if !self.chunks.contains_key(&(i as u64)) {
                assert(!self.chunk_map().contains_key(i as u64));
                return false;
            }
            i = i + 1;
        }
        true
    }

    /// The chunks concatenated in index order. The series must be complete.
    pub fn combine(&self) -> (out: Vec<u8>)
        requires
            self.complete(),
        ensures
            out@ == concat_chunks(self.chunk_map(), self.chunk_map().len()),
    {
        proof {
            self.lemma_view();
        }
        let n = self.chunks.len();
        let mut out: Vec<u8> = Vec::new();
        let mut i: usize = 0;
        while i < n
            invariant
                n == self.chunk_map().len(),
                contiguous(self.chunk_map()),
                i <= n,
                out@ == concat_chunks(self.chunk_map(), i as nat),
            decreases n - i,
        {
            let key = i as u64;
            assert(self.chunk_map().contains_key(key));
            proof {
                self.lemma_view();
            }
            match self.chunks.get(&key) {
                Some(chunk) => {
                    let ghost before = out@;
                    out.extend_from_slice(chunk.as_slice());
                    assert(out@ =~= before + self.chunk_map()[key]);
                },
                None => {},
            }
            i = i + 1;
        }
        out
    }
}

impl Default for FragmentBuffer {
    fn default() -> (b: Self)
        ensures
            b.chunk_map() == Map::<u64, Seq<u8>>::empty(),
            !b.end_received(),
    {
        Self::new()
    }
}

/// The indices `0, 1, …, m`.
pub open spec fn indices_through(m: u64) -> Set<u64> {
    Set::new(|i: u64| i <= m)
}

proof fn lemma_indices_through(m: u64)
    ensures
        indices_through(m).finite(),
        indices_through(m).len() == m + 1,
    decreases m,
{
    if m == 0 {
        assert(indices_through(0) =~= Set::<u64>::empty().insert(0));
    } else {
        lemma_indices_through((m - 1) as u64);
        assert(indices_through(m) =~= indices_through((m - 1) as u64).insert(m));
    }
}

/// A buffer is complete exactly when its end has arrived and its chunk
/// indices are `0, 1, …, m` for some `m`: none missing below the largest.
pub proof fn lemma_complete_iff_indices_from_zero(b: FragmentBuffer)
    ensures
        b.complete() <==> b.end_received() && exists|m: u64|
            b.chunk_map().dom() == #[trigger] indices_through(m),
{
    b.lemma_view();
    let d = b.chunk_map().dom();
    assert(d.finite());
    assert(b.chunks.len() as nat == b.chunks@.len());
    if b.complete() {
        let n = b.chunk_map().len();
        let m = (n - 1) as u64;
        lemma_indices_through(m);
        assert(indices_through(m).subset_of(d)) by {
            assert forall|i: u64| #[trigger] indices_through(m).contains(i) implies d.contains(i) by {
                assert(b.chunk_map().contains_key(i));
            }
        }
        vstd::set_lib::lemma_subset_equality(indices_through(m), d);
        assert(d == indices_through(m));
    }
    if b.end_received() && exists|m: u64| d == #[trigger] indices_through(m) {
        let m = choose|m: u64| d == #[trigger] indices_through(m);
        lemma_indices_through(m);
        assert(b.chunk_map().len() == m + 1);
        assert forall|i: u64| 0 <= i < b.chunk_map().len() implies #[trigger] b.chunk_map().contains_key(i) by {
            assert(indices_through(m).contains(i));
        }
    }
}

/// The chunk map made by storing, into `base`, chunk `chunks[k]` at index `k`
/// for each `k` of `order` in turn.
pub open spec fn store_in_order(base: Map<u64, Seq<u8>>, chunks: Seq<Seq<u8>>, order: Seq<u64>) -> Map<
    u64,
    Seq<u8>,
>
    decreases order.len(),
{
    if order.len() == 0 {
        base
    } else {
        store_in_order(
            base.insert(order[0], chunks[order[0] as int]),
            chunks,
            order.drop_first(),
        )
    }
}

proof fn lemma_store_in_order(base: Map<u64, Seq<u8>>, chunks: Seq<Seq<u8>>, order: Seq<u64>)
    requires
        order.no_duplicates(),
    ensures
        forall|k: u64| #[trigger]
            store_in_order(base, chunks, order).contains_key(k) <==> base.contains_key(k)
                || order.contains(k),
        forall|k: u64|
            order.contains(k) ==> #[trigger] store_in_order(base, chunks, order)[k] == chunks[k as int],
        forall|k: u64|
            !order.contains(k) && base.contains_key(k) ==> #[trigger] store_in_order(
                base,
                chunks,
                order,
            )[k] == base[k],
    decreases order.len(),
{
    if order.len() > 0 {
        let rest = order.drop_first();
        let base2 = base.insert(order[0], chunks[order[0] as int]);
        assert(rest.no_duplicates()) by {
            assert forall|i: int, j: int| 0 <= i < rest.len() && 0 <= j < rest.len() && i != j implies rest[i]
                != rest[j] by {
                assert(rest[i] == order[i + 1] && rest[j] == order[j + 1]);
            }
        }
        lemma_store_in_order(base2, chunks, rest);
        assert forall|k: u64| order.contains(k) <==> k == order[0] || rest.contains(k) by {
            if order.contains(k) {
                let i = choose|i: int| 0 <= i < order.len() && order[i] == k;
                if i > 0 {
                    assert(rest[i - 1] == k);
                }
            }
            if rest.contains(k) {
                let i = choose|i: int| 0 <= i < rest.len() && rest[i] == k;
                assert(order[i + 1] == k);
            }
        }
        assert(!rest.contains(order[0])) by {
            if rest.contains(order[0]) {
                let i = choose|i: int| 0 <= i < rest.len() && rest[i] == order[0];
                assert(order[i + 1] == order[0]);
            }
        }
        let r = store_in_order(base, chunks, order);
        assert(r == store_in_order(base2, chunks, rest));
        assert forall|k: u64| #[trigger] r.contains_key(k) <==> base.contains_key(k) || order.contains(k) by {
            assert(r.contains_key(k) <==> base2.contains_key(k) || rest.contains(k));
            assert(order.contains(k) <==> k == order[0] || rest.contains(k));
        }
        assert forall|k: u64| order.contains(k) implies #[trigger] r[k] == chunks[k as int] by {
            assert(order.contains(k) <==> k == order[0] || rest.contains(k));
            if !rest.contains(k) {
                assert(k == order[0]);
                assert(base2[k] == chunks[k as int]);
            }
        }
        assert forall|k: u64| !order.contains(k) && base.contains_key(k) implies #[trigger] r[k]
            == base[k] by {
            assert(order.contains(k) <==> k == order[0] || rest.contains(k));
        }
    }
}

/// Reassembly law: the chunks of a frame cut into pieces of `size` bytes,
/// stored in any order into an empty buffer whose end has arrived, make a
/// complete buffer whose chunks, concatenated in index order, are the frame.
pub proof fn lemma_chunks_in_any_order_reassemble(
    b: FragmentBuffer,
    frame: Seq<u8>,
    size: nat,
    order: Seq<u64>,
)
    requires
        size > 0,
        0 < frame.len() < u64_modulus(),
        order.no_duplicates(),
        forall|k: u64| #[trigger] order.contains(k) <==> k < split_chunks(frame, size).len(),
        b.chunk_map() == store_in_order(Map::empty(), split_chunks(frame, size), order),
        b.end_received(),
    ensures
        b.complete(),
        concat_chunks(b.chunk_map(), b.chunk_map().len()) == frame,
{
    let chunks = split_chunks(frame, size);
    lemma_split_flatten(frame, size);
    lemma_split_len(frame, size);
    let n = chunks.len();
    lemma_store_in_order(Map::empty(), chunks, order);
    lemma_chunk_map_of(chunks, n);
    assert(b.chunk_map() =~= chunk_map_of(chunks, n)) by {
        assert forall|k: u64| #[trigger] b.chunk_map().contains_key(k) <==> chunk_map_of(chunks, n).contains_key(k) by {
        }
        assert forall|k: u64| #[trigger] b.chunk_map().contains_key(k) implies b.chunk_map()[k] == chunk_map_of(chunks, n)[k] by {
            assert(order.contains(k));
        }
    }
    lemma_concat_chunk_map(chunks, n, n);
    assert(chunks.take(n as int) =~= chunks);
}

// ───────────── outbound: splitting ─────────────

/// `frame` cut into pieces of `size` bytes, the last one possibly shorter.
pub open spec fn split_chunks(frame: Seq<u8>, size: nat) -> Seq<Seq<u8>>
    decreases frame.len(),
{
    if frame.len() == 0 || size == 0 {
        Seq::empty()
    } else if frame.len() <= size {
        seq![frame]
    } else {
        seq![frame.take(size as int)] + split_chunks(frame.skip(size as int), size)
    }
}

/// The concatenation of a sequence of chunks.
pub open spec fn flatten_chunks(chunks: Seq<Seq<u8>>) -> Seq<u8>
    decreases chunks.len(),
{
    if chunks.len() == 0 {
        Seq::empty()
    } else {
        chunks[0] + flatten_chunks(chunks.drop_first())
    }
}

/// The frame that opens fragment series `id` under `address`.
pub open spec fn start_frame(address: Seq<char>, id: Seq<char>) -> Seq<u8> {
    var_string_bytes(address) + var_uint_bytes(MessageType::FragmentStart.wire() as nat)
        + var_string_bytes(id)
}

/// The frame that carries chunk `index` of fragment series `id`.
pub open spec fn data_frame(address: Seq<char>, id: Seq<char>, index: nat, chunk: Seq<u8>) -> Seq<u8> {
    var_string_bytes(address) + var_uint_bytes(MessageType::FragmentData.wire() as nat)
        + var_string_bytes(id) + var_uint_bytes(index) + var_array_bytes(chunk)
}

/// The frame that closes fragment series `id`.
pub open spec fn end_frame(address: Seq<char>, id: Seq<char>) -> Seq<u8> {
    var_string_bytes(address) + var_uint_bytes(MessageType::FragmentEnd.wire() as nat)
        + var_string_bytes(id)
}

/// The frames of series `id` carrying `chunks`: start, one data frame per
/// chunk in order, end.
pub open spec fn fragment_series(address: Seq<char>, id: Seq<char>, chunks: Seq<Seq<u8>>) -> Seq<
    Seq<u8>,
> {
    seq![start_frame(address, id)] + Seq::new(
        chunks.len(),
        |i: int| data_frame(address, id, i as nat, chunks[i]),
    ) + seq![end_frame(address, id)]
}

/// What is sent for `frame` with chunk size `size` and series id `id`: the
/// frame itself when it fits in one chunk (or carries no readable address),
/// else the fragment series under the frame's own address.
pub open spec fn outbound_frames(frame: Seq<u8>, id: Seq<char>, size: nat) -> Seq<Seq<u8>> {
    if frame.len() <= size {
        seq![frame]
    } else {
        match spec_read_var_string(frame).0 {
            Ok(address) => fragment_series(address, id, split_chunks(frame, size)),
            Err(_) => seq![frame],
        }
    }
}

/// One step of splitting: the next chunk is the first `size` bytes of what is
/// left, or all of it.
proof fn lemma_split_step(rest: Seq<u8>, size: nat)
    requires
        size > 0,
        rest.len() > 0,
    ensures
        split_chunks(rest, size) == seq![
            if rest.len() <= size {
                rest
            } else {
                rest.take(size as int)
            },
        ] + split_chunks(
            if rest.len() <= size {
                Seq::<u8>::empty()
            } else {
                rest.skip(size as int)
            },
            size,
        ),
{
    if rest.len() <= size {
        assert(split_chunks(Seq::<u8>::empty(), size) == Seq::<Seq<u8>>::empty());
        assert(seq![rest] + Seq::<Seq<u8>>::empty() =~= seq![rest]);
    }
}

/// Splitting a frame and concatenating the pieces gives the frame back.
pub proof fn lemma_split_flatten(frame: Seq<u8>, size: nat)
    requires
        size > 0,
    ensures
        flatten_chunks(split_chunks(frame, size)) == frame,
        forall|i: int|
            0 <= i < split_chunks(frame, size).len() ==> 0 < #[trigger] split_chunks(
                frame,
                size,
            )[i].len() <= size,
    decreases frame.len(),
{
    if frame.len() == 0 {
        assert(frame =~= Seq::<u8>::empty());
        assert(split_chunks(frame, size) =~= Seq::<Seq<u8>>::empty());
    } else if frame.len() <= size {
        let c = split_chunks(frame, size);
        assert(c =~= seq![frame]);
        assert(c.drop_first() =~= Seq::<Seq<u8>>::empty());
        assert(flatten_chunks(c) == c[0] + flatten_chunks(c.drop_first()));
        assert(frame + Seq::<u8>::empty() =~= frame);
    } else {
        lemma_split_flatten(frame.skip(size as int), size);
        let c = split_chunks(frame, size);
        assert(c.drop_first() =~= split_chunks(frame.skip(size as int), size));
        assert(flatten_chunks(c) == c[0] + flatten_chunks(c.drop_first()));
        assert(frame.take(size as int) + frame.skip(size as int) =~= frame);
        assert forall|i: int| 0 <= i < c.len() implies 0 < #[trigger] c[i].len() <= size by {
            if i > 0 {
                assert(c[i] == split_chunks(frame.skip(size as int), size)[i - 1]);
            }
        }
    }
}

/// Builds the frames that carry `frame` with chunk size `chunk_size` under the
/// series id `unique_id` (see [`outbound_frames`]).
pub fn fragment_message(frame: &[u8], unique_id: &str, chunk_size: usize) -> (frames: Vec<Vec<u8>>)
    requires
        chunk_size > 0,
    ensures
        frames@.len() == outbound_frames(frame@, unique_id@, chunk_size as nat).len(),
        forall|i: int|
            0 <= i < frames@.len() ==> #[trigger] frames@[i]@ == outbound_frames(
                frame@,
                unique_id@,
                chunk_size as nat,
            )[i],
{
    let mut frames: Vec<Vec<u8>> = Vec::new();
    if frame.len() <= chunk_size {
        frames.push(vstd::slice::slice_to_vec(frame));
        return frames;
    }
    let mut decoder = Decoder::new(frame);
    assert(decoder.rest() =~= frame@);
    let address = match decoder.read_var_string() {
        Ok(a) => a,
        Err(_) => {
            frames.push(vstd::slice::slice_to_vec(frame));
            return frames;
        },
    };
    let ghost chunks = split_chunks(frame@, chunk_size as nat);
    let ghost expected = outbound_frames(frame@, unique_id@, chunk_size as nat);
    assert(expected == fragment_series(address@, unique_id@, chunks));
    frames.push(OutgoingMessage::new(address.as_str()).write_fragment_start(unique_id).to_vec());
    let n = frame.len();
    let mut offset: usize = 0;
    let mut index: usize = 0;
    assert(frame@.skip(0) =~= frame@);
    assert(chunks.take(0) + chunks =~= chunks);
    while offset < n
        invariant
            n == frame@.len(),
            chunk_size > 0,
            offset <= n,
            index <= offset,
            chunks == split_chunks(frame@, chunk_size as nat),
            expected == fragment_series(address@, unique_id@, chunks),
            chunks == chunks.take(index as int) + split_chunks(
                frame@.skip(offset as int),
                chunk_size as nat,
            ),
            index <= chunks.len(),
            frames@.len() == 1 + index,
            forall|i: int| 0 <= i < frames@.len() ==> #[trigger] frames@[i]@ == expected[i],
        decreases n - offset,
    {
        let ghost rest = frame@.skip(offset as int);
        proof {
            lemma_split_step(rest, chunk_size as nat);
        }
        let end = if n - offset <= chunk_size {
            n
        } else {
            offset + chunk_size
        };
        let chunk = vstd::slice::slice_subrange(frame, offset, end);
        assert(chunk@ =~= if rest.len() <= chunk_size {
            rest
        } else {
            rest.take(chunk_size as int)
        });
        assert(chunks[index as int] == chunk@);
        let data = OutgoingMessage::new(address.as_str()).write_fragment_data(
            unique_id,
            index,
            chunk,
        ).to_vec();
        assert(data@ == expected[1 + index]);
        frames.push(data);
        proof {
            let next_rest = if rest.len() <= chunk_size {
                Seq::<u8>::empty()
            } else {
                rest.skip(chunk_size as int)
            };
            assert(next_rest =~= frame@.skip(end as int));
            assert(chunks.take(index + 1) =~= chunks.take(index as int) + seq![chunk@]);
        }
        offset = end;
        index = index + 1;
    }
    assert(frame@.skip(n as int) =~= Seq::<u8>::empty());
    assert(chunks.take(index as int) =~= chunks);
    frames.push(OutgoingMessage::new(address.as_str()).write_fragment_end(unique_id).to_vec());
    frames
}

} // verus!

verus! {

// ───────────── inbound: reassembly ─────────────

/// The state of one fragment series being received.
pub struct SeriesState {
    pub chunks: Map<u64, Seq<u8>>,
    pub ended: bool,
}

/// Whether a series in state `s` is complete: ended, with chunks exactly at
/// the indices `0..n` for some `n > 0`.
pub open spec fn series_complete(s: SeriesState) -> bool {
    &&& s.ended
    &&& s.chunks.len() > 0
    &&& contiguous(s.chunks)
}

/// A series with no chunks, not ended.
pub open spec fn empty_series() -> SeriesState {
    SeriesState { chunks: Map::empty(), ended: false }
}

/// The index of the first series named `id`, if any.
pub open spec fn find_series(st: Seq<(Seq<char>, SeriesState)>, id: Seq<char>) -> Option<int>
    decreases st.len(),
{
    if st.len() == 0 {
        None
    } else {
        match find_series(st.drop_last(), id) {
            Some(j) => Some(j),
            None => if st.last().0 == id {
                Some(st.len() - 1)
            } else {
                None
            },
        }
    }
}

/// What happens to a fragment frame.
pub enum FragmentOutcome {
    /// The message is not a fragment frame; it is handled as it is.
    NotFragment,
    /// The fragment frame was taken in; nothing is to be handled yet.
    Consumed,
    /// The frame completed a series: the message it carried, to be handled now.
    Completed(Vec<u8>),
}

/// [`FragmentOutcome`] with the message as a sequence.
pub enum SpecOutcome {
    NotFragment,
    Consumed,
    Completed(Seq<u8>),
}

/// The outcome as a sequence-level value.
pub open spec fn outcome_view(o: FragmentOutcome) -> SpecOutcome {
    match o {
        FragmentOutcome::NotFragment => SpecOutcome::NotFragment,
        FragmentOutcome::Consumed => SpecOutcome::Consumed,
        FragmentOutcome::Completed(v) => SpecOutcome::Completed(v@),
    }
}

/// A start frame for `id` opens a fresh series, dropping any series of the same id.
pub open spec fn series_start(st: Seq<(Seq<char>, SeriesState)>, id: Seq<char>) -> Seq<
    (Seq<char>, SeriesState),
> {
    match find_series(st, id) {
        Some(j) => st.update(j, (id, empty_series())),
        None => st.push((id, empty_series())),
    }
}

/// A data frame stores its chunk in its series; one for an unknown series is dropped.
pub open spec fn series_data(
    st: Seq<(Seq<char>, SeriesState)>,
    id: Seq<char>,
    index: u64,
    chunk: Seq<u8>,
) -> Seq<(Seq<char>, SeriesState)> {
    match find_series(st, id) {
        Some(j) => st.update(
            j,
            (id, SeriesState { chunks: st[j].1.chunks.insert(index, chunk), ended: st[j].1.ended }),
        ),
        None => st,
    }
}

/// An end frame marks its series ended; if that completes it, the series is
/// removed and its chunks, concatenated in order, are the result.
pub open spec fn series_end(st: Seq<(Seq<char>, SeriesState)>, id: Seq<char>) -> (
    Seq<(Seq<char>, SeriesState)>,
    Option<Seq<u8>>,
) {
    match find_series(st, id) {
        Some(j) => {
            let s = SeriesState { chunks: st[j].1.chunks, ended: true };
            if series_complete(s) {
                (st.remove(j), Some(concat_chunks(s.chunks, s.chunks.len())))
            } else {
                (st.update(j, (id, s)), None)
            }
        },
        None => (st, None),
    }
}

/// How a message `raw` (its address, then its type, then the payload) acts
/// on the series in progress, and what comes of it.
pub open spec fn spec_accept(st: Seq<(Seq<char>, SeriesState)>, raw: Seq<u8>) -> (
    Seq<(Seq<char>, SeriesState)>,
    SpecOutcome,
) {
    let a_n = spec_read_var_string(raw).1;
    let s1 = raw.subrange(a_n as int, raw.len() as int);
    let (t, t_n) = crate::encoding::spec_read_var_uint(s1);
    let s2 = s1.subrange(t_n as int, s1.len() as int);
    match t {
        Ok(code) => if code == MessageType::FragmentStart.wire() {
            match spec_read_var_string(s2).0 {
                Ok(id) => (series_start(st, id), SpecOutcome::Consumed),
                Err(_) => (st, SpecOutcome::Consumed),
            }
        } else if code == MessageType::FragmentData.wire() {
            let (id_r, id_n) = spec_read_var_string(s2);
            let s3 = s2.subrange(id_n as int, s2.len() as int);
            let (ix_r, ix_n) = crate::encoding::spec_read_var_uint(s3);
            let s4 = s3.subrange(ix_n as int, s3.len() as int);
            let ch_r = crate::encoding::spec_read_var_array(s4).0;
            match (id_r, ix_r, ch_r) {
                (Ok(id), Ok(ix), Ok(ch)) => (series_data(st, id, ix, ch), SpecOutcome::Consumed),
                _ => (st, SpecOutcome::Consumed),
            }
        } else if code == MessageType::FragmentEnd.wire() {
            match spec_read_var_string(s2).0 {
                Ok(id) => {
                    let (st2, done) = series_end(st, id);
                    match done {
                        Some(bytes) => (st2, SpecOutcome::Completed(bytes)),
                        None => (st2, SpecOutcome::Consumed),
                    }
                },
                Err(_) => (st, SpecOutcome::Consumed),
            }
        } else {
            (st, SpecOutcome::NotFragment)
        },
        Err(_) => (st, SpecOutcome::NotFragment),
    }
}

/// The fragment series a connection is receiving, by series id.
pub struct FragmentAssembler {
    buffers: Vec<(String, FragmentBuffer)>,
}

/// The state of a buffer.
pub open spec fn buffer_state(b: FragmentBuffer) -> SeriesState {
    SeriesState { chunks: b.chunk_map(), ended: b.end_received() }
}

/// A series entry as id and state.
pub open spec fn entry_view(e: (String, FragmentBuffer)) -> (Seq<char>, SeriesState) {
    (e.0@, buffer_state(e.1))
}

/// Series entries as ids and states.
pub open spec fn entries_view(v: Seq<(String, FragmentBuffer)>) -> Seq<(Seq<char>, SeriesState)> {
    Seq::new(v.len(), |i: int| entry_view(v[i]))
}

impl FragmentAssembler {
    /// The series in progress, in the order they were opened.
    pub closed spec fn series(&self) -> Seq<(Seq<char>, SeriesState)> {
        entries_view(self.buffers@)
    }

    /// No series in progress.
    pub fn new() -> (a: Self)
        ensures
            a.series() == Seq::<(Seq<char>, SeriesState)>::empty(),
    {
        let a = Self { buffers: Vec::new() };
        assert(a.series() =~= Seq::<(Seq<char>, SeriesState)>::empty());
        a
    }

    /// The number of series in progress.
    pub fn len(&self) -> (n: usize)
        ensures
            n == self.series().len(),
    {
        self.buffers.len()
    }

    /// The index of the first series named `id`.
    fn find(&self, id: &String) -> (r: Option<usize>)
        ensures
            match find_series(self.series(), id@) {
                Some(j) => r is Some && r->Some_0 as int == j,
                None => r is None,
            },
            r matches Some(j) ==> j < self.buffers@.len() && self.series()[j as int].0 == id@,
            find_series(self.series(), id@) matches Some(j) ==> 0 <= j < self.series().len(),
            self.series().len() == self.buffers@.len(),
    {
        proof {
            lemma_find_series(self.series(), id@);
        }
        let mut i: usize = 0;
        while i < self.buffers.len()
            invariant
                i <= self.buffers@.len(),
                find_series(self.series().take(i as int), id@) is None,
            decreases self.buffers@.len() - i,
        {
            proof {
                assert(self.series().take(i + 1).drop_last() =~= self.series().take(i as int));
            }
            if self.buffers[i].0 == *id {
                proof {
                    lemma_find_series_prefix(self.series(), id@, (i + 1) as int);
                }
                return Some(i);
            }
            i = i + 1;
        }
        assert(self.series().take(i as int) =~= self.series());
        None
    }

    /// Takes in the message `raw` if it is a fragment frame (see [`spec_accept`]).
    pub fn accept(&mut self, raw: &[u8]) -> (r: FragmentOutcome)
        ensures
            (final(self).series(), outcome_view(r)) == spec_accept(old(self).series(), raw@),
    {
        let mut d = Decoder::new(raw);
        assert(d.rest() =~= raw@);
        proof {
            lemma_reads_consumed(raw@);
        }
        let _ = d.read_var_string();
        let ghost a_n = spec_read_var_string(raw@).1;
        let ghost s1 = raw@.subrange(a_n as int, raw@.len() as int);
        assert(d.rest() == s1);
        proof {
            lemma_reads_consumed(s1);
        }
        let code = match d.read_var_uint() {
            Ok(c) => c,
            Err(_) => return FragmentOutcome::NotFragment,
        };
        let ghost t_n = spec_read_var_uint(s1).1;
        let ghost s2 = s1.subrange(t_n as int, s1.len() as int);
        proof {
            lemma_rest_advance(raw@, a_n, t_n);
            lemma_reads_consumed(s2);
        }
        assert(d.rest() == s2);
        if code == MessageType::FragmentStart.wire_code() {
            if let Ok(id) = d.read_var_string() {
                self.start(id);
            }
            FragmentOutcome::Consumed
        } else if code == MessageType::FragmentData.wire_code() {
            let id = d.read_var_string();
            let ghost id_n = spec_read_var_string(s2).1;
            let ghost s3 = s2.subrange(id_n as int, s2.len() as int);
            proof {
                lemma_rest_advance(raw@, a_n + t_n, id_n);
                lemma_rest_advance(raw@, a_n, t_n);
                lemma_reads_consumed(s3);
            }
            assert(d.rest() == s3);
            let index = d.read_var_uint();
            let ghost ix_n = spec_read_var_uint(s3).1;
            let ghost s4 = s3.subrange(ix_n as int, s3.len() as int);
            proof {
                lemma_rest_advance(raw@, a_n + t_n + id_n, ix_n);
            }
            assert(d.rest() == s4);
            let chunk = d.read_var_uint8_array();
            if let (Ok(id), Ok(index), Ok(chunk)) = (id, index, chunk) {
                self.data(id, index, chunk);
            }
            FragmentOutcome::Consumed
        } else if code == MessageType::FragmentEnd.wire_code() {
            match d.read_var_string() {
                Ok(id) => match self.end(id) {
                    Some(bytes) => FragmentOutcome::Completed(bytes),
                    None => FragmentOutcome::Consumed,
                },
                Err(_) => FragmentOutcome::Consumed,
            }
        } else {
            FragmentOutcome::NotFragment
        }
    }

    fn start(&mut self, id: String)
        ensures
            final(self).series() == series_start(old(self).series(), id@),
    {
        let ghost idv = id@;
        let fresh = FragmentBuffer::new();
        assert(buffer_state(fresh) == empty_series());
        let found = self.find(&id);
        assert(self.series() == old(self).series());
        match found {
            Some(j) => {
                assert(find_series(old(self).series(), idv) == Some(j as int));
                self.buffers.set(j, (id, fresh));
                assert(self.series() =~= old(self).series().update(
                    j as int,
                    (idv, empty_series()),
                ));
                assert(self.series() == series_start(old(self).series(), idv));
            },
            None => {
                self.buffers.push((id, fresh));
                assert(find_series(old(self).series(), idv) is None);
                assert(self.series() =~= old(self).series().push((idv, empty_series())));
                assert(self.series() == series_start(old(self).series(), idv));
            },
        }
    }

    fn data(&mut self, id: String, index: u64, chunk: Vec<u8>)
        ensures
            final(self).series() == series_data(old(self).series(), id@, index, chunk@),
    {
        match self.find(&id) {
            Some(j) => {
                let ghost chunk_v = chunk@;
                let ghost old_state = old(self).series()[j as int].1;
                let (name, mut buffer) = self.buffers.remove(j);
                assert(buffer_state(buffer) == old_state);
                buffer.add_chunk(index, chunk);
                assert(buffer_state(buffer) == SeriesState {
                    chunks: old_state.chunks.insert(index, chunk_v),
                    ended: old_state.ended,
                });
                self.buffers.insert(j, (name, buffer));
                assert(self.series() =~= old(self).series().update(
                    j as int,
                    (
                        id@,
                        SeriesState {
                            chunks: old_state.chunks.insert(index, chunk_v),
                            ended: old_state.ended,
                        },
                    ),
                ));
            },
            None => {},
        }
    }

    fn end(&mut self, id: String) -> (r: Option<Vec<u8>>)
        ensures
            final(self).series() == series_end(old(self).series(), id@).0,
            match (r, series_end(old(self).series(), id@).1) {
                (Some(v), Some(b)) => v@ == b,
                (None, None) => true,
                _ => false,
            },
    {
        match self.find(&id) {
            Some(j) => {
                let ghost old_state = old(self).series()[j as int].1;
                let (name, mut buffer) = self.buffers.remove(j);
                assert(buffer_state(buffer) == old_state);
                assert(self.series() =~= old(self).series().remove(j as int));
                buffer.mark_end();
                assert(buffer_state(buffer) == SeriesState { chunks: old_state.chunks, ended: true });
                if buffer.is_complete() {
                    let bytes = buffer.combine();
                    Some(bytes)
                } else {
                    self.buffers.insert(j, (name, buffer));
                    assert(self.series() =~= old(self).series().update(
                        j as int,
                        (id@, SeriesState { chunks: old_state.chunks, ended: true }),
                    ));
                    None
                }
            },
            None => None,
        }
    }
}

/// `find_series` finds a series of the given id, and finds none only when
/// there is none.
pub proof fn lemma_find_series(st: Seq<(Seq<char>, SeriesState)>, id: Seq<char>)
    ensures
        match find_series(st, id) {
            Some(j) => 0 <= j < st.len() && st[j].0 == id && forall|i: int|
                0 <= i < j ==> st[i].0 != id,
            None => forall|i: int| 0 <= i < st.len() ==> st[i].0 != id,
        },
    decreases st.len(),
{
    if st.len() > 0 {
        let p = st.drop_last();
        lemma_find_series(p, id);
        assert forall|i: int| 0 <= i < p.len() implies p[i] == st[i] by {}
    }
}

/// A series found in a prefix is found at the same place in the whole.
proof fn lemma_find_series_prefix(st: Seq<(Seq<char>, SeriesState)>, id: Seq<char>, k: int)
    requires
        0 < k <= st.len(),
        find_series(st.take(k - 1), id) is None,
        st[k - 1].0 == id,
    ensures
        find_series(st, id) == Some(k - 1),
    decreases st.len(),
{
    assert(st.take(k).drop_last() =~= st.take(k - 1));
    if k < st.len() {
        assert(st.drop_last().take(k) =~= st.take(k));
        assert(st.drop_last().take(k - 1) =~= st.take(k - 1));
        lemma_find_series_prefix(st.drop_last(), id, k);
    } else {
        assert(st.take(k) =~= st);
    }
}

} // verus!

verus! {

// ───────────── the reassembly law ─────────────

/// The messages `frames` taken in one after another, from series state `st`:
/// the final state and the outcome of each message.
pub open spec fn run_frames(st: Seq<(Seq<char>, SeriesState)>, frames: Seq<Seq<u8>>) -> (
    Seq<(Seq<char>, SeriesState)>,
    Seq<SpecOutcome>,
)
    decreases frames.len(),
{
    if frames.len() == 0 {
        (st, Seq::empty())
    } else {
        let (st1, o) = spec_accept(st, frames[0]);
        let (st2, os) = run_frames(st1, frames.drop_first());
        (st2, seq![o] + os)
    }
}

/// The map holding `chunks[i]` at index `i`, for `i < j`.
pub open spec fn chunk_map_of(chunks: Seq<Seq<u8>>, j: nat) -> Map<u64, Seq<u8>>
    decreases j,
{
    if j == 0 {
        Map::empty()
    } else {
        chunk_map_of(chunks, (j - 1) as nat).insert((j - 1) as u64, chunks[j - 1])
    }
}

/// The data frames for chunks `j..` followed by the end frame.
pub open spec fn series_tail(address: Seq<char>, id: Seq<char>, chunks: Seq<Seq<u8>>, j: nat) -> Seq<
    Seq<u8>,
> {
    Seq::new(
        (chunks.len() - j) as nat,
        |i: int| data_frame(address, id, (j + i) as nat, chunks[j + i]),
    ) + seq![end_frame(address, id)]
}

proof fn lemma_chunk_map_of(chunks: Seq<Seq<u8>>, j: nat)
    requires
        j <= 0x1_0000_0000_0000_0000,
    ensures
        chunk_map_of(chunks, j).dom().finite(),
        chunk_map_of(chunks, j).len() == j,
        forall|i: u64| #[trigger] chunk_map_of(chunks, j).contains_key(i) <==> i < j,
        forall|i: u64| i < j ==> #[trigger] chunk_map_of(chunks, j)[i] == chunks[i as int],
    decreases j,
{
    if j > 0 {
        let p = chunk_map_of(chunks, (j - 1) as nat);
        lemma_chunk_map_of(chunks, (j - 1) as nat);
        assert(!p.contains_key((j - 1) as u64));
        assert(p.insert((j - 1) as u64, chunks[j - 1]).dom() =~= p.dom().insert((j - 1) as u64));
    } else {
        assert(chunk_map_of(chunks, j).dom() =~= Set::<u64>::empty());
    }
}

proof fn lemma_flatten_push(s: Seq<Seq<u8>>, x: Seq<u8>)
    ensures
        flatten_chunks(s.push(x)) == flatten_chunks(s) + x,
    decreases s.len(),
{
    if s.len() == 0 {
        assert(s.push(x).drop_first() =~= Seq::<Seq<u8>>::empty());
        assert(flatten_chunks(s.push(x)) == x + flatten_chunks(Seq::<Seq<u8>>::empty()));
        assert(x + Seq::<u8>::empty() =~= x);
        assert(Seq::<u8>::empty() + x =~= x);
    } else {
        lemma_flatten_push(s.drop_first(), x);
        assert(s.push(x).drop_first() =~= s.drop_first().push(x));
        assert(s[0] + (flatten_chunks(s.drop_first()) + x) =~= (s[0] + flatten_chunks(
            s.drop_first(),
        )) + x);
    }
}

proof fn lemma_concat_chunk_map(chunks: Seq<Seq<u8>>, k: nat, j: nat)
    requires
        j <= k <= chunks.len(),
        k <= 0x1_0000_0000_0000_0000,
    ensures
        concat_chunks(chunk_map_of(chunks, k), j) == flatten_chunks(chunks.take(j as int)),
    decreases j,
{
    lemma_chunk_map_of(chunks, k);
    if j == 0 {
        assert(chunks.take(0) =~= Seq::<Seq<u8>>::empty());
    } else {
        lemma_concat_chunk_map(chunks, k, (j - 1) as nat);
        assert(chunks.take(j as int) =~= chunks.take(j - 1).push(chunks[j - 1]));
        lemma_flatten_push(chunks.take(j - 1), chunks[j - 1]);
        assert(chunk_map_of(chunks, k)[(j - 1) as u64] == chunks[j - 1]);
    }
}

/// A start frame parses as the start of series `id`.
proof fn lemma_accept_start(st: Seq<(Seq<char>, SeriesState)>, address: Seq<char>, id: Seq<char>)
    requires
        encode_utf8(address).len() < u64_modulus(),
        encode_utf8(id).len() < u64_modulus(),
    ensures
        spec_accept(st, start_frame(address, id)) == (series_start(st, id), SpecOutcome::Consumed),
{
    let code = MessageType::FragmentStart.wire();
    let raw = start_frame(address, id);
    let a = var_string_bytes(address);
    let s1 = var_uint_bytes(code as nat) + var_string_bytes(id);
    assert(raw =~= a + s1);
    lemma_var_string_roundtrip(address, s1);
    assert(raw.subrange(a.len() as int, raw.len() as int) =~= s1);
    lemma_var_uint_roundtrip(code, var_string_bytes(id));
    let t = var_uint_bytes(code as nat);
    assert(s1.subrange(t.len() as int, s1.len() as int) =~= var_string_bytes(id));
    lemma_var_string_roundtrip(id, Seq::empty());
    assert(var_string_bytes(id) + Seq::<u8>::empty() =~= var_string_bytes(id));
}

/// An end frame parses as the end of series `id`.
proof fn lemma_accept_end(st: Seq<(Seq<char>, SeriesState)>, address: Seq<char>, id: Seq<char>)
    requires
        encode_utf8(address).len() < u64_modulus(),
        encode_utf8(id).len() < u64_modulus(),
    ensures
        spec_accept(st, end_frame(address, id)) == (
            series_end(st, id).0,
            match series_end(st, id).1 {
                Some(b) => SpecOutcome::Completed(b),
                None => SpecOutcome::Consumed,
            },
        ),
{
    let code = MessageType::FragmentEnd.wire();
    let raw = end_frame(address, id);
    let a = var_string_bytes(address);
    let s1 = var_uint_bytes(code as nat) + var_string_bytes(id);
    assert(raw =~= a + s1);
    lemma_var_string_roundtrip(address, s1);
    assert(raw.subrange(a.len() as int, raw.len() as int) =~= s1);
    lemma_var_uint_roundtrip(code, var_string_bytes(id));
    let t = var_uint_bytes(code as nat);
    assert(s1.subrange(t.len() as int, s1.len() as int) =~= var_string_bytes(id));
    lemma_var_string_roundtrip(id, Seq::empty());
    assert(var_string_bytes(id) + Seq::<u8>::empty() =~= var_string_bytes(id));
}

/// A data frame parses as chunk `index` of series `id`.
#[verifier::rlimit(40)]
#[verifier::spinoff_prover]
proof fn lemma_accept_data(
    st: Seq<(Seq<char>, SeriesState)>,
    address: Seq<char>,
    id: Seq<char>,
    index: u64,
    chunk: Seq<u8>,
)
    requires
        encode_utf8(address).len() < u64_modulus(),
        encode_utf8(id).len() < u64_modulus(),
        chunk.len() < u64_modulus(),
    ensures
        spec_accept(st, data_frame(address, id, index as nat, chunk)) == (
            series_data(st, id, index, chunk),
            SpecOutcome::Consumed,
        ),
{
    let code = MessageType::FragmentData.wire();
    let raw = data_frame(address, id, index as nat, chunk);
    let a = var_string_bytes(address);
    let t = var_uint_bytes(code as nat);
    let ib = var_string_bytes(id);
    let xb = var_uint_bytes(index as nat);
    let cb = var_array_bytes(chunk);
    let s1 = t + ib + xb + cb;
    assert(raw =~= a + s1);
    lemma_var_string_roundtrip(address, s1);
    assert(raw.subrange(a.len() as int, raw.len() as int) =~= s1);
    lemma_var_uint_roundtrip(code, ib + xb + cb);
    assert(s1 =~= t + (ib + xb + cb));
    let s2 = ib + xb + cb;
    assert(s1.subrange(t.len() as int, s1.len() as int) =~= s2);
    lemma_var_string_roundtrip(id, xb + cb);
    assert(s2 =~= ib + (xb + cb));
    let s3 = xb + cb;
    assert(s2.subrange(ib.len() as int, s2.len() as int) =~= s3);
    lemma_var_uint_roundtrip(index, cb);
    assert(s3.subrange(xb.len() as int, s3.len() as int) =~= cb);
    lemma_var_array_roundtrip(chunk, Seq::empty());
    assert(cb + Seq::<u8>::empty() =~= cb);
}

/// The data frames from chunk `j` on and the end frame, taken in while series
/// `id` holds chunks `0..j`, close the series and give back all the chunks
/// concatenated.
proof fn lemma_run_tail(
    st: Seq<(Seq<char>, SeriesState)>,
    address: Seq<char>,
    id: Seq<char>,
    chunks: Seq<Seq<u8>>,
    j: nat,
)
    requires
        find_series(st, id) is None,
        0 < chunks.len() < u64_modulus(),
        j <= chunks.len(),
        encode_utf8(address).len() < u64_modulus(),
        encode_utf8(id).len() < u64_modulus(),
        forall|i: int| 0 <= i < chunks.len() ==> #[trigger] chunks[i].len() < u64_modulus(),
    ensures
        run_frames(
            st.push((id, SeriesState { chunks: chunk_map_of(chunks, j), ended: false })),
            series_tail(address, id, chunks, j),
        ) == (
            st,
            Seq::new((chunks.len() - j) as nat, |i: int| SpecOutcome::Consumed) + seq![
                SpecOutcome::Completed(flatten_chunks(chunks)),
            ],
        ),
    decreases chunks.len() - j,
{
    let k = chunks.len();
    let cur = st.push((id, SeriesState { chunks: chunk_map_of(chunks, j), ended: false }));
    let frames = series_tail(address, id, chunks, j);
    assert(cur.drop_last() =~= st);
    assert(find_series(cur, id) == Some(st.len() as int));
    if j == k {
        assert(frames =~= seq![end_frame(address, id)]);
        lemma_accept_end(cur, address, id);
        lemma_chunk_map_of(chunks, k);
        let s = SeriesState { chunks: chunk_map_of(chunks, k), ended: true };
        assert(series_complete(s));
        assert(cur.remove(st.len() as int) =~= st);
        lemma_concat_chunk_map(chunks, k, k);
        assert(chunks.take(k as int) =~= chunks);
        assert(frames.drop_first() =~= Seq::<Seq<u8>>::empty());
        assert(Seq::new((chunks.len() - j) as nat, |i: int| SpecOutcome::Consumed) =~= Seq::<
            SpecOutcome,
        >::empty());
        assert(seq![SpecOutcome::Completed(flatten_chunks(chunks))] + Seq::<SpecOutcome>::empty()
            =~= Seq::<SpecOutcome>::empty() + seq![
            SpecOutcome::Completed(flatten_chunks(chunks)),
        ]);
        assert(spec_accept(cur, frames[0]) == (st, SpecOutcome::Completed(flatten_chunks(chunks))));
        assert(run_frames(st, frames.drop_first()) == (st, Seq::<SpecOutcome>::empty()));
        assert(run_frames(cur, frames) == (
            st,
            seq![SpecOutcome::Completed(flatten_chunks(chunks))] + Seq::<SpecOutcome>::empty(),
        ));
    } else {
        assert(frames[0] == data_frame(address, id, j, chunks[j as int]));
        lemma_accept_data(cur, address, id, j as u64, chunks[j as int]);
        let next = st.push((id, SeriesState { chunks: chunk_map_of(chunks, j + 1), ended: false }));
        assert(series_data(cur, id, j as u64, chunks[j as int]) =~= next);
        assert(frames.drop_first() =~= series_tail(address, id, chunks, j + 1));
        lemma_run_tail(st, address, id, chunks, j + 1);
        assert(spec_accept(cur, frames[0]) == (next, SpecOutcome::Consumed));
        assert(run_frames(cur, frames) == (
            run_frames(next, frames.drop_first()).0,
            seq![SpecOutcome::Consumed] + run_frames(next, frames.drop_first()).1,
        ));
        assert(seq![SpecOutcome::Consumed] + (Seq::new(
            (chunks.len() - (j + 1)) as nat,
            |i: int| SpecOutcome::Consumed,
        ) + seq![SpecOutcome::Completed(flatten_chunks(chunks))]) =~= Seq::new(
            (chunks.len() - j) as nat,
            |i: int| SpecOutcome::Consumed,
        ) + seq![SpecOutcome::Completed(flatten_chunks(chunks))]);
    }
}

/// Reassembly law: when no series `id` is in progress, taking in the frames
/// of series `id` carrying `chunks` leaves the series state as it was, takes
/// every frame but the last in without a result, and gives back the chunks
/// concatenated on the last frame.
pub proof fn lemma_fragment_series_reassembles(
    st: Seq<(Seq<char>, SeriesState)>,
    address: Seq<char>,
    id: Seq<char>,
    chunks: Seq<Seq<u8>>,
)
    requires
        find_series(st, id) is None,
        0 < chunks.len() < u64_modulus(),
        encode_utf8(address).len() < u64_modulus(),
        encode_utf8(id).len() < u64_modulus(),
        forall|i: int| 0 <= i < chunks.len() ==> #[trigger] chunks[i].len() < u64_modulus(),
    ensures
        run_frames(st, fragment_series(address, id, chunks)) == (
            st,
            Seq::new((chunks.len() + 1) as nat, |i: int| SpecOutcome::Consumed) + seq![
                SpecOutcome::Completed(flatten_chunks(chunks)),
            ],
        ),
{
    let frames = fragment_series(address, id, chunks);
    lemma_accept_start(st, address, id);
    assert(series_start(st, id) == st.push((id, empty_series())));
    assert(chunk_map_of(chunks, 0) == Map::<u64, Seq<u8>>::empty());
    assert(frames.drop_first() =~= series_tail(address, id, chunks, 0));
    lemma_run_tail(st, address, id, chunks, 0);
    assert(seq![SpecOutcome::Consumed] + (Seq::new(chunks.len(), |i: int| SpecOutcome::Consumed)
        + seq![SpecOutcome::Completed(flatten_chunks(chunks))]) =~= Seq::new(
        (chunks.len() + 1) as nat,
        |i: int| SpecOutcome::Consumed,
    ) + seq![SpecOutcome::Completed(flatten_chunks(chunks))]);
}

/// Fragmentation law: a message longer than the chunk size, with a readable
/// address, sent as fragments and taken in by a receiver with no series of
/// the same id in progress, comes out whole, and only on the last frame.
pub proof fn lemma_fragmented_message_roundtrip(
    st: Seq<(Seq<char>, SeriesState)>,
    frame: Seq<u8>,
    id: Seq<char>,
    size: nat,
)
    requires
        find_series(st, id) is None,
        size > 0,
        frame.len() > size,
        frame.len() < u64_modulus(),
        spec_read_var_string(frame).0 is Ok,
        encode_utf8(id).len() < u64_modulus(),
    ensures
        run_frames(st, outbound_frames(frame, id, size)).0 == st,
        run_frames(st, outbound_frames(frame, id, size)).1.last() == SpecOutcome::Completed(frame),
        forall|i: int|
            0 <= i < run_frames(st, outbound_frames(frame, id, size)).1.len() - 1
                ==> #[trigger] run_frames(st, outbound_frames(frame, id, size)).1[i]
                == SpecOutcome::Consumed,
{
    let address = spec_read_var_string(frame).0->Ok_0;
    let chunks = split_chunks(frame, size);
    lemma_split_flatten(frame, size);
    lemma_split_len(frame, size);
    lemma_reads_consumed(frame);
    let (r, n) = crate::encoding::spec_read_var_uint(frame);
    let bytes = frame.subrange(n as int, (n + r->Ok_0) as int);
    vstd::utf8::decode_utf8_encode_utf8(bytes);
    lemma_fragment_series_reassembles(st, address, id, chunks);
}

/// The type code of a message `raw`: the var-uint after its address.
pub open spec fn frame_type(raw: Seq<u8>) -> Result<u64, crate::encoding::DecodeError> {
    let a_n = spec_read_var_string(raw).1;
    crate::encoding::spec_read_var_uint(raw.subrange(a_n as int, raw.len() as int)).0
}

/// Whether `code` is one of the three fragment types.
pub open spec fn is_fragment_code(code: u64) -> bool {
    code == MessageType::FragmentStart.wire() || code == MessageType::FragmentData.wire() || code
        == MessageType::FragmentEnd.wire()
}

/// Fragment frames never reach message handling, and other messages pass
/// reassembly untouched: a frame of a fragment type is always taken in (or
/// completes a series), and any other message leaves the series as they were
/// and is handed on.
pub proof fn lemma_fragment_frames_consumed(st: Seq<(Seq<char>, SeriesState)>, raw: Seq<u8>)
    ensures
        frame_type(raw) matches Ok(c) && is_fragment_code(c) ==> !(spec_accept(st, raw).1 is NotFragment),
        !(frame_type(raw) matches Ok(c) && is_fragment_code(c)) ==> spec_accept(st, raw) == (
            st,
            SpecOutcome::NotFragment,
        ),
{
}

/// Splitting a non-empty frame gives at least one and at most as many chunks
/// as there are bytes.
proof fn lemma_split_len(frame: Seq<u8>, size: nat)
    requires
        size > 0,
        frame.len() > 0,
    ensures
        0 < split_chunks(frame, size).len() <= frame.len(),
    decreases frame.len(),
{
    if frame.len() > size {
        lemma_split_len(frame.skip(size as int), size);
    }
}

} // verus!

verus! {

// ───────────── outbound: the chunking sink ─────────────

/// `sent` is what a sink was handed of the frames `all`: the first ones, in
/// order, each once; all of them when `finished`, else those up to and
/// including the one the sink refused.
pub open spec fn sent_in_order(all: Seq<Seq<u8>>, sent: Seq<Seq<u8>>, finished: bool) -> bool {
    &&& sent == all.take(sent.len() as int)
    &&& if finished {
        sent.len() == all.len()
    } else {
        0 < sent.len() <= all.len()
    }
}

/// A message sent as a fragment series goes out as the start frame of the
/// series under the message's own address, then one data frame for each chunk
/// in order, then the end frame; a message that is not fragmented goes out
/// unchanged, as its only frame.
pub proof fn lemma_outbound_frames_shape(frame: Seq<u8>, id: Seq<char>, size: nat)
    requires
        size > 0,
    ensures
        is_fragmented(frame, size) ==> {
            let address = spec_read_var_string(frame).0->Ok_0;
            let chunks = split_chunks(frame, size);
            let out = outbound_frames(frame, id, size);
            &&& out.len() == chunks.len() + 2
            &&& out[0] == start_frame(address, id)
            &&& forall|i: int| 0 <= i < chunks.len() ==> #[trigger] out[i + 1] == data_frame(
                address,
                id,
                i as nat,
                chunks[i],
            )
            &&& out[out.len() - 1] == end_frame(address, id)
            &&& flatten_chunks(chunks) == frame
        },
        !is_fragmented(frame, size) ==> outbound_frames(frame, id, size) == seq![frame],
{
    if is_fragmented(frame, size) {
        lemma_split_flatten(frame, size);
    }
}

/// What a chunking sink that sent a fragmented message in full handed the
/// sink it wraps: first the start frame of the series, last its end frame,
/// with the message's chunks in between in order; a message that is not
/// fragmented is handed on as it is, once.
pub proof fn lemma_sent_series(data: Seq<u8>, id: Seq<char>, size: nat, sent: Seq<Seq<u8>>)
    requires
        size > 0,
        sent_in_order(outbound_frames(data, id, size), sent, true),
    ensures
        is_fragmented(data, size) ==> {
            let address = spec_read_var_string(data).0->Ok_0;
            &&& sent[0] == start_frame(address, id)
            &&& sent[sent.len() - 1] == end_frame(address, id)
            &&& sent.len() == split_chunks(data, size).len() + 2
        },
        !is_fragmented(data, size) ==> sent == seq![data],
{
    lemma_outbound_frames_shape(data, id, size);
    assert(sent =~= outbound_frames(data, id, size));
}


/// Whether `c` is a lowercase hexadecimal digit.
pub open spec fn is_lower_hex_digit(c: char) -> bool {
    ('0' <= c && c <= '9') || ('a' <= c && c <= 'f')
}

/// Whether `s` is the hyphenated text of a version 4 UUID: 36 characters,
/// hyphens at positions 8, 13, 18 and 23 and lowercase hexadecimal digits
/// elsewhere, the version digit `4` at position 14 and one of `8`, `9`, `a`,
/// `b` (the RFC variant) at position 19.
pub open spec fn is_uuid_v4_text(s: Seq<char>) -> bool {
    &&& s.len() == 36
    &&& forall|i: int|
        0 <= i < 36 ==> if i == 8 || i == 13 || i == 18 || i == 23 {
            #[trigger] s[i] == '-'
        } else {
            is_lower_hex_digit(s[i])
        }
    &&& s[14] == '4'
    &&& (s[19] == '8' || s[19] == '9' || s[19] == 'a' || s[19] == 'b')
}

/// A fresh id for a fragment series: `uuid::Uuid::new_v4` in its `Display`
/// form, which is the lowercase hyphenated text, with the version and variant
/// bits that `new_v4` sets. Which UUID comes out is random and not claimed.
#[verifier::external_body]
fn new_series_id() -> (id: String)
    ensures
        is_uuid_v4_text(id@),
{
    uuid::Uuid::new_v4().to_string()
}

/// Whether `frame` is sent as a fragment series in chunks of `size` bytes:
/// when it is longer than a chunk and its address can be read.
pub open spec fn is_fragmented(frame: Seq<u8>, size: nat) -> bool {
    frame.len() > size && spec_read_var_string(frame).0 is Ok
}

/// A sink that sends every message longer than its chunk size as a fragment
/// series (see [`outbound_frames`]) through the sink it wraps, and shorter
/// messages unchanged.
pub struct ChunkingSink<S: WebSocketSink + ?Sized> {
    inner: Arc<S>,
    chunk_size: usize,
}

impl<S: WebSocketSink + ?Sized> ChunkingSink<S> {
    /// Its invariant: chunks are not empty.
    #[verifier::type_invariant]
    spec fn positive_chunks(self) -> bool {
        self.chunk_size > 0
    }

    /// The chunk size.
    pub closed spec fn size(&self) -> nat {
        self.chunk_size as nat
    }

    /// The sink it sends through.
    pub closed spec fn inner_sink(&self) -> Arc<S> {
        self.inner
    }

    /// Wraps `inner` with chunks of `chunk_size` bytes.
    pub fn new(inner: Arc<S>, chunk_size: usize) -> (c: Self)
        requires
            chunk_size > 0,
        ensures
            c.size() == chunk_size,
            c.inner_sink() == inner,
    {
        Self { inner, chunk_size }
    }

    /// The sink a connection sends through when messages are cut into chunks
    /// of `chunk_size` bytes: none when `chunk_size` is 0, which turns chunking
    /// off, and otherwise `inner` wrapped with that chunk size.
    pub fn for_chunk_size(inner: Arc<S>, chunk_size: usize) -> (r: Option<Self>)
        ensures
            match r {
                Some(c) => chunk_size > 0 && c.size() == chunk_size && c.inner_sink() == inner,
                None => chunk_size == 0,
            },
    {
        if chunk_size > 0 {
            Some(Self::new(inner, chunk_size))
        } else {
            None
        }
    }

    /// The frames that carry `data`: `data` itself when it fits in a chunk or
    /// has no readable address, else a fragment series under a fresh id, the
    /// text of a random version 4 UUID.
    pub fn frames_for(&self, data: &[u8]) -> (frames: Vec<Vec<u8>>)
        ensures
            exists|id: Seq<char>|
                #![trigger outbound_frames(data@, id, self.size())]
                (is_fragmented(data@, self.size()) ==> is_uuid_v4_text(id)) && frames@.map_values(
                    |f: Vec<u8>| f@,
                ) == outbound_frames(data@, id, self.size()),
    {
        proof {
            use_type_invariant(self);
        }
        let mut d = Decoder::new(data);
        assert(d.rest() =~= data@);
        let needs_series = data.len() > self.chunk_size && d.read_var_string().is_ok();
        let id = if needs_series {
            new_series_id()
        } else {
            String::new()
        };
        let frames = fragment_message(data, id.as_str(), self.chunk_size);
        assert(frames@.map_values(|f: Vec<u8>| f@) =~= outbound_frames(data@, id@, self.size()));
        assert(is_fragmented(data@, self.size()) ==> is_uuid_v4_text(id@));
        frames
    }

    /// Sends the frames of `data` (see [`ChunkingSink::frames_for`]) through
    /// the wrapped sink, in order, each once, stopping at the first one the
    /// sink refuses. Hands back the sink's answer and, as a ghost value, the
    /// frames given to it.
    pub fn send_frames(&self, data: &[u8]) -> (r: (Result<(), SinkError>, Ghost<Seq<Seq<u8>>>))
        ensures
            exists|id: Seq<char>|
                #![trigger outbound_frames(data@, id, self.size())]
                (is_fragmented(data@, self.size()) ==> is_uuid_v4_text(id)) && sent_in_order(
                    outbound_frames(data@, id, self.size()),
                    r.1@,
                    r.0 is Ok,
                ),
    {
        let frames = self.frames_for(data);
        let ghost id = choose|id: Seq<char>|
            #![trigger outbound_frames(data@, id, self.size())]
            (is_fragmented(data@, self.size()) ==> is_uuid_v4_text(id)) && frames@.map_values(
                |f: Vec<u8>| f@,
            ) == outbound_frames(data@, id, self.size());
        let ghost all = outbound_frames(data@, id, self.size());
        let ghost mut sent: Seq<Seq<u8>> = Seq::empty();
        let mut i: usize = 0;
        while i < frames.len()
            invariant
                i <= frames@.len(),
                all == outbound_frames(data@, id, self.size()),
                is_fragmented(data@, self.size()) ==> is_uuid_v4_text(id),
                frames@.map_values(|f: Vec<u8>| f@) == all,
                sent == all.take(i as int),
            decreases frames@.len() - i,
        {
            let frame = frames[i].clone();
            proof {
                assert(frame@ =~= frames@[i as int]@);
                assert(all[i as int] == frames@[i as int]@);
                assert(all.take(i + 1) =~= all.take(i as int).push(frame@));
                sent = sent.push(frame@);
            }
            match self.inner.send(frame) {
                Ok(()) => {},
                Err(e) => {
                    return (Err(e), Ghost(sent));
                },
            }
            i = i + 1;
        }
        proof {
            assert(all.take(i as int) =~= all);
        }
        (Ok(()), Ghost(sent))
    }
}

impl<S: WebSocketSink + ?Sized> WebSocketSink for ChunkingSink<S> {
    fn send(&self, data: Vec<u8>) -> Result<(), SinkError> {
        self.send_frames(data.as_slice()).0
    }

    fn close(&self, code: u16, reason: &str) -> Result<(), SinkError> {
        self.inner.close(code, reason)
    }

    fn ready_state(&self) -> WsReadyState {
        self.inner.ready_state()
    }
}

} // verus!
