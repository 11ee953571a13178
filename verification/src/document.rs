//! The connections of a document: who is connected, under which address
//! their messages go out, which awareness clients they brought, and how many
//! server-side (direct) connections hold the document.

use vstd::prelude::*;

use crate::encoding::{var_array_bytes, var_string_bytes, var_uint_bytes};
use crate::keyed::{
    find_key, get_key, insert_key, lemma_map_of_empty, lemma_map_of_index, lemma_map_of_len,
    lemma_map_of_update, map_of, remove_key, unique_keys,
};
use crate::message_type::MessageType;
use crate::outgoing_message::{yjs_update, OutgoingMessage};

verus! {

/// A client connection to a document.
pub struct ConnectionEntry<W> {
    /// The awareness clients this connection brought.
    pub clients: Vec<u64>,
    pub socket_id: String,
    pub read_only: bool,
    /// The address its messages go out under.
    pub message_address: String,
    /// Where its frames are sent.
    pub sink: W,
}

/// What is sent to every connection of a document.
pub enum Broadcast<'a> {
    /// A Yjs update.
    Update(&'a [u8]),
    /// An awareness update.
    Awareness(&'a [u8]),
    /// A stateless payload.
    Stateless(&'a str),
}

/// The frame that carries `b` to a connection whose address is `address`.
pub open spec fn broadcast_frame(address: Seq<char>, b: Broadcast) -> Seq<u8> {
    match b {
        Broadcast::Update(u) => var_string_bytes(address) + var_uint_bytes(
            MessageType::Sync.wire() as nat,
        ) + var_uint_bytes(yjs_update()) + var_array_bytes(u@),
        Broadcast::Awareness(u) => var_string_bytes(address) + var_uint_bytes(
            MessageType::Awareness.wire() as nat,
        ) + var_array_bytes(u@),
        Broadcast::Stateless(p) => var_string_bytes(address) + var_uint_bytes(
            MessageType::Stateless.wire() as nat,
        ) + var_string_bytes(p@),
    }
}

/// The connections of a document by connection id, and its number of direct
/// connections.
pub struct ConnectionRegistry<W> {
    entries: Vec<(String, ConnectionEntry<W>)>,
    direct: usize,
}

impl<W> ConnectionRegistry<W> {
    /// The client connections by id.
    pub closed spec fn connections(&self) -> Map<Seq<char>, ConnectionEntry<W>> {
        map_of(self.entries@)
    }

    /// The number of direct connections.
    pub closed spec fn direct(&self) -> nat {
        self.direct as nat
    }

    /// All connections: client and direct.
    pub open spec fn count(&self) -> nat {
        self.connections().len() + self.direct()
    }

    /// Its internal invariant: ids are unique, and the count fits in a `usize`.
    pub closed spec fn wf(&self) -> bool {
        &&& unique_keys(self.entries@)
        &&& self.entries@.len() + self.direct <= usize::MAX
    }

    /// No connections.
    pub fn new() -> (r: Self)
        ensures
            r.wf(),
            r.connections() == Map::<Seq<char>, ConnectionEntry<W>>::empty(),
            r.direct() == 0,
    {
        let r = Self { entries: Vec::new(), direct: 0 };
        proof {
            lemma_map_of_empty(r.entries@);
        }
        r
    }

    /// Registers the connection `id` (replacing one of the same id) with no
    /// awareness clients yet.
    pub fn add_connection(
        &mut self,
        id: &str,
        socket_id: &str,
        read_only: bool,
        message_address: &str,
        sink: W,
    )
        requires
            old(self).wf(),
            old(self).count() < usize::MAX,
        ensures
            final(self).wf(),
            final(self).direct() == old(self).direct(),
            final(self).connections().dom() == old(self).connections().dom().insert(id@),
            forall|k: Seq<char>|
                k != id@ && #[trigger] old(self).connections().contains_key(k) ==> final(self).connections()[k] == old(self).connections()[k],
            final(self).connections()[id@].clients@ == Seq::<u64>::empty(),
            final(self).connections()[id@].socket_id@ == socket_id@,
            final(self).connections()[id@].read_only == read_only,
            final(self).connections()[id@].message_address@ == message_address@,
            final(self).connections()[id@].sink == sink,
    {
        proof {
            lemma_map_of_len(self.entries@);
        }
        let entry = ConnectionEntry {
            clients: Vec::new(),
            socket_id: socket_id.to_string(),
            read_only,
            message_address: message_address.to_string(),
            sink,
        };
        proof {
            vstd::string::to_string_from_display_ensures_for_str(socket_id, entry.socket_id);
            vstd::string::to_string_from_display_ensures_for_str(
                message_address,
                entry.message_address,
            );
        }
        let key = id.to_string();
        proof {
            vstd::string::to_string_from_display_ensures_for_str(id, key);
        }
        insert_key(&mut self.entries, key, entry);
        proof {
            lemma_map_of_len(self.entries@);
            assert(self.connections().dom() =~= old(self).connections().dom().insert(id@));
            if !old(self).connections().contains_key(id@) {
                assert(self.connections().len() == old(self).connections().len() + 1);
            } else {
                assert(self.connections().dom() =~= old(self).connections().dom());
            }
        }
    }

    /// Whether the connection `id` is registered.
    pub fn has_connection(&self, id: &String) -> (b: bool)
        ensures
            b == self.connections().contains_key(id@),
    {
        find_key(&self.entries, id).is_some()
    }

    /// Unregisters the connection `id`, handing back the awareness clients it
    /// brought, whose states are to be dropped.
    pub fn remove_connection(&mut self, id: &String) -> (clients: Option<Vec<u64>>)
        requires
            old(self).wf(),
        ensures
            final(self).wf(),
            final(self).direct() == old(self).direct(),
            final(self).connections() == old(self).connections().remove(id@),
            match clients {
                Some(c) => old(self).connections().contains_key(id@) && c@ == old(self).connections()[id@].clients@,
                None => !old(self).connections().contains_key(id@),
            },
    {
        proof {
            lemma_map_of_len(self.entries@);
        }
        let r = remove_key(&mut self.entries, id);
        proof {
            lemma_map_of_len(self.entries@);
        }
        match r {
            Some(e) => Some(e.clients),
            None => None,
        }
    }

    /// One more direct connection.
    pub fn add_direct_connection(&mut self)
        requires
            old(self).wf(),
            old(self).count() < usize::MAX,
        ensures
            final(self).wf(),
            final(self).connections() == old(self).connections(),
            final(self).direct() == old(self).direct() + 1,
    {
        proof {
            lemma_map_of_len(self.entries@);
        }
        self.direct = self.direct + 1;
    }

    /// One direct connection less; the count does not go below zero.
    pub fn remove_direct_connection(&mut self)
        requires
            old(self).wf(),
        ensures
            final(self).wf(),
            final(self).connections() == old(self).connections(),
            final(self).direct() == if old(self).direct() > 0 {
                (old(self).direct() - 1) as nat
            } else {
                0
            },
    {
        if self.direct > 0 {
            self.direct = self.direct - 1;
        }
    }

    /// The number of connections, client and direct.
    pub fn connections_count(&self) -> (n: usize)
        requires
            self.wf(),
        ensures
            n == self.count(),
    {
        proof {
            lemma_map_of_len(self.entries@);
        }
        self.entries.len() + self.direct
    }

    /// The number of direct connections.
    pub fn direct_connections_count(&self) -> (n: usize)
        ensures
            n == self.direct(),
    {
        self.direct
    }

    /// The connection `id`, if registered.
    pub fn get(&self, id: &String) -> (r: Option<&ConnectionEntry<W>>)
        requires
            self.wf(),
        ensures
            match r {
                Some(e) => self.connections().contains_key(id@) && self.connections()[id@] == *e,
                None => !self.connections().contains_key(id@),
            },
    {
        get_key(&self.entries, id)
    }

    /// The registered connections with their ids, each once, in no particular
    /// order.
    pub fn entries(&self) -> (v: Vec<(&String, &ConnectionEntry<W>)>)
        requires
            self.wf(),
        ensures
            v@.len() == self.connections().len(),
            forall|i: int|
                #![trigger v@[i]]
                0 <= i < v@.len() ==> self.connections().contains_key(v@[i].0@)
                    && self.connections()[v@[i].0@] == *v@[i].1,
            forall|k: Seq<char>|
                #[trigger] self.connections().contains_key(k) ==> exists|i: int|
                    0 <= i < v@.len() && v@[i].0@ == k,
    {
        proof {
            lemma_map_of_len(self.entries@);
        }
        let mut v: Vec<(&String, &ConnectionEntry<W>)> = Vec::new();
        let mut i: usize = 0;
        while i < self.entries.len()
            invariant
                self.wf(),
                i <= self.entries@.len(),
                v@.len() == i,
                forall|j: int|
                    0 <= j < i ==> *v@[j].0 == #[trigger] self.entries@[j].0 && *v@[j].1
                        == self.entries@[j].1,
            decreases self.entries@.len() - i,
        {
            v.push((&self.entries[i].0, &self.entries[i].1));
            i = i + 1;
        }
        proof {
            assert forall|j: int| #![trigger v@[j]] 0 <= j < v@.len() implies self.connections().contains_key(
                v@[j].0@,
            ) && self.connections()[v@[j].0@] == *v@[j].1 by {
                lemma_map_of_index(self.entries@, j);
                assert(*v@[j].0 == self.entries@[j].0);
            }
            assert forall|k: Seq<char>| #[trigger] self.connections().contains_key(k) implies exists|
                i: int,
            | 0 <= i < v@.len() && v@[i].0@ == k by {
                let j = choose|j: int|
                    0 <= j < self.entries@.len() && #[trigger] self.entries@[j].0@ == k;
                assert(*v@[j].0 == self.entries@[j].0);
            }
        }
        v
    }

    /// The frame for each connection that carries `b`, under the connection's
    /// own address: one per connection, with its id and sink.
    pub fn broadcast_frames(&self, b: &Broadcast) -> (frames: Vec<(&String, &W, Vec<u8>)>)
        requires
            self.wf(),
        ensures
            frames@.len() == self.connections().len(),
            forall|i: int|
                #![trigger frames@[i]]
                0 <= i < frames@.len() ==> {
                    let k = frames@[i].0@;
                    &&& self.connections().contains_key(k)
                    &&& self.connections()[k].sink == *frames@[i].1
                    &&& frames@[i].2@ == broadcast_frame(self.connections()[k].message_address@, *b)
                },
            forall|k: Seq<char>|
                #[trigger] self.connections().contains_key(k) ==> exists|i: int|
                    0 <= i < frames@.len() && frames@[i].0@ == k,
    {
        let entries = self.entries();
        let mut frames: Vec<(&String, &W, Vec<u8>)> = Vec::new();
        let mut i: usize = 0;
        while i < entries.len()
            invariant
                self.wf(),
                i <= entries@.len(),
                entries@.len() == self.connections().len(),
                forall|j: int|
                    #![trigger entries@[j]]
                    0 <= j < entries@.len() ==> self.connections().contains_key(entries@[j].0@)
                        && self.connections()[entries@[j].0@] == *entries@[j].1,
                forall|k: Seq<char>|
                    #[trigger] self.connections().contains_key(k) ==> exists|j: int|
                        0 <= j < entries@.len() && entries@[j].0@ == k,
                frames@.len() == i,
                forall|j: int|
                    #![trigger frames@[j]]
                    0 <= j < i ==> frames@[j].0 == entries@[j].0 && frames@[j].1 == &entries@[j].1.sink
                        && frames@[j].2@ == broadcast_frame(entries@[j].1.message_address@, *b),
            decreases entries@.len() - i,
        {
            let (id, e) = entries[i];
            let address = e.message_address.as_str();
            let frame = match b {
                Broadcast::Update(u) => OutgoingMessage::new(address).create_sync_message().write_update(
                    u,
                ).to_vec(),
                Broadcast::Awareness(u) => OutgoingMessage::new(
                    address,
                ).create_awareness_update_message(u).to_vec(),
                Broadcast::Stateless(p) => OutgoingMessage::new(address).write_stateless(p).to_vec(),
            };
            frames.push((id, &e.sink, frame));
            i = i + 1;
        }
        proof {
            assert forall|k: Seq<char>| #[trigger] self.connections().contains_key(k) implies exists|
                j: int,
            | 0 <= j < frames@.len() && frames@[j].0@ == k by {
                let j = choose|j: int| 0 <= j < entries@.len() && entries@[j].0@ == k;
                assert(frames@[j].0 == entries@[j].0);
            }
            assert forall|j: int| #![trigger frames@[j]] 0 <= j < frames@.len() implies {
                let k = frames@[j].0@;
                &&& self.connections().contains_key(k)
                &&& self.connections()[k].sink == *frames@[j].1
                &&& frames@[j].2@ == broadcast_frame(self.connections()[k].message_address@, *b)
            } by {
                assert(self.connections().contains_key(entries@[j].0@));
            }
        }
        frames
    }

    /// Records that the connection `id` brought the awareness client `client`.
    pub fn add_client(&mut self, id: &String, client: u64)
        requires
            old(self).wf(),
        ensures
            final(self).wf(),
            final(self).direct() == old(self).direct(),
            final(self).connections().dom() == old(self).connections().dom(),
            forall|k: Seq<char>|
                k != id@ && #[trigger] old(self).connections().contains_key(k) ==> final(self).connections()[k] == old(self).connections()[k],
            old(self).connections().contains_key(id@) ==> ({
                let (o, n) = (old(self).connections()[id@], final(self).connections()[id@]);
                &&& n.clients@.to_set() == o.clients@.to_set().insert(client)
                &&& n.socket_id == o.socket_id
                &&& n.read_only == o.read_only
                &&& n.message_address == o.message_address
                &&& n.sink == o.sink
            }),
    {
        self.update_clients(id, client, true);
    }

    /// Records that the awareness client `client` left the connection `id`.
    pub fn remove_client(&mut self, id: &String, client: u64)
        requires
            old(self).wf(),
        ensures
            final(self).wf(),
            final(self).direct() == old(self).direct(),
            final(self).connections().dom() == old(self).connections().dom(),
            forall|k: Seq<char>|
                k != id@ && #[trigger] old(self).connections().contains_key(k) ==> final(self).connections()[k] == old(self).connections()[k],
            old(self).connections().contains_key(id@) ==> ({
                let (o, n) = (old(self).connections()[id@], final(self).connections()[id@]);
                &&& n.clients@.to_set() == o.clients@.to_set().remove(client)
                &&& n.socket_id == o.socket_id
                &&& n.read_only == o.read_only
                &&& n.message_address == o.message_address
                &&& n.sink == o.sink
            }),
    {
        self.update_clients(id, client, false);
    }

    fn update_clients(&mut self, id: &String, client: u64, add: bool)
        requires
            old(self).wf(),
        ensures
            final(self).wf(),
            final(self).direct() == old(self).direct(),
            final(self).connections().dom() == old(self).connections().dom(),
            forall|k: Seq<char>|
                k != id@ && #[trigger] old(self).connections().contains_key(k) ==> final(self).connections()[k] == old(self).connections()[k],
            old(self).connections().contains_key(id@) ==> ({
                let (o, n) = (old(self).connections()[id@], final(self).connections()[id@]);
                &&& n.clients@.to_set() == if add {
                    o.clients@.to_set().insert(client)
                } else {
                    o.clients@.to_set().remove(client)
                }
                &&& n.socket_id == o.socket_id
                &&& n.read_only == o.read_only
                &&& n.message_address == o.message_address
                &&& n.sink == o.sink
            }),
    {
        proof {
            lemma_map_of_len(self.entries@);
        }
        match remove_key(&mut self.entries, id) {
            None => {
                proof {
                    assert(map_of(self.entries@) =~= map_of(old(self).entries@));
                    lemma_map_of_len(self.entries@);
                    lemma_map_of_len(old(self).entries@);
                }
            },
            Some(e) => {
                let ghost before = e.clients@;
                let mut kept: Vec<u64> = Vec::new();
                let mut i: usize = 0;
                while i < e.clients.len()
                    invariant
                        i <= e.clients@.len(),
                        before == e.clients@,
                        kept@.to_set() == before.take(i as int).to_set().remove(client),
                    decreases e.clients@.len() - i,
                {
                    let c = e.clients[i];
                    proof {
                        assert(before.take(i + 1) =~= before.take(i as int).push(c));
                        before.take(i as int).lemma_push_to_set_commute(c);
                    }
                    if c != client {
                        proof {
                            kept@.lemma_push_to_set_commute(c);
                        }
                        kept.push(c);
                        assert(kept@.to_set() =~= before.take(i + 1).to_set().remove(client));
                    } else {
                        assert(kept@.to_set() =~= before.take(i + 1).to_set().remove(client));
                    }
                    i = i + 1;
                }
                proof {
                    assert(before.take(i as int) =~= before);
                }
                if add {
                    proof {
                        kept@.lemma_push_to_set_commute(client);
                        assert(kept@.push(client).to_set() =~= before.to_set().insert(client));
                    }
                    kept.push(client);
                }
                let entry = ConnectionEntry {
                    clients: kept,
                    socket_id: e.socket_id,
                    read_only: e.read_only,
                    message_address: e.message_address,
                    sink: e.sink,
                };
                proof {
                    lemma_map_of_len(self.entries@);
                }
                insert_key(&mut self.entries, id.clone(), entry);
                proof {
                    lemma_map_of_len(self.entries@);
                    lemma_map_of_len(old(self).entries@);
                    assert(map_of(self.entries@).dom() =~= map_of(old(self).entries@).dom());
                    assert(self.entries@.len() == old(self).entries@.len());
                }
            },
        }
    }
}

} // verus!
