//! Awareness states: per client, a JSON object with what the client shares
//! about itself (cursor, user name, ...).

use std::collections::HashMap;
use vstd::prelude::*;
use vstd::std_specs::iter::IteratorSpec;

verus! {

broadcast use vstd::std_specs::hash::group_hash_axioms;

/// A JSON value of `serde_json`, carried through unread.
#[verifier::external_type_specification]
#[verifier::external_body]
pub struct ExJsonValue(serde_json::Value);

/// The state a client shares, by field name.
pub type AwarenessState = HashMap<String, serde_json::Value>;

/// One client's awareness state.
pub struct ClientAwarenessState {
    pub client_id: u64,
    pub state: AwarenessState,
}

/// The states by client as a list: one entry per client of `states`, each
/// with a copy of that client's state, in no particular order.
pub fn awareness_states_to_array(states: &HashMap<u64, AwarenessState>) -> (list: Vec<
    ClientAwarenessState,
>)
    ensures
        list@.len() == states@.len(),
        forall|i: int|
            #![trigger list@[i]]
            0 <= i < list@.len() ==> states@.contains_key(list@[i].client_id) && list@[i].state@
                == states@[list@[i].client_id]@,
        forall|c: u64| #[trigger] states@.contains_key(c) ==> exists|i: int|
            0 <= i < list@.len() && list@[i].client_id == c,
        forall|i: int, j: int|
            0 <= i < j < list@.len() ==> #[trigger] list@[i].client_id != #[trigger] list@[j].client_id,
{
    let mut list: Vec<ClientAwarenessState> = Vec::new();
    let ghost v = vstd::std_specs::hash::spec_hash_map_iter(states).remaining();
    for (client_id, state) in it: states.iter()
        invariant
            v == vstd::std_specs::hash::spec_hash_map_iter(states).remaining(),
            it.seq() == v,
            list@.len() == it.index(),
            forall|i: int|
                #![trigger list@[i]]
                0 <= i < list@.len() ==> list@[i].client_id == *v[i].0 && list@[i].state@
                    == v[i].1@,
    {
        list.push(ClientAwarenessState { client_id: *client_id, state: state.clone() });
    }
    proof {
        assert forall|c: u64| #[trigger] states@.contains_key(c) implies exists|i: int|
            0 <= i < list@.len() && list@[i].client_id == c by {
            assert(v.contains((&c, &states@[c])));
            let i = choose|i: int| 0 <= i < v.len() && v[i] == (&c, &states@[c]);
            assert(list@[i].client_id == *v[i].0);
        }
        assert forall|i: int, j: int|
            0 <= i < j < list@.len() implies #[trigger] list@[i].client_id != #[trigger] list@[j].client_id by {
            if list@[i].client_id == list@[j].client_id {
                assert(*v[i].0 == *v[j].0);
                assert(states@[*v[i].0] == *v[i].1);
                assert(states@[*v[j].0] == *v[j].1);
                assert(v[i] == v[j]);
            }
        }
    }
    list
}

} // verus!
