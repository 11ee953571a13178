//! Routing keys: a document name and a session id joined by a NUL character,
//! which lets one socket carry several sessions of the same document.

use vstd::prelude::*;
use vstd::string::{StrSliceExecFns, StringExecFns};

verus! {

/// The character between the document name and the session id.
pub open spec fn separator() -> char {
    '\0'
}

/// Whether `c` occurs in `s`.
pub open spec fn has_char(s: Seq<char>, c: char) -> bool {
    exists|i: int| 0 <= i < s.len() && s[i] == c
}

/// The index of the first occurrence of `c` in `s`, if any.
pub open spec fn first_index_of(s: Seq<char>, c: char) -> Option<int>
    decreases s.len(),
{
    if s.len() == 0 {
        None
    } else if s[0] == c {
        Some(0)
    } else {
        match first_index_of(s.drop_first(), c) {
            Some(i) => Some(i + 1),
            None => None,
        }
    }
}

/// `first_index_of` finds the first occurrence, and finds nothing only when
/// the character does not occur.
pub proof fn lemma_first_index_of(s: Seq<char>, c: char)
    ensures
        match first_index_of(s, c) {
            Some(i) => 0 <= i < s.len() && s[i] == c && forall|j: int| 0 <= j < i ==> s[j] != c,
            None => !has_char(s, c),
        },
    decreases s.len(),
{
    if s.len() > 0 && s[0] != c {
        lemma_first_index_of(s.drop_first(), c);
        match first_index_of(s.drop_first(), c) {
            Some(i) => {
                assert forall|j: int| 0 <= j < i + 1 implies s[j] != c by {
                    if j > 0 {
                        assert(s[j] == s.drop_first()[j - 1]);
                    }
                }
            },
            None => {
                assert forall|j: int| 0 <= j < s.len() implies s[j] != c by {
                    if j > 0 {
                        assert(s[j] == s.drop_first()[j - 1]);
                    }
                }
            },
        }
    }
}

/// The key `key` split at its first separator into the document name and the
/// session id; a key without a separator is the document name alone.
pub open spec fn spec_parse_routing_key(key: Seq<char>) -> (Seq<char>, Option<Seq<char>>) {
    match first_index_of(key, separator()) {
        Some(i) => (key.subrange(0, i), Some(key.subrange(i + 1, key.len() as int))),
        None => (key, None),
    }
}

/// The routing key of a session of a document.
pub fn make_routing_key(document_name: &str, session_id: &str) -> (key: String)
    ensures
        key@ == document_name@ + seq![separator()] + session_id@,
{
    let mut key = String::from_str(document_name);
    key.append("\0");
    key.append(session_id);
    proof {
        reveal_strlit("\0");
    }
    key
}

/// Splits a routing key into the document name and the session id, at the
/// first separator.
pub fn parse_routing_key(key: &str) -> (parts: (&str, Option<&str>))
    ensures
        parts.0@ == spec_parse_routing_key(key@).0,
        match (parts.1, spec_parse_routing_key(key@).1) {
            (Some(a), Some(b)) => a@ == b,
            (None, None) => true,
            _ => false,
        },
{
    let n = key.unicode_len();
    let mut i: usize = 0;
    while i < n
        invariant
            n == key@.len(),
            i <= n,
            forall|j: int| 0 <= j < i ==> key@[j] != separator(),
        decreases n - i,
    {
        if key.get_char(i) == '\0' {
            proof {
                lemma_first_index_of(key@, separator());
            }
            let name = key.substring_char(0, i);
            let session = key.substring_char(i + 1, n);
            return (name, Some(session));
        }
        i = i + 1;
    }
    proof {
        lemma_first_index_of(key@, separator());
    }
    (key, None)
}

/// Parsing the routing key of a session gives back the document name and the
/// session id, provided the document name holds no separator.
pub proof fn lemma_routing_key_roundtrip(document_name: Seq<char>, session_id: Seq<char>)
    requires
        !has_char(document_name, separator()),
    ensures
        spec_parse_routing_key(document_name + seq![separator()] + session_id) == (
            document_name,
            Some(session_id),
        ),
{
    let key = document_name + seq![separator()] + session_id;
    let k = document_name.len() as int;
    lemma_first_index_of(key, separator());
    assert(key[k] == separator());
    assert forall|j: int| 0 <= j < k implies key[j] != separator() by {
        assert(key[j] == document_name[j]);
    }
    match first_index_of(key, separator()) {
        Some(i) => {
            if i < k {
                assert(key[i] == document_name[i]);
            }
            assert(i == k);
        },
        None => {},
    }
    assert(key.subrange(0, k) =~= document_name);
    assert(key.subrange(k + 1, key.len() as int) =~= session_id);
}

/// Splitting a routing key that holds a separator and joining the parts with
/// a separator gives the key back.
pub proof fn lemma_routing_key_split_join(key: Seq<char>)
    requires
        has_char(key, separator()),
    ensures
        ({
            let (name, session) = spec_parse_routing_key(key);
            session is Some && name + seq![separator()] + session.unwrap() == key
                && !has_char(name, separator())
        }),
{
    lemma_first_index_of(key, separator());
    let i = first_index_of(key, separator()).unwrap();
    let name = key.subrange(0, i);
    assert(name + seq![separator()] + key.subrange(i + 1, key.len() as int) =~= key);
    assert forall|j: int| 0 <= j < name.len() implies name[j] != separator() by {
        assert(name[j] == key[j]);
    }
}

} // verus!
