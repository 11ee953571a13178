//! Lists of `(name, value)` entries whose names are unique, read as maps from
//! names to values. The server keeps its per-document and per-connection
//! tables in this form.

use vstd::prelude::*;

verus! {

/// No name occurs in two entries.
pub open spec fn unique_keys<V>(s: Seq<(String, V)>) -> bool {
    forall|i: int, j: int|
        0 <= i < s.len() && 0 <= j < s.len() && #[trigger] s[i].0@ == #[trigger] s[j].0@ ==> i == j
}

/// Some entry is named `k`.
pub open spec fn has_key<V>(s: Seq<(String, V)>, k: Seq<char>) -> bool {
    exists|i: int| 0 <= i < s.len() && #[trigger] s[i].0@ == k
}

/// The entries as a map from names to values.
pub open spec fn map_of<V>(s: Seq<(String, V)>) -> Map<Seq<char>, V> {
    Map::new(
        |k: Seq<char>| has_key(s, k),
        |k: Seq<char>| s[choose|i: int| 0 <= i < s.len() && #[trigger] s[i].0@ == k].1,
    )
}

/// The entry at `i` is what the map holds for its name.
pub proof fn lemma_map_of_index<V>(s: Seq<(String, V)>, i: int)
    requires
        unique_keys(s),
        0 <= i < s.len(),
    ensures
        map_of(s).contains_key(s[i].0@),
        map_of(s)[s[i].0@] == s[i].1,
{
    let k = s[i].0@;
    assert(has_key(s, k));
    let j = choose|j: int| 0 <= j < s.len() && #[trigger] s[j].0@ == k;
    assert(s[j].0@ == s[i].0@);
}

/// Appending an entry under a new name adds it to the map.
pub proof fn lemma_map_of_push<V>(s: Seq<(String, V)>, e: (String, V))
    requires
        unique_keys(s),
        !has_key(s, e.0@),
    ensures
        unique_keys(s.push(e)),
        map_of(s.push(e)) == map_of(s).insert(e.0@, e.1),
{
    let t = s.push(e);
    assert forall|i: int, j: int|
        0 <= i < t.len() && 0 <= j < t.len() && #[trigger] t[i].0@ == #[trigger] t[j].0@ implies i
        == j by {
        if i < s.len() && j < s.len() {
            assert(s[i].0@ == s[j].0@);
        } else if i < s.len() {
            assert(s[i].0@ == e.0@);
        } else if j < s.len() {
            assert(s[j].0@ == e.0@);
        }
    }
    let m = map_of(s).insert(e.0@, e.1);
    assert forall|k: Seq<char>| #[trigger] map_of(t).contains_key(k) <==> m.contains_key(k) by {
        if has_key(s, k) {
            let i = choose|i: int| 0 <= i < s.len() && #[trigger] s[i].0@ == k;
            assert(t[i].0@ == k);
        }
        if has_key(t, k) {
            let i = choose|i: int| 0 <= i < t.len() && #[trigger] t[i].0@ == k;
            if i < s.len() {
                assert(s[i].0@ == k);
            }
        }
        if k == e.0@ {
            assert(t[s.len() as int].0@ == k);
        }
    }
    assert forall|k: Seq<char>| #[trigger] map_of(t).contains_key(k) implies map_of(t)[k]
        == m[k] by {
        let i = choose|i: int| 0 <= i < t.len() && #[trigger] t[i].0@ == k;
        lemma_map_of_index(t, i);
        if i < s.len() {
            assert(s[i] == t[i]);
            lemma_map_of_index(s, i);
        }
    }
    assert(map_of(t) =~= m);
}

/// Removing the entry at `i` removes its name from the map.
pub proof fn lemma_map_of_remove<V>(s: Seq<(String, V)>, i: int)
    requires
        unique_keys(s),
        0 <= i < s.len(),
    ensures
        unique_keys(s.remove(i)),
        map_of(s.remove(i)) == map_of(s).remove(s[i].0@),
{
    let t = s.remove(i);
    let key = s[i].0@;
    assert forall|a: int, b: int|
        0 <= a < t.len() && 0 <= b < t.len() && #[trigger] t[a].0@ == #[trigger] t[b].0@ implies a
        == b by {
        let a1 = if a < i {
            a
        } else {
            a + 1
        };
        let b1 = if b < i {
            b
        } else {
            b + 1
        };
        assert(t[a] == s[a1]);
        assert(t[b] == s[b1]);
        assert(s[a1].0@ == s[b1].0@);
    }
    let m = map_of(s).remove(key);
    assert forall|k: Seq<char>| #[trigger] map_of(t).contains_key(k) <==> m.contains_key(k) by {
        if has_key(t, k) {
            let a = choose|a: int| 0 <= a < t.len() && #[trigger] t[a].0@ == k;
            let a1 = if a < i {
                a
            } else {
                a + 1
            };
            assert(t[a] == s[a1]);
            assert(s[a1].0@ == k);
            if k == key {
                assert(s[a1].0@ == s[i].0@);
            }
        }
        if has_key(s, k) && k != key {
            let a = choose|a: int| 0 <= a < s.len() && #[trigger] s[a].0@ == k;
            assert(a != i);
            let a0 = if a < i {
                a
            } else {
                a - 1
            };
            assert(t[a0] == s[a]);
            assert(t[a0].0@ == k);
        }
    }
    assert forall|k: Seq<char>| #[trigger] map_of(t).contains_key(k) implies map_of(t)[k]
        == m[k] by {
        let a = choose|a: int| 0 <= a < t.len() && #[trigger] t[a].0@ == k;
        lemma_map_of_index(t, a);
        let a1 = if a < i {
            a
        } else {
            a + 1
        };
        assert(t[a] == s[a1]);
        lemma_map_of_index(s, a1);
    }
    assert(map_of(t) =~= m);
}

/// Replacing the value of the entry at `i` replaces it in the map.
pub proof fn lemma_map_of_update<V>(s: Seq<(String, V)>, i: int, e: (String, V))
    requires
        unique_keys(s),
        0 <= i < s.len(),
        e.0@ == s[i].0@,
    ensures
        unique_keys(s.update(i, e)),
        map_of(s.update(i, e)) == map_of(s).insert(e.0@, e.1),
{
    let t = s.update(i, e);
    assert forall|a: int, b: int|
        0 <= a < t.len() && 0 <= b < t.len() && #[trigger] t[a].0@ == #[trigger] t[b].0@ implies a
        == b by {
        assert(t[a].0@ == s[a].0@);
        assert(t[b].0@ == s[b].0@);
    }
    let m = map_of(s).insert(e.0@, e.1);
    assert forall|k: Seq<char>| #[trigger] map_of(t).contains_key(k) <==> m.contains_key(k) by {
        if has_key(t, k) {
            let a = choose|a: int| 0 <= a < t.len() && #[trigger] t[a].0@ == k;
            assert(s[a].0@ == k);
        }
        if has_key(s, k) {
            let a = choose|a: int| 0 <= a < s.len() && #[trigger] s[a].0@ == k;
            assert(t[a].0@ == k);
        }
        if k == e.0@ {
            assert(t[i].0@ == k);
        }
    }
    assert forall|k: Seq<char>| #[trigger] map_of(t).contains_key(k) implies map_of(t)[k]
        == m[k] by {
        let a = choose|a: int| 0 <= a < t.len() && #[trigger] t[a].0@ == k;
        lemma_map_of_index(t, a);
        if a != i {
            assert(t[a] == s[a]);
            lemma_map_of_index(s, a);
        }
    }
    assert(map_of(t) =~= m);
}

/// The position of the entry named `k`.
pub fn find_key<V>(v: &Vec<(String, V)>, k: &String) -> (r: Option<usize>)
    ensures
        match r {
            Some(i) => i < v@.len() && v@[i as int].0@ == k@,
            None => !has_key(v@, k@),
        },
{
    let mut i: usize = 0;
    while i < v.len()
        invariant
            i <= v@.len(),
            forall|j: int| 0 <= j < i ==> #[trigger] v@[j].0@ != k@,
        decreases v@.len() - i,
    {
        if v[i].0 == *k {
            return Some(i);
        }
        i = i + 1;
    }
    None
}

/// Sets the value under `k`, adding an entry when there is none.
pub fn insert_key<V>(v: &mut Vec<(String, V)>, k: String, value: V)
    requires
        unique_keys(old(v)@),
    ensures
        unique_keys(final(v)@),
        map_of(final(v)@) == map_of(old(v)@).insert(k@, value),
{
    match find_key(v, &k) {
        Some(i) => {
            let ghost e = (k, value);
            proof {
                lemma_map_of_update(v@, i as int, e);
            }
            v.set(i, (k, value));
        },
        None => {
            proof {
                lemma_map_of_push(v@, (k, value));
            }
            v.push((k, value));
        },
    }
}

/// Removes the entry named `k` and hands back its value.
pub fn remove_key<V>(v: &mut Vec<(String, V)>, k: &String) -> (r: Option<V>)
    requires
        unique_keys(old(v)@),
    ensures
        unique_keys(final(v)@),
        map_of(final(v)@) == map_of(old(v)@).remove(k@),
        match r {
            Some(x) => map_of(old(v)@).contains_key(k@) && map_of(old(v)@)[k@] == x,
            None => !map_of(old(v)@).contains_key(k@),
        },
{
    match find_key(v, k) {
        Some(i) => {
            proof {
                lemma_map_of_remove(v@, i as int);
                lemma_map_of_index(v@, i as int);
            }
            let (_, x) = v.remove(i);
            Some(x)
        },
        None => {
            assert(map_of(v@).remove(k@) =~= map_of(v@));
            None
        },
    }
}

/// The value under `k`.
pub fn get_key<'a, V>(v: &'a Vec<(String, V)>, k: &String) -> (r: Option<&'a V>)
    requires
        unique_keys(v@),
    ensures
        match r {
            Some(x) => map_of(v@).contains_key(k@) && map_of(v@)[k@] == *x,
            None => !map_of(v@).contains_key(k@),
        },
{
    match find_key(v, k) {
        Some(i) => {
            proof {
                lemma_map_of_index(v@, i as int);
            }
            Some(&v[i].1)
        },
        None => None,
    }
}

/// An empty list is the empty map.
pub proof fn lemma_map_of_empty<V>(s: Seq<(String, V)>)
    requires
        s.len() == 0,
    ensures
        unique_keys(s),
        map_of(s) == Map::<Seq<char>, V>::empty(),
{
    assert(map_of(s) =~= Map::<Seq<char>, V>::empty());
}

/// With unique names, the map has as many names as the list has entries.
pub proof fn lemma_map_of_len<V>(s: Seq<(String, V)>)
    requires
        unique_keys(s),
    ensures
        map_of(s).dom().finite(),
        map_of(s).dom().len() == s.len(),
    decreases s.len(),
{
    if s.len() == 0 {
        lemma_map_of_empty(s);
    } else {
        let t = s.drop_last();
        assert(unique_keys(t)) by {
            assert forall|i: int, j: int|
                0 <= i < t.len() && 0 <= j < t.len() && #[trigger] t[i].0@ == #[trigger] t[j].0@
                implies i == j by {
                assert(s[i].0@ == s[j].0@);
            }
        }
        assert(!has_key(t, s.last().0@)) by {
            if has_key(t, s.last().0@) {
                let i = choose|i: int| 0 <= i < t.len() && #[trigger] t[i].0@ == s.last().0@;
                assert(s[i].0@ == s[s.len() - 1].0@);
            }
        }
        lemma_map_of_len(t);
        lemma_map_of_push(t, s.last());
        assert(t.push(s.last()) =~= s);
    }
}

} // verus!
