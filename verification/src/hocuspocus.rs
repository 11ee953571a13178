//! The server's bookkeeping of documents and its decisions about storing and
//! unloading them: which documents are loaded, being loaded or being
//! unloaded, the order in which extensions run, and when a document leaves
//! memory. The caller runs the hooks and owns the documents' contents.

use vstd::prelude::*;
use vstd::string::StringExecFns;

use crate::types::{empty_context, Context, TransactionOrigin};

use crate::keyed::{
    find_key, get_key, insert_key, lemma_map_of_empty, lemma_map_of_len, map_of, remove_key,
    unique_keys,
};

verus! {

/// The protocol version the server reports to its extensions.
pub const VERSION: &'static str = "4.1.0";

// ───────────── extension order ─────────────

/// `order` lists each index below `n` exactly once.
pub open spec fn is_permutation(order: Seq<usize>, n: nat) -> bool {
    &&& order.len() == n
    &&& order.no_duplicates()
    &&& forall|i: int| 0 <= i < order.len() ==> #[trigger] order[i] < n
}

/// Along `order`, priorities never increase.
pub open spec fn descending(p: Seq<i32>, order: Seq<usize>) -> bool {
    forall|a: int, b: int|
        0 <= a < b < order.len() ==> p[#[trigger] order[a] as int] >= p[#[trigger] order[b] as int]
}

/// Indices of equal priority keep their relative order.
pub open spec fn stable(p: Seq<i32>, order: Seq<usize>) -> bool {
    forall|a: int, b: int|
        0 <= a < b < order.len() && p[#[trigger] order[a] as int] == p[#[trigger] order[b] as int]
            ==> order[a] < order[b]
}

/// The order in which extensions of priorities `priorities` run: higher
/// priority first, and extensions of equal priority in the order they were
/// given. The result lists each index once.
pub fn priority_order(priorities: &Vec<i32>) -> (order: Vec<usize>)
    ensures
        is_permutation(order@, priorities@.len()),
        descending(priorities@, order@),
        stable(priorities@, order@),
{
    let n = priorities.len();
    let ghost p = priorities@;
    let mut order: Vec<usize> = Vec::new();
    let mut i: usize = 0;
    while i < n
        invariant
            n == p.len(),
            p == priorities@,
            i <= n,
            order@.len() == i,
            order@.no_duplicates(),
            forall|k: int| 0 <= k < order@.len() ==> #[trigger] order@[k] < i,
            descending(p, order@),
            stable(p, order@),
        decreases n - i,
    {
        let pi = priorities[i];
        let mut k: usize = 0;
        while k < order.len() && priorities[order[k]] >= pi
            invariant
                n == p.len(),
                p == priorities@,
                i < n,
                pi == p[i as int],
                k <= order@.len(),
                forall|m: int| 0 <= m < order@.len() ==> #[trigger] order@[m] < i,
                forall|m: int| 0 <= m < k ==> p[#[trigger] order@[m] as int] >= pi,
            decreases order@.len() - k,
        {
            k = k + 1;
        }
        let ghost old_order = order@;
        proof {
            assert forall|m: int| k <= m < old_order.len() implies p[#[trigger] old_order[m] as int]
                < pi by {
                if k < old_order.len() {
                    assert(p[old_order[k as int] as int] < pi);
                    if m > k {
                        assert(p[old_order[k as int] as int] >= p[old_order[m] as int]);
                    }
                }
            }
        }
        order.insert(k, i);
        proof {
            let o = order@;
            assert(o == old_order.insert(k as int, i));
            assert forall|m: int| 0 <= m < o.len() implies #[trigger] o[m] < i + 1 by {
                if m < k {
                    assert(o[m] == old_order[m]);
                } else if m > k {
                    assert(o[m] == old_order[m - 1]);
                }
            }
            assert forall|a: int, b: int| 0 <= a < b < o.len() implies p[#[trigger] o[a] as int]
                >= p[#[trigger] o[b] as int] by {
                if a < k && b < k {
                    assert(o[a] == old_order[a] && o[b] == old_order[b]);
                } else if a < k && b == k {
                    assert(o[a] == old_order[a]);
                } else if a < k {
                    assert(o[a] == old_order[a] && o[b] == old_order[b - 1]);
                } else if a == k {
                    assert(o[b] == old_order[b - 1]);
                } else {
                    assert(o[a] == old_order[a - 1] && o[b] == old_order[b - 1]);
                }
            }
            assert forall|a: int, b: int|
                0 <= a < b < o.len() && p[#[trigger] o[a] as int] == p[#[trigger] o[b] as int]
                implies o[a] < o[b] by {
                if a < k && b < k {
                    assert(o[a] == old_order[a] && o[b] == old_order[b]);
                } else if a < k && b == k {
                    assert(o[a] == old_order[a]);
                } else if a < k {
                    assert(o[a] == old_order[a] && o[b] == old_order[b - 1]);
                } else if a == k {
                    assert(o[b] == old_order[b - 1]);
                } else {
                    assert(o[a] == old_order[a - 1] && o[b] == old_order[b - 1]);
                }
            }
            assert forall|a: int, b: int| 0 <= a < o.len() && 0 <= b < o.len() && a != b implies o[a]
                != o[b] by {
                let a1 = if a < k {
                    a
                } else if a == k {
                    -1
                } else {
                    a - 1
                };
                let b1 = if b < k {
                    b
                } else if b == k {
                    -1
                } else {
                    b - 1
                };
                if a1 >= 0 && b1 >= 0 {
                    assert(o[a] == old_order[a1] && o[b] == old_order[b1]);
                } else if a1 >= 0 {
                    assert(o[a] == old_order[a1]);
                } else if b1 >= 0 {
                    assert(o[b] == old_order[b1]);
                }
            }
        }
        i = i + 1;
    }
    order
}

// ───────────── document names ─────────────

/// The characters Rust counts as white space (Unicode `White_Space`).
pub open spec fn is_white_space(c: char) -> bool {
    ||| '\u{9}' <= c <= '\u{d}'
    ||| c == ' '
    ||| c == '\u{85}'
    ||| c == '\u{a0}'
    ||| c == '\u{1680}'
    ||| '\u{2000}' <= c <= '\u{200a}'
    ||| c == '\u{2028}'
    ||| c == '\u{2029}'
    ||| c == '\u{202f}'
    ||| c == '\u{205f}'
    ||| c == '\u{3000}'
}

/// Whether `c` is white space (see [`is_white_space`]).
pub fn white_space(c: char) -> (b: bool)
    ensures
        b == is_white_space(c),
{
    ('\u{9}' <= c && c <= '\u{d}') || c == ' ' || c == '\u{85}' || c == '\u{a0}' || c == '\u{1680}'
        || ('\u{2000}' <= c && c <= '\u{200a}') || c == '\u{2028}' || c == '\u{2029}' || c
        == '\u{202f}' || c == '\u{205f}' || c == '\u{3000}'
}

/// A name that is empty once white space is trimmed: every character of it is
/// white space.
pub open spec fn is_blank(name: Seq<char>) -> bool {
    forall|i: int| 0 <= i < name.len() ==> is_white_space(#[trigger] name[i])
}

/// Whether no document can have the name `name`, because it is blank.
pub fn is_blank_name(name: &str) -> (b: bool)
    ensures
        b == is_blank(name@),
{
    let n = name.unicode_len();
    let mut i: usize = 0;
    while i < n
        invariant
            n == name@.len(),
            i <= n,
            forall|j: int| 0 <= j < i ==> is_white_space(#[trigger] name@[j]),
        decreases n - i,
    {
        if !white_space(name.get_char(i)) {
            return false;
        }
        i = i + 1;
    }
    true
}

// ───────────── the documents ─────────────

/// What creating a document starts.
pub enum CreateStep<'a, D> {
    /// The name is blank: no document is created.
    BlankName,
    /// The document is loaded already.
    Loaded(&'a D),
    /// The document must be loaded; it is now marked as loading.
    Load,
    /// Another caller is loading the document already: wait for its
    /// `finish_load` and take what it gave, rather than loading it twice.
    Wait,
}

/// The documents of a server: those in memory, by name, and the names of
/// those being loaded and being unloaded.
pub struct DocumentRegistry<D> {
    documents: Vec<(String, D)>,
    loading: Vec<(String, ())>,
    unloading: Vec<(String, ())>,
}

impl<D> DocumentRegistry<D> {
    /// The documents in memory, by name.
    pub closed spec fn documents(&self) -> Map<Seq<char>, D> {
        map_of(self.documents@)
    }

    /// The names being loaded.
    pub closed spec fn loading(&self) -> Set<Seq<char>> {
        map_of(self.loading@).dom()
    }

    /// The names being unloaded.
    pub closed spec fn unloading(&self) -> Set<Seq<char>> {
        map_of(self.unloading@).dom()
    }

    /// Its internal invariant.
    pub closed spec fn wf(&self) -> bool {
        &&& unique_keys(self.documents@)
        &&& unique_keys(self.loading@)
        &&& unique_keys(self.unloading@)
    }

    /// No documents.
    pub fn new() -> (r: Self)
        ensures
            r.wf(),
            r.documents() == Map::<Seq<char>, D>::empty(),
            r.loading() == Set::<Seq<char>>::empty(),
            r.unloading() == Set::<Seq<char>>::empty(),
    {
        let r = Self { documents: Vec::new(), loading: Vec::new(), unloading: Vec::new() };
        proof {
            lemma_map_of_empty(r.documents@);
            lemma_map_of_empty(r.loading@);
            lemma_map_of_empty(r.unloading@);
            assert(r.loading() =~= Set::<Seq<char>>::empty());
            assert(r.unloading() =~= Set::<Seq<char>>::empty());
        }
        r
    }

    /// The number of documents in memory.
    pub fn documents_count(&self) -> (n: usize)
        requires
            self.wf(),
        ensures
            n == self.documents().len(),
    {
        proof {
            lemma_map_of_len(self.documents@);
        }
        self.documents.len()
    }

    /// The document named `name`, if it is in memory.
    pub fn get(&self, name: &String) -> (r: Option<&D>)
        requires
            self.wf(),
        ensures
            match r {
                Some(d) => self.documents().contains_key(name@) && self.documents()[name@] == *d,
                None => !self.documents().contains_key(name@),
            },
    {
        get_key(&self.documents, name)
    }

    /// The documents in memory, each once, in no particular order.
    pub fn values(&self) -> (v: Vec<&D>)
        requires
            self.wf(),
        ensures
            v@.len() == self.documents().len(),
            forall|i: int| #![trigger v@[i]] 0 <= i < v@.len() ==> self.documents().contains_value(*v@[i]),
            forall|k: Seq<char>|
                #[trigger] self.documents().contains_key(k) ==> exists|i: int|
                    0 <= i < v@.len() && *v@[i] == self.documents()[k],
    {
        proof {
            lemma_map_of_len(self.documents@);
        }
        let mut v: Vec<&D> = Vec::new();
        let mut i: usize = 0;
        while i < self.documents.len()
            invariant
                self.wf(),
                i <= self.documents@.len(),
                v@.len() == i,
                forall|j: int| 0 <= j < i ==> *v@[j] == #[trigger] self.documents@[j].1,
            decreases self.documents@.len() - i,
        {
            v.push(&self.documents[i].1);
            i = i + 1;
        }
        proof {
            assert forall|j: int| #![trigger v@[j]] 0 <= j < v@.len() implies self.documents().contains_value(*v@[j]) by {
                crate::keyed::lemma_map_of_index(self.documents@, j);
                assert(*v@[j] == self.documents@[j].1);
            }
            assert forall|k: Seq<char>| #[trigger] self.documents().contains_key(k) implies exists|i: int|
                0 <= i < v@.len() && *v@[i] == self.documents()[k] by {
                let j = choose|j: int| 0 <= j < self.documents@.len() && #[trigger] self.documents@[j].0@ == k;
                crate::keyed::lemma_map_of_index(self.documents@, j);
                assert(*v@[j] == self.documents@[j].1);
            }
        }
        v
    }

    /// What starting to create `name` does: from registry `before` to `after`,
    /// answering `step` (see [`CreateStep`]).
    pub open spec fn create_begun(before: Self, after: Self, name: Seq<char>, step: CreateStep<D>) -> bool {
        &&& after.wf()
        &&& after.documents() == before.documents()
        &&& after.unloading() == before.unloading()
        &&& match step {
            CreateStep::BlankName => is_blank(name) && after.loading() == before.loading(),
            CreateStep::Loaded(d) => !is_blank(name) && before.documents().contains_key(name)
                && before.documents()[name] == *d && after.loading() == before.loading(),
            CreateStep::Load => !is_blank(name) && !before.documents().contains_key(name)
                && !before.loading().contains(name) && after.loading() == before.loading().insert(
                name,
            ),
            CreateStep::Wait => !is_blank(name) && !before.documents().contains_key(name)
                && before.loading().contains(name) && after.loading() == before.loading(),
        }
    }

    /// Starts creating the document `name`: see [`CreateStep`].
    pub fn begin_create(&mut self, name: &String) -> (step: CreateStep<D>)
        requires
            old(self).wf(),
        ensures
            Self::create_begun(*old(self), *final(self), name@, step),
    {
        if is_blank_name(name.as_str()) {
            return CreateStep::BlankName;
        }
        if find_key(&self.documents, name).is_none() {
            if find_key(&self.loading, name).is_some() {
                return CreateStep::Wait;
            }
            insert_key(&mut self.loading, name.clone(), ());
            proof {
                assert(self.loading() =~= old(self).loading().insert(name@));
            }
            return CreateStep::Load;
        }
        match get_key(&self.documents, name) {
            Some(d) => CreateStep::Loaded(d),
            None => CreateStep::BlankName,
        }
    }

    /// A document is loaded once: once one caller has started loading `name`,
    /// the next caller that starts creating it, before the load ends, waits for
    /// that load rather than loading it again.
    pub proof fn lemma_create_loads_once(
        r0: Self,
        r1: Self,
        r2: Self,
        name: Seq<char>,
        second: CreateStep<D>,
    )
        requires
            Self::create_begun(r0, r1, name, CreateStep::Load),
            Self::create_begun(r1, r2, name, second),
        ensures
            second is Wait,
            r2.loading() == r1.loading(),
    {
        assert(r1.loading().contains(name));
    }

    /// Once the load of `name` has given the document `d`, starting to create
    /// `name` hands back `d`.
    pub proof fn lemma_created_after_load(r0: Self, r1: Self, r2: Self, name: Seq<char>, d: D, step: CreateStep<D>)
        requires
            r1.documents() == r0.documents().insert(name, d),
            Self::create_begun(r1, r2, name, step),
            !is_blank(name),
        ensures
            step matches CreateStep::Loaded(e) && *e == d,
    {
    }

    /// Loading `name` has ended; when it gave a document, that document is now
    /// in memory under `name`.
    pub fn finish_load(&mut self, name: &String, loaded: Option<D>)
        requires
            old(self).wf(),
        ensures
            final(self).wf(),
            final(self).loading() == old(self).loading().remove(name@),
            final(self).unloading() == old(self).unloading(),
            final(self).documents() == match loaded {
                Some(d) => old(self).documents().insert(name@, d),
                None => old(self).documents(),
            },
    {
        if let Some(d) = loaded {
            insert_key(&mut self.documents, name.clone(), d);
        }
        let _ = remove_key(&mut self.loading, name);
        proof {
            assert(self.loading() =~= old(self).loading().remove(name@));
        }
    }

    /// Starts unloading `name`, which the caller has found ready to unload
    /// (`ready`): it starts only for a document in memory that is not being
    /// unloaded already.
    pub fn begin_unload(&mut self, name: &String, ready: bool) -> (started: bool)
        requires
            old(self).wf(),
        ensures
            final(self).wf(),
            started == (ready && old(self).documents().contains_key(name@) && !old(
                self,
            ).unloading().contains(name@)),
            final(self).documents() == old(self).documents(),
            final(self).loading() == old(self).loading(),
            final(self).unloading() == if started {
                old(self).unloading().insert(name@)
            } else {
                old(self).unloading()
            },
    {
        if !ready || find_key(&self.documents, name).is_none() || find_key(
            &self.unloading,
            name,
        ).is_some() {
            return false;
        }
        insert_key(&mut self.unloading, name.clone(), ());
        proof {
            assert(self.unloading() =~= old(self).unloading().insert(name@));
        }
        true
    }

    /// Unloading `name` has ended; when `removed`, the document has left
    /// memory, and it is handed back.
    pub fn finish_unload(&mut self, name: &String, removed: bool) -> (gone: Option<D>)
        requires
            old(self).wf(),
        ensures
            final(self).wf(),
            final(self).unloading() == old(self).unloading().remove(name@),
            final(self).loading() == old(self).loading(),
            final(self).documents() == if removed {
                old(self).documents().remove(name@)
            } else {
                old(self).documents()
            },
            match gone {
                Some(d) => removed && old(self).documents().contains_key(name@) && old(
                    self,
                ).documents()[name@] == d,
                None => !removed || !old(self).documents().contains_key(name@),
            },
    {
        let _ = remove_key(&mut self.unloading, name);
        proof {
            assert(self.unloading() =~= old(self).unloading().remove(name@));
        }
        if removed {
            remove_key(&mut self.documents, name)
        } else {
            None
        }
    }
}

// ───────────── storing and unloading ─────────────

/// The id under which storing the document `document_name` is debounced.
pub fn store_debounce_id(document_name: &str) -> (id: String)
    ensures
        id@ == "onStoreDocument-"@ + document_name@,
{
    let mut id = String::from_str("onStoreDocument-");
    id.append(document_name);
    id
}

/// The delay before storing: none when the store is asked for immediately,
/// else the configured debounce.
pub fn store_delay(immediately: bool, debounce: u64) -> (ms: u64)
    ensures
        ms == if immediately {
            0
        } else {
            debounce
        },
{
    if immediately {
        0
    } else {
        debounce
    }
}

/// A document may leave memory when no store of it waits or runs and no
/// connection uses it.
pub open spec fn spec_should_unload(
    store_pending: bool,
    store_running: bool,
    connections_count: nat,
) -> bool {
    !store_pending && !store_running && connections_count == 0
}

/// Whether a document may leave memory (see [`spec_should_unload`]).
pub fn should_unload(store_pending: bool, store_running: bool, connections_count: usize) -> (b:
    bool)
    ensures
        b == spec_should_unload(store_pending, store_running, connections_count as nat),
{
    !(store_pending || store_running) && connections_count == 0
}

/// What follows when a client connection to a document closes.
#[derive(Debug, Clone, Copy, PartialEq, Eq, Structural)]
pub enum AfterDisconnect {
    /// Other connections remain, or a store waits and is left to its timer.
    Keep,
    /// Run the waiting store now (the document unloads after it).
    StoreNow,
    /// Unload the document.
    Unload,
}

/// What follows when a client connection to a document closes, given the
/// connections left, whether the document is still loading, whether a store
/// of it waits, and whether documents are unloaded as soon as they can be.
pub open spec fn spec_after_disconnect(
    connections_count: nat,
    is_loading: bool,
    store_pending: bool,
    unload_immediately: bool,
) -> AfterDisconnect {
    if connections_count > 0 {
        AfterDisconnect::Keep
    } else if !is_loading && store_pending {
        if unload_immediately {
            AfterDisconnect::StoreNow
        } else {
            AfterDisconnect::Keep
        }
    } else {
        AfterDisconnect::Unload
    }
}

/// Decides what follows a closed connection (see [`spec_after_disconnect`]).
pub fn after_disconnect(
    connections_count: usize,
    is_loading: bool,
    store_pending: bool,
    unload_immediately: bool,
) -> (a: AfterDisconnect)
    ensures
        a == spec_after_disconnect(
            connections_count as nat,
            is_loading,
            store_pending,
            unload_immediately,
        ),
{
    if connections_count > 0 {
        AfterDisconnect::Keep
    } else if !is_loading && store_pending {
        if unload_immediately {
            AfterDisconnect::StoreNow
        } else {
            AfterDisconnect::Keep
        }
    } else {
        AfterDisconnect::Unload
    }
}

/// How the store hooks of a document ended.
#[derive(Debug, Clone, Copy, PartialEq, Eq, Structural)]
pub enum StoreOutcome {
    /// Every store hook succeeded.
    Stored,
    /// A hook asked for the remaining hooks to be skipped.
    SkipFurther,
    /// A hook failed.
    Failed,
}

/// What follows the store hooks: whether the after-store hooks run, and
/// whether the document may then be unloaded. A failed store keeps the
/// document in memory.
pub fn after_store(outcome: StoreOutcome) -> (r: (bool, bool))
    ensures
        r.0 == (outcome == StoreOutcome::Stored),
        r.1 == (outcome != StoreOutcome::Failed),
{
    match outcome {
        StoreOutcome::Stored => (true, true),
        StoreOutcome::SkipFurther => (false, true),
        StoreOutcome::Failed => (false, false),
    }
}

/// After a direct connection disconnects and its store has run, the server
/// runs the disconnect hooks and unloads the document when nothing uses it
/// and no store holds it.
pub fn unload_after_direct_disconnect(connections_count: usize, store_in_progress: bool) -> (b:
    bool)
    ensures
        b == (connections_count == 0 && !store_in_progress),
{
    connections_count == 0 && !store_in_progress
}

// ───────────── counting connections ─────────────

/// The number of distinct strings among `ids`.
pub open spec fn distinct_count(ids: Seq<String>) -> nat {
    ids.map_values(|s: String| s@).to_set().len()
}

/// The number of distinct socket ids among `socket_ids`: a client with
/// several documents open is one connection.
pub fn count_distinct(socket_ids: &Vec<String>) -> (n: usize)
    ensures
        n == distinct_count(socket_ids@),
{
    let ghost ids = socket_ids@.map_values(|s: String| s@);
    let mut seen: Vec<(String, ())> = Vec::new();
    proof {
        lemma_map_of_empty(seen@);
    }
    let mut i: usize = 0;
    while i < socket_ids.len()
        invariant
            ids == socket_ids@.map_values(|s: String| s@),
            i <= socket_ids@.len(),
            unique_keys(seen@),
            map_of(seen@).dom() == ids.take(i as int).to_set(),
        decreases socket_ids@.len() - i,
    {
        insert_key(&mut seen, socket_ids[i].clone(), ());
        proof {
            lemma_map_of_len(seen@);
            assert(ids.take(i + 1) =~= ids.take(i as int).push(ids[i as int]));
            ids.take(i as int).lemma_push_to_set_commute(ids[i as int]);
            assert(ids.take(i + 1).to_set() =~= ids.take(i as int).to_set().insert(ids[i as int]));
            assert(map_of(seen@).dom() =~= ids.take(i + 1).to_set());
        }
        i = i + 1;
    }
    proof {
        assert(ids.take(i as int) =~= ids);
        lemma_map_of_len(seen@);
    }
    seen.len()
}


// ───────────── hooks and changes ─────────────

/// What running one extension's hook gave.
#[derive(Debug, Clone, Copy, PartialEq, Eq, Structural)]
pub enum HookOutcome {
    /// It returned normally.
    Done,
    /// It returned the error that asks to skip the hooks after it.
    SkipFurther,
    /// It returned any other error.
    Failed,
}

/// Where a chain of hooks goes next. The extensions run in their configured
/// order (see [`priority_order`]), one hook at a time.
#[derive(Debug, Clone, Copy, PartialEq, Eq, Structural)]
pub enum HookStep {
    /// Run the hook of the extension at this position.
    Run(usize),
    /// Every hook has run: the chain succeeds.
    Finished,
    /// A hook asked to skip the rest: the chain ends with that error, which
    /// its caller may read as such.
    Skipped,
    /// A hook failed: the chain ends with its error.
    Failed,
}

/// The first step of a chain over `count` extensions.
pub open spec fn spec_hook_start(count: nat) -> HookStep {
    if count == 0 {
        HookStep::Finished
    } else {
        HookStep::Run(0)
    }
}

/// The step after the hook at `index`, of `count`, gave `outcome`: the next
/// hook when it returned normally and one is left, the end of the chain
/// otherwise. The first error stops the chain.
pub open spec fn spec_hook_step(index: nat, count: nat, outcome: HookOutcome) -> HookStep {
    match outcome {
        HookOutcome::Done => if index + 1 < count {
            HookStep::Run((index + 1) as usize)
        } else {
            HookStep::Finished
        },
        HookOutcome::SkipFurther => HookStep::Skipped,
        HookOutcome::Failed => HookStep::Failed,
    }
}

/// Starts a chain of hooks over `count` extensions (see [`spec_hook_start`]).
pub fn hook_start(count: usize) -> (s: HookStep)
    ensures
        s == spec_hook_start(count as nat),
{
    if count == 0 {
        HookStep::Finished
    } else {
        HookStep::Run(0)
    }
}

/// The step of a chain of hooks over `count` extensions after the hook at
/// `index` gave `outcome` (see [`spec_hook_step`]).
pub fn hook_step(index: usize, count: usize, outcome: HookOutcome) -> (s: HookStep)
    requires
        index < count,
    ensures
        s == spec_hook_step(index as nat, count as nat, outcome),
{
    match outcome {
        HookOutcome::Done => if index + 1 < count {
            HookStep::Run(index + 1)
        } else {
            HookStep::Finished
        },
        HookOutcome::SkipFurther => HookStep::Skipped,
        HookOutcome::Failed => HookStep::Failed,
    }
}

/// The hooks a chain over `count` extensions runs from position `i` on, when
/// the hook at position `j` gives `outcomes[j]`, and how the chain ends.
pub open spec fn chain_from(count: nat, outcomes: Seq<HookOutcome>, i: nat) -> (Seq<nat>, HookStep)
    decreases count - i,
{
    if i >= count {
        (Seq::empty(), HookStep::Finished)
    } else {
        match spec_hook_step(i, count, outcomes[i as int]) {
            HookStep::Run(_) => {
                let rest = chain_from(count, outcomes, i + 1);
                (seq![i] + rest.0, rest.1)
            },
            other => (seq![i], other),
        }
    }
}

proof fn lemma_chain_from(count: nat, outcomes: Seq<HookOutcome>, i: nat, k: nat)
    requires
        i <= k <= count,
        outcomes.len() == count,
        forall|j: int| i <= j < k ==> #[trigger] outcomes[j] == HookOutcome::Done,
        k < count ==> outcomes[k as int] != HookOutcome::Done,
    ensures
        chain_from(count, outcomes, i).0 == Seq::new(
            (if k < count {
                k + 1 - i
            } else {
                k - i
            }) as nat,
            |j: int| (i + j) as nat,
        ),
        chain_from(count, outcomes, i).1 == if k < count {
            if outcomes[k as int] == HookOutcome::SkipFurther {
                HookStep::Skipped
            } else {
                HookStep::Failed
            }
        } else {
            HookStep::Finished
        },
    decreases count - i,
{
    let expected = Seq::new(
        (if k < count {
            k + 1 - i
        } else {
            k - i
        }) as nat,
        |j: int| (i + j) as nat,
    );
    if i >= count {
        assert(chain_from(count, outcomes, i).0 =~= expected);
    } else if i < k {
        assert(outcomes[i as int] == HookOutcome::Done);
        if i + 1 < count {
            lemma_chain_from(count, outcomes, i + 1, k);
            assert(chain_from(count, outcomes, i).0 =~= expected);
        } else {
            assert(chain_from(count, outcomes, i).0 =~= expected);
        }
    } else {
        assert(chain_from(count, outcomes, i).0 =~= expected);
    }
}

/// A chain of hooks runs the extensions' hooks in their order, each once,
/// until one gives an error: when the first error comes from the hook at `k`
/// the chain has run the hooks `0..=k` and ends with that error (a request to
/// skip the rest, or a failure); when no hook gives one (`k == count`) every
/// hook has run and the chain succeeds.
pub proof fn lemma_hook_chain(count: nat, outcomes: Seq<HookOutcome>, k: nat)
    requires
        k <= count,
        outcomes.len() == count,
        forall|j: int| 0 <= j < k ==> #[trigger] outcomes[j] == HookOutcome::Done,
        k < count ==> outcomes[k as int] != HookOutcome::Done,
    ensures
        chain_from(count, outcomes, 0).0 == Seq::new(
            (if k < count {
                k + 1
            } else {
                k
            }) as nat,
            |j: int| j as nat,
        ),
        chain_from(count, outcomes, 0).1 == if k < count {
            if outcomes[k as int] == HookOutcome::SkipFurther {
                HookStep::Skipped
            } else {
                HookStep::Failed
            }
        } else {
            HookStep::Finished
        },
        count > 0 ==> spec_hook_start(count) == HookStep::Run(0),
{
    lemma_chain_from(count, outcomes, 0, k);
    assert(Seq::new(
        (if k < count {
            k + 1
        } else {
            k
        }) as nat,
        |j: int| (0 + j) as nat,
    ) =~= Seq::new(
        (if k < count {
            k + 1
        } else {
            k
        }) as nat,
        |j: int| j as nat,
    ));
}

/// The context a chain of hooks ends with: a hook that returns a context
/// replaces the one before, a hook that returns none keeps it.
pub fn merge_hook_context(current: Option<Context>, returned: Option<Context>) -> (c: Option<
    Context,
>)
    ensures
        c == match returned {
            Some(r) => Some(r),
            None => current,
        },
{
    match returned {
        Some(r) => Some(r),
        None => current,
    }
}

/// The connection that made a change, when a client connection did.
pub fn change_connection_id(origin: &Option<TransactionOrigin>) -> (id: Option<String>)
    ensures
        match origin {
            Some(TransactionOrigin::Connection(c)) => id matches Some(s) && s@ == c.connection_id@,
            _ => id is None,
        },
{
    match origin {
        Some(TransactionOrigin::Connection(c)) => Some(c.connection_id.clone()),
        _ => None,
    }
}

/// The context the change hooks receive for a change of `origin`: that of a
/// local change when it carries one, else an empty context.
pub fn change_context(origin: Option<TransactionOrigin>) -> (c: Context)
    ensures
        match origin {
            Some(TransactionOrigin::Local(l)) => match l.context {
                Some(ctx) => c == ctx,
                None => c.value is None,
            },
            _ => c.value is None,
        },
{
    match origin {
        Some(TransactionOrigin::Local(l)) => match l.context {
            Some(ctx) => ctx,
            None => empty_context(),
        },
        _ => empty_context(),
    }
}

} // verus!
