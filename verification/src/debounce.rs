//! The bookkeeping of the debouncer that postpones storing a document: which
//! calls are waiting, since when, and which are running. Time is given in
//! milliseconds by the caller, who also owns the timers and runs the work.

use vstd::prelude::*;

use crate::keyed::{find_key, insert_key, lemma_map_of_empty, map_of, remove_key, unique_keys};

verus! {

/// What to do with a call to debounce.
#[derive(Debug, Clone, Copy, PartialEq, Eq, Structural)]
pub enum DebounceDecision {
    /// Run the work now.
    RunNow,
    /// Run the work when `delay_ms` have passed without another call.
    Schedule { delay_ms: u64 },
}

/// Milliseconds from `start` to `now`, or zero when `now` is earlier.
pub open spec fn elapsed(start: u64, now: u64) -> int {
    if now >= start {
        now - start
    } else {
        0
    }
}

/// The pending calls after debouncing `id` at `now`, and whether the work runs
/// now: a call keeps the start of the call it replaces, and runs at once when
/// there is no delay or the first postponed call is `max_debounce_ms` old.
pub open spec fn spec_debounce(
    pending: Map<Seq<char>, u64>,
    id: Seq<char>,
    now: u64,
    debounce_ms: u64,
    max_debounce_ms: u64,
) -> (Map<Seq<char>, u64>, DebounceDecision) {
    let start = if pending.contains_key(id) {
        pending[id]
    } else {
        now
    };
    if debounce_ms == 0 || elapsed(start, now) >= max_debounce_ms {
        (pending.remove(id), DebounceDecision::RunNow)
    } else {
        (pending.insert(id, start), DebounceDecision::Schedule { delay_ms: debounce_ms })
    }
}

/// Calls waiting to run, by id with the time of the first postponed call, and
/// the ids whose work is running.
pub struct Debouncer {
    timers: Vec<(String, u64)>,
    running: Vec<(String, ())>,
}

impl Debouncer {
    /// The waiting calls: id and the start of the series it belongs to.
    pub closed spec fn pending(&self) -> Map<Seq<char>, u64> {
        map_of(self.timers@)
    }

    /// The ids whose work is running.
    pub closed spec fn executing(&self) -> Set<Seq<char>> {
        map_of(self.running@).dom()
    }

    /// Its internal invariant.
    pub closed spec fn wf(&self) -> bool {
        unique_keys(self.timers@) && unique_keys(self.running@)
    }

    /// Nothing waiting, nothing running.
    pub fn new() -> (d: Self)
        ensures
            d.wf(),
            d.pending() == Map::<Seq<char>, u64>::empty(),
            d.executing() == Set::<Seq<char>>::empty(),
    {
        let d = Self { timers: Vec::new(), running: Vec::new() };
        proof {
            lemma_map_of_empty(d.timers@);
            lemma_map_of_empty(d.running@);
        }
        d
    }

    /// Debounces the work `id` at time `now_ms`: see [`spec_debounce`].
    pub fn debounce(&mut self, id: &String, now_ms: u64, debounce_ms: u64, max_debounce_ms: u64) -> (d:
        DebounceDecision)
        requires
            old(self).wf(),
        ensures
            final(self).wf(),
            (final(self).pending(), d) == spec_debounce(
                old(self).pending(),
                id@,
                now_ms,
                debounce_ms,
                max_debounce_ms,
            ),
            final(self).executing() == old(self).executing(),
    {
        let start = match find_key(&self.timers, id) {
            Some(i) => {
                proof {
                    crate::keyed::lemma_map_of_index(self.timers@, i as int);
                }
                self.timers[i].1
            },
            None => now_ms,
        };
        let _ = remove_key(&mut self.timers, id);
        let waited = if now_ms >= start {
            now_ms - start
        } else {
            0
        };
        if debounce_ms == 0 || waited >= max_debounce_ms {
            DebounceDecision::RunNow
        } else {
            insert_key(&mut self.timers, id.clone(), start);
            proof {
                assert(map_of(old(self).timers@).remove(id@).insert(id@, start) =~= map_of(
                    old(self).timers@,
                ).insert(id@, start));
            }
            DebounceDecision::Schedule { delay_ms: debounce_ms }
        }
    }

    /// The work `id` starts running: it stops waiting.
    pub fn begin_run(&mut self, id: &String)
        requires
            old(self).wf(),
        ensures
            final(self).wf(),
            final(self).pending() == old(self).pending().remove(id@),
            final(self).executing() == old(self).executing().insert(id@),
    {
        let _ = remove_key(&mut self.timers, id);
        insert_key(&mut self.running, id.clone(), ());
    }

    /// The work `id` has finished running.
    pub fn finish_run(&mut self, id: &String)
        requires
            old(self).wf(),
        ensures
            final(self).wf(),
            final(self).pending() == old(self).pending(),
            final(self).executing() == old(self).executing().remove(id@),
    {
        let _ = remove_key(&mut self.running, id);
    }

    /// Takes the waiting call `id` out so that it runs now; false when none waits.
    pub fn execute_now(&mut self, id: &String) -> (run: bool)
        requires
            old(self).wf(),
        ensures
            final(self).wf(),
            run == old(self).pending().contains_key(id@),
            final(self).pending() == old(self).pending().remove(id@),
            final(self).executing() == old(self).executing(),
    {
        remove_key(&mut self.timers, id).is_some()
    }

    /// Whether a call `id` waits.
    pub fn is_debounced(&self, id: &String) -> (b: bool)
        ensures
            b == self.pending().contains_key(id@),
    {
        find_key(&self.timers, id).is_some()
    }

    /// Whether the work `id` is running.
    pub fn is_currently_executing(&self, id: &String) -> (b: bool)
        ensures
            b == self.executing().contains(id@),
    {
        find_key(&self.running, id).is_some()
    }
}

/// The pending calls after a series of calls to debounce `id` at the times
/// `times`, starting from `pending`, and the decision of the last call.
pub open spec fn debounce_series(
    pending: Map<Seq<char>, u64>,
    id: Seq<char>,
    times: Seq<u64>,
    debounce_ms: u64,
    max_debounce_ms: u64,
) -> Map<Seq<char>, u64>
    decreases times.len(),
{
    if times.len() == 0 {
        pending
    } else {
        spec_debounce(
            debounce_series(pending, id, times.drop_last(), debounce_ms, max_debounce_ms),
            id,
            times.last(),
            debounce_ms,
            max_debounce_ms,
        ).0
    }
}

/// Work is never postponed past `max_debounce_ms` after the first call of a
/// series: while calls to `id` keep coming at the non-decreasing times
/// `times`, the series keeps the time of its first call, and a call made
/// `max_debounce_ms` or more after it runs the work at once.
pub proof fn lemma_debounce_bounded(
    id: Seq<char>,
    times: Seq<u64>,
    debounce_ms: u64,
    max_debounce_ms: u64,
)
    requires
        times.len() > 0,
        forall|i: int, j: int| 0 <= i <= j < times.len() ==> times[i] <= times[j],
    ensures
        ({
            let p = debounce_series(Map::empty(), id, times, debounce_ms, max_debounce_ms);
            p.contains_key(id) ==> times[0] <= p[id] <= times.last() && times.last() - p[id]
                < max_debounce_ms
        }),
    decreases times.len(),
{
    let p = debounce_series(Map::empty(), id, times, debounce_ms, max_debounce_ms);
    let prev = times.drop_last();
    let q = debounce_series(Map::empty(), id, prev, debounce_ms, max_debounce_ms);
    if prev.len() > 0 {
        lemma_debounce_bounded(id, prev, debounce_ms, max_debounce_ms);
        assert(prev.last() == times[times.len() - 2]);
        assert(prev[0] == times[0]);
    } else {
        assert(q == Map::<Seq<char>, u64>::empty());
    }
}

} // verus!
