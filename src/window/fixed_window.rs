//! The fixed-window counter: one count per epoch-aligned window.

use crate::clock::unix_seconds;
use std::collections::HashMap;
use vstd::prelude::*;
use vstd::std_specs::hash::group_hash_axioms;
use vstd::std_specs::hash::spec_hash_map_iter;
use vstd::std_specs::hash::spec_keys_iter;
use vstd::std_specs::iter::IteratorSpec;

verus! {

broadcast use group_hash_axioms;

/// The index of the window of `window` seconds that holds the second `now`,
/// counted from the UNIX epoch.
pub open spec fn window_index(now: u64, window: nat) -> u64 {
    (now as nat / window) as u64
}

/// The registry without the windows before `current`.
pub open spec fn prune(counts: Map<u64, u32>, current: u64) -> Map<u64, u32> {
    counts.restrict(Set::new(|k: u64| k >= current))
}

/// The abstract state of a fixed-window counter: the limit, the window length
/// in seconds, and the number of requests admitted in each recorded window.
pub struct FixedWindowView {
    pub limit: nat,
    pub window: nat,
    pub counts: Map<u64, u32>,
}

impl FixedWindowView {
    /// Positive limit and window, and no window counted past the limit.
    pub open spec fn wf(self) -> bool {
        &&& 0 < self.limit <= u32::MAX
        &&& self.window > 0
        &&& forall|k: u64| #[trigger] self.counts.contains_key(k) ==> self.counts[k] <= self.limit
    }

    /// The number of requests admitted in window `index`.
    pub open spec fn count(self, index: u64) -> nat {
        if self.counts.contains_key(index) {
            self.counts[index] as nat
        } else {
            0
        }
    }

    /// A request in second `now`: admitted, and counted, if its window has
    /// admitted fewer than `limit`.
    pub open spec fn consume(self, now: u64) -> (FixedWindowView, bool) {
        let index = window_index(now, self.window);
        let c = self.count(index);
        if c < self.limit {
            (FixedWindowView { counts: self.counts.insert(index, (c + 1) as u32), ..self }, true)
        } else {
            (self, false)
        }
    }

    /// Drops every window before the one that holds the second `now`.
    pub open spec fn clear_old(self, now: u64) -> FixedWindowView {
        FixedWindowView { counts: prune(self.counts, window_index(now, self.window)), ..self }
    }
}

impl FixedWindowView {
    /// Runs requests in the given seconds, in order. Returns the final state
    /// and the number admitted.
    pub open spec fn run(self, times: Seq<u64>) -> (FixedWindowView, nat)
        decreases times.len(),
    {
        if times.len() == 0 {
            (self, 0)
        } else {
            let (next, admitted) = self.consume(times[0]);
            let (fin, count) = next.run(times.drop_first());
            (fin, if admitted { count + 1 } else { count })
        }
    }
}

/// Requests that all fall in one window are admitted at most as many times as
/// the limit leaves room for in that window, so never more than `limit`.
pub proof fn lemma_admitted_within_window(s: FixedWindowView, times: Seq<u64>, index: u64)
    requires
        s.wf(),
        forall|i: int| 0 <= i < times.len() ==> window_index(#[trigger] times[i], s.window) == index,
    ensures
        s.count(index) + s.run(times).1 <= s.limit,
    decreases times.len(),
{
    if times.len() > 0 {
        assert(window_index(times[0], s.window) == index);
        let next = s.consume(times[0]).0;
        let rest = times.drop_first();
        assert forall|i: int| 0 <= i < rest.len() implies window_index(#[trigger] rest[i], s.window)
            == index by {
            assert(rest[i] == times[i + 1]);
        }
        lemma_admitted_within_window(next, rest, index);
    }
}

/// Clearing old windows twice at the same time leaves the registry as
/// clearing once does.
pub proof fn lemma_clear_idempotent(s: FixedWindowView, now: u64)
    ensures
        s.clear_old(now).clear_old(now) == s.clear_old(now),
{
    assert(s.clear_old(now).clear_old(now).counts =~= s.clear_old(now).counts);
}

/// A fixed-window counter: at most `limit` requests in each window of the
/// configured length, windows aligned to the UNIX epoch.
pub struct FixedWindowCounter {
    limit: u32,
    window: u64,
    windows: HashMap<u64, u32>,
}

impl View for FixedWindowCounter {
    type V = FixedWindowView;

    closed spec fn view(&self) -> FixedWindowView {
        FixedWindowView {
            limit: self.limit as nat,
            window: self.window as nat,
            counts: self.windows@,
        }
    }
}

impl FixedWindowCounter {
    /// A counter admitting `limit` requests per window of `window_secs`
    /// seconds, with no window recorded yet.
    pub fn new(limit: u32, window_secs: u64) -> (r: Self)
        requires
            limit > 0,
            window_secs > 0,
        ensures
            r@ == (FixedWindowView {
                limit: limit as nat,
                window: window_secs as nat,
                counts: Map::empty(),
            }),
            r@.wf(),
    {
        FixedWindowCounter { limit, window: window_secs, windows: HashMap::new() }
    }

    /// Decides a request made in second `now` since the UNIX epoch.
    pub fn try_consume_at(&mut self, now: u64) -> (r: bool)
        requires
            old(self)@.wf(),
        ensures
            (final(self)@, r) == old(self)@.consume(now),
            final(self)@.wf(),
    {
        let index = now / self.window;
        let count: u32 = match self.windows.get(&index) {
            Some(c) => *c,
            None => 0,
        };
        assert(index == window_index(now, self.window as nat));
        assert(count as nat == old(self)@.count(index));
        if count < self.limit {
            self.windows.insert(index, count + 1);
            true
        } else {
            false
        }
    }

    /// Decides a request at the present wall-clock time.
    pub fn try_consume(&mut self) -> (r: bool)
        requires
            old(self)@.wf(),
        ensures
            exists|now: u64| (final(self)@, r) == old(self)@.consume(now),
            final(self)@.wf(),
    {
        let now = unix_seconds();
        self.try_consume_at(now)
    }

    /// Drops the record of every window before the one that holds the second
    /// `now`.
    pub fn clear_old_windows_at(&mut self, now: u64)
        requires
            old(self)@.wf(),
        ensures
            final(self)@ == old(self)@.clear_old(now),
            final(self)@.wf(),
    {
        let current = now / self.window;
        let mut kept: HashMap<u64, u32> = HashMap::new();
        for entry in it: self.windows.iter()
            invariant
                it.seq() == spec_hash_map_iter(&self.windows).remaining(),
                forall|k: u64| #[trigger] kept@.contains_key(k) ==> {
                    &&& self.windows@.contains_key(k)
                    &&& k >= current
                    &&& kept@[k] == self.windows@[k]
                },
                forall|i: int|
                    0 <= i < it.index() && *(#[trigger] it.seq()[i]).0 >= current
                        ==> kept@.contains_key(*it.seq()[i].0),
        {
            let (k, v) = entry;
            if *k >= current {
                kept.insert(*k, *v);
            }
        }
        proof {
            let target = prune(self.windows@, current);
            assert forall|k: u64| #[trigger] target.contains_key(k) implies kept@.contains_key(k) by {
                let v = spec_hash_map_iter(&self.windows).remaining();
                assert(v.contains((&k, &self.windows@[k])));
                let i = choose|i: int| 0 <= i < v.len() && v[i] == (&k, &self.windows@[k]);
                assert(*v[i].0 >= current);
            }
            assert(kept@ =~= target);
        }
        self.windows = kept;
    }

    /// Drops the record of every window before the present one.
    pub fn clear_old_windows(&mut self)
        requires
            old(self)@.wf(),
        ensures
            exists|now: u64| final(self)@ == old(self)@.clear_old(now),
            final(self)@.wf(),
    {
        let now = unix_seconds();
        self.clear_old_windows_at(now)
    }

    /// The number of windows on record.
    pub fn window_count(&self) -> (r: usize)
        ensures
            r == self@.counts.len(),
    {
        self.windows.len()
    }

    /// The indices of the windows on record, each once, in no set order.
    pub fn recorded_windows(&self) -> (r: Vec<u64>)
        ensures
            r@.to_set() == self@.counts.dom(),
            r@.no_duplicates(),
    {
        let mut out: Vec<u64> = Vec::new();
        for k in it: self.windows.keys()
            invariant
                it.seq() == spec_keys_iter(&self.windows).remaining(),
                out@ == it.seq().take(it.index()).map_values(|k: &u64| *k),
        {
            out.push(*k);
            proof {
                assert(it.seq().take(it.index() + 1) == it.seq().take(it.index()).push(it.seq()[it.index()]));
            }
        }
        proof {
            let v = spec_keys_iter(&self.windows).remaining();
            assert(v.take(v.len() as int) == v);
            assert(out@ == v.unref());
        }
        out
    }

    /// The number of requests admitted in window `index`.
    pub fn count_in(&self, index: u64) -> (r: u32)
        ensures
            r as nat == self@.count(index),
    {
        match self.windows.get(&index) {
            Some(c) => *c,
            None => 0,
        }
    }
}

} // verus!
