//! The sliding-window counter: an exact count of the requests admitted over
//! the trailing window.

use crate::clock::unix_nanos;
use std::collections::VecDeque;
use vstd::prelude::*;

verus! {

/// Whether a request logged at `t` has left the window of length `window`
/// that ends at `now`. A time ahead of `now` has not.
pub open spec fn expired(t: u128, now: u128, window: nat) -> bool {
    now > t && (now - t) as nat > window
}

/// The log after dropping, from its front, every request that has left the
/// window ending at `now`. Dropping stops at the first request still inside.
pub open spec fn evict(log: Seq<u128>, now: u128, window: nat) -> Seq<u128>
    decreases log.len(),
{
    if log.len() > 0 && expired(log[0], now, window) {
        evict(log.drop_first(), now, window)
    } else {
        log
    }
}

/// Eviction keeps a suffix of the log. If the last `k` requests are still
/// inside the window, that suffix holds them all.
pub proof fn lemma_evict_keeps_recent(log: Seq<u128>, now: u128, window: nat, k: nat)
    requires
        k <= log.len(),
        forall|j: int| log.len() - k <= j < log.len() ==> !expired(#[trigger] log[j], now, window),
    ensures
        k <= evict(log, now, window).len() <= log.len(),
        evict(log, now, window) == log.subrange(
            log.len() - evict(log, now, window).len(),
            log.len() as int,
        ),
    decreases log.len(),
{
    if log.len() > 0 && expired(log[0], now, window) {
        let rest = log.drop_first();
        assert(k < log.len()) by {
            if k == log.len() {
                assert(!expired(log[0], now, window));
            }
        }
        assert forall|j: int| rest.len() - k <= j < rest.len() implies !expired(
            #[trigger] rest[j],
            now,
            window,
        ) by {
            assert(rest[j] == log[j + 1]);
        }
        lemma_evict_keeps_recent(rest, now, window, k);
        let e = evict(rest, now, window);
        assert(e == log.subrange(log.len() - e.len(), log.len() as int));
    } else {
        assert(log == log.subrange(0, log.len() as int));
    }
}

/// The abstract state of a sliding-window counter: the limit, the window
/// length in nanoseconds, and the log of admitted request times, oldest
/// first, in nanoseconds since the UNIX epoch.
pub struct SlidingWindowView {
    pub limit: nat,
    pub window: nat,
    pub log: Seq<u128>,
}

impl SlidingWindowView {
    /// Positive limit and window, and never more than `limit` logged requests.
    pub open spec fn wf(self) -> bool {
        &&& self.limit > 0
        &&& self.window > 0
        &&& self.log.len() <= self.limit
    }

    /// A request at `now`: evict what has left the window, then admit and log
    /// the request if fewer than `limit` remain.
    pub open spec fn consume(self, now: u128) -> (SlidingWindowView, bool) {
        let kept = evict(self.log, now, self.window);
        if kept.len() < self.limit {
            (SlidingWindowView { log: kept.push(now), ..self }, true)
        } else {
            (SlidingWindowView { log: kept, ..self }, false)
        }
    }

    /// Runs requests at the given times, in order. Returns the final state and
    /// the number admitted.
    pub open spec fn run(self, times: Seq<u128>) -> (SlidingWindowView, nat)
        decreases times.len(),
    {
        if times.len() == 0 {
            (self, 0)
        } else {
            let (next, admitted) = self.consume(times[0]);
            let (fin, count) = next.run(times.drop_first());
            (fin, if admitted { count + 1 } else { count })
        }
    }
}

/// Whether every time in `times` lies in `[t0, t0 + window]`.
pub open spec fn all_within(times: Seq<u128>, t0: u128, window: nat) -> bool {
    forall|i: int| 0 <= i < times.len() ==> t0 <= #[trigger] times[i] && times[i] <= t0 + window
}

proof fn lemma_admitted_bound(s: SlidingWindowView, times: Seq<u128>, t0: u128, k: nat)
    requires
        s.wf(),
        k <= s.log.len(),
        forall|j: int|
            s.log.len() - k <= j < s.log.len() ==> t0 <= #[trigger] s.log[j] && s.log[j] <= t0
                + s.window,
        all_within(times, t0, s.window),
    ensures
        k + s.run(times).1 <= s.limit,
    decreases times.len(),
{
    if times.len() > 0 {
        let now = times[0];
        assert(t0 <= times[0] && times[0] <= t0 + s.window);
        lemma_evict_keeps_recent(s.log, now, s.window, k);
        let kept = evict(s.log, now, s.window);
        let (next, admitted) = s.consume(now);
        let rest = times.drop_first();
        assert(all_within(rest, t0, s.window)) by {
            assert forall|i: int| 0 <= i < rest.len() implies t0 <= #[trigger] rest[i] && rest[i]
                <= t0 + s.window by {
                assert(rest[i] == times[i + 1]);
            }
        }
        assert forall|j: int| kept.len() - k <= j < kept.len() implies t0 <= #[trigger] kept[j]
            && kept[j] <= t0 + s.window by {
            assert(kept[j] == s.log[s.log.len() - kept.len() + j]);
        }
        if admitted {
            assert forall|j: int| next.log.len() - (k + 1) <= j < next.log.len() implies t0
                <= #[trigger] next.log[j] && next.log[j] <= t0 + s.window by {
                if j < kept.len() {
                    assert(next.log[j] == kept[j]);
                }
            }
            lemma_admitted_bound(next, rest, t0, k + 1);
        } else {
            lemma_admitted_bound(next, rest, t0, k);
        }
    }
}

/// Requests whose times all fall within one window length of each other are
/// admitted at most `limit` times, whatever the log held before.
pub proof fn lemma_admitted_within_window(s: SlidingWindowView, times: Seq<u128>, t0: u128)
    requires
        s.wf(),
        all_within(times, t0, s.window),
    ensures
        s.run(times).1 <= s.limit,
{
    lemma_admitted_bound(s, times, t0, 0);
}

/// When the logged requests and the new ones all fall within one window
/// length, nothing is evicted: of `n` requests exactly
/// `min(n, limit - logged)` are admitted, in whatever order they arrive.
/// From an empty log, `n >= limit` requests admit exactly `limit`.
pub proof fn lemma_admits_exactly(s: SlidingWindowView, times: Seq<u128>, t0: u128)
    requires
        s.wf(),
        all_within(s.log, t0, s.window),
        all_within(times, t0, s.window),
    ensures
        s.run(times).1 == if times.len() <= s.limit - s.log.len() {
            times.len() as int
        } else {
            s.limit - s.log.len()
        },
    decreases times.len(),
{
    if times.len() > 0 {
        let now = times[0];
        assert(t0 <= times[0] && times[0] <= t0 + s.window);
        if s.log.len() > 0 {
            assert(t0 <= s.log[0] && s.log[0] <= t0 + s.window);
        }
        assert(evict(s.log, now, s.window) == s.log);
        let (next, admitted) = s.consume(now);
        let rest = times.drop_first();
        assert(all_within(rest, t0, s.window)) by {
            assert forall|i: int| 0 <= i < rest.len() implies t0 <= #[trigger] rest[i] && rest[i]
                <= t0 + s.window by {
                assert(rest[i] == times[i + 1]);
            }
        }
        assert(all_within(next.log, t0, s.window)) by {
            assert forall|i: int| 0 <= i < next.log.len() implies t0 <= #[trigger] next.log[i]
                && next.log[i] <= t0 + s.window by {
                if i < s.log.len() {
                    assert(next.log[i] == s.log[i]);
                }
            }
        }
        lemma_admits_exactly(next, rest, t0);
    }
}

/// A sliding-window counter: at most `limit` requests within any trailing
/// window of the configured length.
pub struct SlidingWindowCounter {
    limit: u32,
    window: u128,
    requests: VecDeque<u128>,
}

impl View for SlidingWindowCounter {
    type V = SlidingWindowView;

    closed spec fn view(&self) -> SlidingWindowView {
        SlidingWindowView {
            limit: self.limit as nat,
            window: self.window as nat,
            log: self.requests@,
        }
    }
}

impl SlidingWindowCounter {
    /// A counter admitting `limit` requests per trailing window of
    /// `window_nanos` nanoseconds, with nothing logged yet.
    pub fn new(limit: u32, window_nanos: u128) -> (r: Self)
        requires
            limit > 0,
            window_nanos > 0,
        ensures
            r@ == (SlidingWindowView {
                limit: limit as nat,
                window: window_nanos as nat,
                log: Seq::empty(),
            }),
            r@.wf(),
    {
        SlidingWindowCounter {
            limit,
            window: window_nanos,
            requests: VecDeque::new(),
        }
    }

    /// Drops from the front of the log every request that has left the window
    /// ending at `now`.
    fn clear_old_requests(&mut self, now: u128)
        ensures
            final(self)@ == (SlidingWindowView { log: evict(old(self)@.log, now, old(self)@.window), ..old(self)@ }),
    {
        loop
            invariant
                self.limit == old(self).limit,
                self.window == old(self).window,
                evict(self.requests@, now, self.window as nat) == evict(
                    old(self).requests@,
                    now,
                    old(self).window as nat,
                ),
            ensures
                self.limit == old(self).limit,
                self.window == old(self).window,
                self.requests@ == evict(old(self).requests@, now, old(self).window as nat),
            decreases self.requests@.len(),
        {
            if self.requests.len() == 0 {
                break;
            }
            let front = self.requests[0];
            if now > front && now - front > self.window {
                self.requests.pop_front();
            } else {
                break;
            }
        }
    }

    /// Decides a request made at `now`, in nanoseconds since the UNIX epoch.
    pub fn try_consume_at(&mut self, now: u128) -> (r: bool)
        requires
            old(self)@.wf(),
        ensures
            (final(self)@, r) == old(self)@.consume(now),
            final(self)@.wf(),
    {
        self.clear_old_requests(now);
        proof {
            lemma_evict_keeps_recent(old(self)@.log, now, old(self)@.window, 0);
        }
        if self.requests.len() < self.limit as usize {
            self.requests.push_back(now);
            true
        } else {
            false
        }
    }

    /// Decides a request at the present wall-clock time.
    pub fn try_consume(&mut self) -> (r: bool)
        requires
            old(self)@.wf(),
        ensures
            exists|now: u128| (final(self)@, r) == old(self)@.consume(now),
            final(self)@.wf(),
    {
        let now = unix_nanos();
        self.try_consume_at(now)
    }

    /// The number of requests in the log.
    pub fn request_count(&self) -> (r: usize)
        ensures
            r == self@.log.len(),
    {
        self.requests.len()
    }
}

} // verus!
