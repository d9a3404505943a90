//! Bucket limiters.
//!
//! A token bucket and a leaky bucket run the same state machine: a level in
//! `[0, capacity]` that is refilled by `rate` units for every whole second
//! elapsed since the last refill, and from which requests draw. They differ
//! only in what a request costs: any amount for the token bucket, one unit for
//! the leaky bucket. Both are built on [`Reservoir`].

pub mod leaky;
pub mod token;

pub use leaky::LeakyBucket;
pub use token::TokenBucket;

use crate::clock::NANOS_PER_SEC;
use vstd::arithmetic::div_mod::lemma_basic_div;
use vstd::arithmetic::div_mod::lemma_div_by_self;
use vstd::arithmetic::div_mod::lemma_div_is_ordered;
use vstd::arithmetic::div_mod::lemma_div_multiples_vanish;
use vstd::arithmetic::div_mod::lemma_fundamental_div_mod;
use vstd::arithmetic::div_mod::lemma_mod_division_less_than_divisor;
use vstd::prelude::*;

verus! {

/// The abstract state of a bucket. Times are nanoseconds since the bucket was
/// built.
pub struct BucketView {
    pub capacity: nat,
    pub level: nat,
    pub rate: nat,
    pub last_refill: nat,
}

impl BucketView {
    /// The state of a full bucket built at time zero.
    pub open spec fn full(capacity: nat, rate: nat) -> BucketView {
        BucketView { capacity, level: capacity, rate, last_refill: 0 }
    }

    /// Positive capacity and rate, and a level that never exceeds capacity.
    pub open spec fn wf(self) -> bool {
        &&& self.capacity > 0
        &&& self.rate > 0
        &&& self.level <= self.capacity
    }

    /// Whole seconds from the last refill to `now`; zero if `now` is not later.
    pub open spec fn elapsed_secs(self, now: nat) -> nat {
        if now > self.last_refill {
            ((now - self.last_refill) as nat / NANOS_PER_SEC as nat) as nat
        } else {
            0
        }
    }

    /// The state after accounting for the time up to `now`: `rate` units per
    /// whole elapsed second, clamped to capacity. The refill time moves to
    /// `now` only when at least one second has passed, so a fraction of a
    /// second is dropped with it.
    pub open spec fn refill(self, now: nat) -> BucketView {
        let secs = self.elapsed_secs(now);
        if secs > 0 {
            let filled = self.level + secs * self.rate;
            BucketView {
                level: if filled >= self.capacity { self.capacity } else { filled as nat },
                last_refill: now,
                ..self
            }
        } else {
            self
        }
    }

    /// A request of `amount` at time `now`: refill, then draw `amount` if that
    /// many units are there. Returns the next state and whether the request
    /// is admitted.
    pub open spec fn consume(self, amount: nat, now: nat) -> (BucketView, bool) {
        let r = self.refill(now);
        if r.level >= amount {
            (BucketView { level: (r.level - amount) as nat, ..r }, true)
        } else {
            (r, false)
        }
    }
}


impl BucketView {
    /// Runs a sequence of requests, each an `(amount, time)` pair, in order.
    /// Returns the final state and the total amount admitted.
    pub open spec fn run(self, reqs: Seq<(nat, nat)>) -> (BucketView, nat)
        decreases reqs.len(),
    {
        if reqs.len() == 0 {
            (self, 0)
        } else {
            let (next, admitted) = self.consume(reqs[0].0, reqs[0].1);
            let (fin, total) = next.run(reqs.drop_first());
            (fin, if admitted { total + reqs[0].0 } else { total })
        }
    }
}

/// Within less than one second of the last refill nothing is refilled, so
/// the requests admitted there draw at most the level that was present, and
/// never more than the capacity.
pub proof fn lemma_admitted_within_quantum(s: BucketView, reqs: Seq<(nat, nat)>)
    requires
        s.wf(),
        forall|i: int| 0 <= i < reqs.len() ==> #[trigger] reqs[i].1 < s.last_refill + NANOS_PER_SEC,
    ensures
        s.run(reqs).1 + s.run(reqs).0.level == s.level,
        s.run(reqs).1 <= s.capacity,
    decreases reqs.len(),
{
    if reqs.len() > 0 {
        let now = reqs[0].1;
        assert(reqs[0].1 < s.last_refill + NANOS_PER_SEC);
        if now > s.last_refill {
            lemma_basic_div((now - s.last_refill) as int, NANOS_PER_SEC as int);
        }
        assert(s.refill(now) == s);
        let next = s.consume(reqs[0].0, now).0;
        let rest = reqs.drop_first();
        assert forall|i: int| 0 <= i < rest.len() implies #[trigger] rest[i].1 < next.last_refill
            + NANOS_PER_SEC by {
            assert(rest[i] == reqs[i + 1]);
        }
        lemma_admitted_within_quantum(next, rest);
    }
}

/// A bucket's level never leaves `[0, capacity]`: every request keeps a
/// well-formed state well-formed, keeps capacity and rate, and never moves
/// the last refill time backwards.
pub proof fn lemma_consume_keeps_wf(s: BucketView, amount: nat, now: nat)
    requires
        s.wf(),
    ensures
        s.consume(amount, now).0.wf(),
        s.consume(amount, now).0.last_refill >= s.last_refill,
        s.consume(amount, now).0.capacity == s.capacity,
        s.consume(amount, now).0.rate == s.rate,
{
}

/// A request of zero is always admitted, and it leaves the level unchanged
/// unless a refill is due and the bucket is not full.
pub proof fn lemma_zero_cost(s: BucketView, now: nat)
    requires
        s.wf(),
        s.elapsed_secs(now) == 0 || s.level == s.capacity,
    ensures
        s.consume(0, now).1,
        s.consume(0, now).0.level == s.level,
{
}

/// After a request for the whole capacity at time `t`, waiting
/// `ceil(capacity / rate)` seconds is enough for one more unit to be admitted.
pub proof fn lemma_recovery(s: BucketView, t: nat, now: nat)
    requires
        s.wf(),
        s.last_refill <= t,
        now >= t + ((s.capacity + s.rate - 1) as int / s.rate as int) * NANOS_PER_SEC,
    ensures
        s.consume(s.capacity, t).0.consume(1, now).1,
{
    let c = s.capacity as int;
    let r = s.rate as int;
    let k = (c + r - 1) / r;
    let n = NANOS_PER_SEC as int;
    let s1 = s.consume(s.capacity, t).0;
    assert(s1.last_refill <= t);
    assert(k * r >= c) by {
        lemma_fundamental_div_mod(c + r - 1, r);
        lemma_mod_division_less_than_divisor(c + r - 1, r);
    }
    assert(k >= 1) by {
        lemma_div_is_ordered(r, c + r - 1, r);
        lemma_div_by_self(r);
    }
    let x = now - s1.last_refill;
    assert(x >= k * n);
    assert(x / n >= k) by {
        lemma_div_is_ordered(k * n, x, n);
        lemma_div_multiples_vanish(k, n);
        assert(n * k == k * n) by (nonlinear_arith);
    }
    let secs = s1.elapsed_secs(now);
    assert(secs >= k);
    assert(secs * r >= k * r) by (nonlinear_arith)
        requires secs >= k, r > 0;
    assert(s1.refill(now).level == s1.capacity);
}

/// The state machine shared by both buckets.
pub(crate) struct Reservoir {
    capacity: u64,
    level: u64,
    rate: u64,
    last_refill: u128,
}

impl View for Reservoir {
    type V = BucketView;

    closed spec fn view(&self) -> BucketView {
        BucketView {
            capacity: self.capacity as nat,
            level: self.level as nat,
            rate: self.rate as nat,
            last_refill: self.last_refill as nat,
        }
    }
}

impl Reservoir {
    /// A full reservoir whose time line starts now.
    pub fn new(capacity: u64, rate: u64) -> (r: Self)
        requires
            capacity > 0,
            rate > 0,
        ensures
            r@ == BucketView::full(capacity as nat, rate as nat),
            r@.wf(),
    {
        Reservoir { capacity, level: capacity, rate, last_refill: 0 }
    }

    /// The current level.
    pub fn level(&self) -> (r: u64)
        ensures
            r as nat == self@.level,
    {
        self.level
    }

    /// Adds what the time up to `now` has earned.
    fn refill(&mut self, now: u128)
        requires
            old(self)@.wf(),
        ensures
            final(self)@ == old(self)@.refill(now as nat),
            final(self)@.wf(),
    {
        if now > self.last_refill {
            let secs: u128 = (now - self.last_refill) / NANOS_PER_SEC;
            if secs > 0 {
                if secs >= self.capacity as u128 {
                    proof {
                        let s = secs as int;
                        let r = self.rate as int;
                        assert(s * r >= s) by (nonlinear_arith)
                            requires r >= 1, s >= 0;
                    }
                    self.level = self.capacity;
                } else {
                    proof {
                        let s = secs as int;
                        let r = self.rate as int;
                        assert(s * r <= u64::MAX * u64::MAX) by (nonlinear_arith)
                            requires 0 <= s <= u64::MAX, 0 <= r <= u64::MAX;
                    }
                    let filled: u128 = self.level as u128 + secs * self.rate as u128;
                    if filled >= self.capacity as u128 {
                        self.level = self.capacity;
                    } else {
                        self.level = filled as u64;
                    }
                }
                self.last_refill = now;
            }
        }
    }

    /// Refills up to `now`, then draws `amount` if that many units are there.
    pub fn try_take(&mut self, amount: u64, now: u128) -> (r: bool)
        requires
            old(self)@.wf(),
        ensures
            (final(self)@, r) == old(self)@.consume(amount as nat, now as nat),
            final(self)@.wf(),
    {
        self.refill(now);
        if self.level >= amount {
            self.level = self.level - amount;
            true
        } else {
            false
        }
    }
}

} // verus!
