//! The token bucket: bursts up to capacity, variable-cost requests.

use crate::bucket::BucketView;
use crate::bucket::Reservoir;
use crate::clock::nanos_since;
use tokio::time::Instant;
use vstd::prelude::*;

verus! {

/// A token bucket. It starts full, regains `refill_rate` tokens for every
/// whole second since its last refill (never more than `capacity`), and admits
/// a request of `amount` tokens when that many are there.
pub struct TokenBucket {
    core: Reservoir,
    origin: Instant,
}

impl View for TokenBucket {
    type V = BucketView;

    closed spec fn view(&self) -> BucketView {
        self.core@
    }
}

impl TokenBucket {
    /// A full bucket holding `capacity` tokens that regains `refill_rate`
    /// tokens per second. Its time line starts now.
    pub fn new(capacity: u64, refill_rate: u64) -> (r: Self)
        requires
            capacity > 0,
            refill_rate > 0,
        ensures
            r@ == BucketView::full(capacity as nat, refill_rate as nat),
            r@.wf(),
    {
        TokenBucket { core: Reservoir::new(capacity, refill_rate), origin: Instant::now() }
    }

    /// Decides a request of `amount` tokens made `now` nanoseconds after the
    /// bucket was built: refill, then take `amount` if that many are there.
    pub fn try_consume_at(&mut self, amount: u64, now: u128) -> (r: bool)
        requires
            old(self)@.wf(),
        ensures
            (final(self)@, r) == old(self)@.consume(amount as nat, now as nat),
            final(self)@.wf(),
    {
        self.core.try_take(amount, now)
    }

    /// Decides a request of `amount` tokens at the present time. A request of
    /// zero tokens is always admitted; one above capacity never is.
    pub fn try_consume(&mut self, amount: u64) -> (r: bool)
        requires
            old(self)@.wf(),
        ensures
            exists|now: nat| (final(self)@, r) == old(self)@.consume(amount as nat, now),
            final(self)@.wf(),
            amount == 0 ==> r,
            amount > old(self)@.capacity ==> !r,
    {
        let now = nanos_since(&self.origin);
        self.try_consume_at(amount, now)
    }

    /// The number of tokens as of the last refill; reading does not refill.
    pub fn available_tokens(&self) -> (r: u64)
        ensures
            r as nat == self@.level,
    {
        self.core.level()
    }
}

} // verus!
