//! The leaky bucket: a steady outflow of fixed-cost requests.

use crate::bucket::BucketView;
use crate::bucket::Reservoir;
use crate::clock::nanos_since;
use tokio::time::Instant;
use vstd::prelude::*;

verus! {

/// A leaky bucket. It starts with `capacity` requests of allowance, regains
/// `leak_rate` of it for every whole second since the last leak (never more
/// than `capacity`), and admits one request whenever some allowance is left.
pub struct LeakyBucket {
    core: Reservoir,
    origin: Instant,
}

impl View for LeakyBucket {
    type V = BucketView;

    closed spec fn view(&self) -> BucketView {
        self.core@
    }
}

impl LeakyBucket {
    /// A bucket with a full allowance of `capacity` requests that regains
    /// `leak_rate` requests per second. Its time line starts now.
    pub fn new(capacity: usize, leak_rate: usize) -> (r: Self)
        requires
            capacity > 0,
            leak_rate > 0,
        ensures
            r@ == BucketView::full(capacity as nat, leak_rate as nat),
            r@.wf(),
    {
        LeakyBucket {
            core: Reservoir::new(capacity as u64, leak_rate as u64),
            origin: Instant::now(),
        }
    }

    /// Decides one request made `now` nanoseconds after the bucket was built:
    /// leak, then admit it if any allowance is left.
    pub fn try_consume_at(&mut self, now: u128) -> (r: bool)
        requires
            old(self)@.wf(),
        ensures
            (final(self)@, r) == old(self)@.consume(1, now as nat),
            final(self)@.wf(),
    {
        self.core.try_take(1, now)
    }

    /// Decides one request at the present time.
    pub fn try_consume(&mut self) -> (r: bool)
        requires
            old(self)@.wf(),
        ensures
            exists|now: nat| (final(self)@, r) == old(self)@.consume(1, now),
            final(self)@.wf(),
    {
        let now = nanos_since(&self.origin);
        self.try_consume_at(now)
    }
}

} // verus!
