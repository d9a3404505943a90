//! Rate-limiting primitives: token and leaky buckets, fixed-window and
//! sliding-window counters.
//!
//! Every limiter keeps its accounting in plain integers and decides each
//! request with a verified step function. Each `try_consume_at` method takes
//! the current time as an argument; the matching `try_consume` reads the
//! clock and then takes the same step.

pub mod bucket;
pub mod clock;
pub mod window;
