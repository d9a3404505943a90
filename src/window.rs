//! Window limiters: a counter per fixed, epoch-aligned window, and an exact
//! count over a trailing window.

pub mod fixed_window;
pub mod sliding_window;

pub use fixed_window::FixedWindowCounter;
pub use fixed_window::FixedWindowView;
pub use sliding_window::SlidingWindowCounter;
pub use sliding_window::SlidingWindowView;
