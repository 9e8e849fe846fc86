//! A queue that keeps its elements by age rather than by count.
//!
//! Every element is stamped with the time at which it was pushed. Each
//! operation that reads or writes the queue first drops the elements that
//! have grown older than the queue's maximum age, so the queue never hands
//! out an expired element, and needs no timer to stay small. On demand it
//! reports the minimum, the maximum and the sum of the values it holds.
//!
//! Each time-sensitive operation comes in two forms: one that reads the
//! queue's own monotonic clock (`push`, `pop`, ...), and one that is told
//! the time (`push_at`, `pop_at`, ...), in nanoseconds on that same clock.

pub mod clock;
pub mod model;
pub mod queue;
pub mod stats;

pub use queue::{Iter, QueueElement, SumQueue};
pub use stats::QueueStats;
