//! A time-windowed cumulative value tracker.
//!
//! A [`history::ValueHistory`] records timestamped amounts, keeps the
//! lifetime total of everything recorded, and answers "how much was recorded
//! since a given time" over the samples that are still inside its retention
//! window. Older samples are evicted as new ones arrive.
//!
//! Times are counts of nanoseconds on a monotonic clock whose origin the caller
//! chooses; spans of time are counts of nanoseconds too.

pub mod quantity;
pub mod model;
pub mod history;
pub mod laws;
