//! Relay transport state: scratch buffers, rate limiting and counters.

pub mod buffers;
pub mod rate;
pub mod rate_bucket;
pub mod stats;
