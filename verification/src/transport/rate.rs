//! Bidirectional rate limiter over token buckets.
//!
//! The limiter decides how long each direction must wait; the caller does
//! the waiting.

use vstd::prelude::*;

use super::rate_bucket::{
    BucketModel, TokenBucket, law_refill_adds_earned_bytes, spec_refill, spec_reserve, spec_reset,
    token_bucket_now,
};

verus! {

/// Optional read/write rate limiter shared by relay paths.
#[derive(Debug)]
pub struct RateLimiter {
    /// The bucket that meters inbound bytes, if that direction is limited.
    pub read: Option<TokenBucket>,
    /// The bucket that meters outbound bytes, if that direction is limited.
    pub write: Option<TokenBucket>,
}

/// The bucket that a limited direction starts with: `rate` bytes per second
/// and no burst capacity.
pub open spec fn fresh_bucket(rate: i64) -> BucketModel {
    BucketModel { rate, capacity: 0, budget: 0, last_ns: 0 }
}

/// Whether an optional bucket is well formed.
pub open spec fn bucket_wf(b: Option<TokenBucket>) -> bool {
    b matches Some(t) ==> t@.wf()
}

/// What metering `bytes` in one direction at `now` does to its bucket, and
/// the delay it asks for.
pub open spec fn spec_meter(b: Option<TokenBucket>, now: u64, bytes: i64) -> (Option<BucketModel>, u64) {
    match b {
        None => (None, 0),
        Some(t) => if bytes <= 0 {
            (Some(t@), 0)
        } else {
            let (m, d) = spec_reserve(t@, now, bytes);
            (Some(m), d)
        },
    }
}

/// The bucket's model, if there is a bucket.
pub open spec fn model_of(b: Option<TokenBucket>) -> Option<BucketModel> {
    match b {
        None => None,
        Some(t) => Some(t@),
    }
}

/// An optional bucket reset as of `now`.
pub open spec fn reset_model(b: Option<TokenBucket>, now: u64) -> Option<BucketModel> {
    match b {
        None => None,
        Some(t) => Some(spec_reset(t@, now)),
    }
}

/// Meters `bytes` on one direction's bucket at `now`; returns the delay.
fn meter(bucket: &mut Option<TokenBucket>, now: u64, bytes: i64) -> (delay: u64)
    requires
        bucket_wf(*old(bucket)),
    ensures
        (model_of(*final(bucket)), delay) == spec_meter(*old(bucket), now, bytes),
        bucket_wf(*final(bucket)),
{
    if bytes <= 0 {
        return 0;
    }
    match bucket {
        Some(b) => b.reserve(now, bytes),
        None => 0,
    }
}

impl RateLimiter {
    /// Both buckets, where present, are well formed.
    pub open spec fn wf(&self) -> bool {
        bucket_wf(self.read) && bucket_wf(self.write)
    }

    /// Creates a limiter; returns `None` when both directions are unlimited.
    /// A direction is limited when its rate is positive.
    pub fn new(read_bytes_per_second: i64, write_bytes_per_second: i64) -> (res: Option<Self>)
        ensures
            res is None <==> (read_bytes_per_second <= 0 && write_bytes_per_second <= 0),
            res matches Some(l) ==> {
                &&& l.wf()
                &&& model_of(l.read) == if read_bytes_per_second > 0 {
                    Some(fresh_bucket(read_bytes_per_second))
                } else {
                    None
                }
                &&& model_of(l.write) == if write_bytes_per_second > 0 {
                    Some(fresh_bucket(write_bytes_per_second))
                } else {
                    None
                }
            },
    {
        if read_bytes_per_second <= 0 && write_bytes_per_second <= 0 {
            return None;
        }
        let read = if read_bytes_per_second > 0 {
            Some(TokenBucket::new(read_bytes_per_second, 0))
        } else {
            None
        };
        let write = if write_bytes_per_second > 0 {
            Some(TokenBucket::new(write_bytes_per_second, 0))
        } else {
            None
        };
        Some(Self { read, write })
    }

    /// Meters `bytes` inbound at `now` and returns how long, in nanoseconds,
    /// to wait before accepting them. Nothing is metered for `bytes <= 0` or
    /// when inbound is unlimited.
    pub fn read_delay(&mut self, now: u64, bytes: i64) -> (delay: u64)
        requires
            old(self).wf(),
        ensures
            final(self).wf(),
            (model_of(final(self).read), delay) == spec_meter(old(self).read, now, bytes),
            model_of(final(self).write) == model_of(old(self).write),
    {
        meter(&mut self.read, now, bytes)
    }

    /// Meters `bytes` outbound at `now` and returns how long, in nanoseconds,
    /// to wait before sending them. Nothing is metered for `bytes <= 0` or
    /// when outbound is unlimited.
    pub fn write_delay(&mut self, now: u64, bytes: i64) -> (delay: u64)
        requires
            old(self).wf(),
        ensures
            final(self).wf(),
            (model_of(final(self).write), delay) == spec_meter(old(self).write, now, bytes),
            model_of(final(self).read) == model_of(old(self).read),
    {
        meter(&mut self.write, now, bytes)
    }

    /// Meters `bytes` inbound now, on the token-bucket clock, and returns the
    /// delay, as [`Self::read_delay`] does at the instant read.
    pub fn read_delay_now(&mut self, bytes: i64) -> (delay: u64)
        requires
            old(self).wf(),
        ensures
            final(self).wf(),
            exists|now: u64|
                #![trigger spec_meter(old(self).read, now, bytes)]
                (model_of(final(self).read), delay) == spec_meter(old(self).read, now, bytes),
            model_of(final(self).write) == model_of(old(self).write),
    {
        let now = token_bucket_now();
        self.read_delay(now, bytes)
    }

    /// Meters `bytes` outbound now, on the token-bucket clock, and returns
    /// the delay, as [`Self::write_delay`] does at the instant read.
    pub fn write_delay_now(&mut self, bytes: i64) -> (delay: u64)
        requires
            old(self).wf(),
        ensures
            final(self).wf(),
            exists|now: u64|
                #![trigger spec_meter(old(self).write, now, bytes)]
                (model_of(final(self).write), delay) == spec_meter(old(self).write, now, bytes),
            model_of(final(self).read) == model_of(old(self).read),
    {
        let now = token_bucket_now();
        self.write_delay(now, bytes)
    }

    /// Resets active bucket budgets to their configured capacity as of `now`.
    pub fn reset_at(&mut self, now: u64)
        requires
            old(self).wf(),
        ensures
            final(self).wf(),
            model_of(final(self).read) == reset_model(old(self).read, now),
            model_of(final(self).write) == reset_model(old(self).write, now),
    {
        match &mut self.read {
            Some(b) => b.reset(now),
            None => {},
        }
        match &mut self.write {
            Some(b) => b.reset(now),
            None => {},
        }
    }

    /// Resets active bucket budgets to their configured capacity, now.
    pub fn reset(&mut self)
        requires
            old(self).wf(),
        ensures
            final(self).wf(),
            exists|now: u64|
                #![trigger reset_model(old(self).read, now)]
                model_of(final(self).read) == reset_model(old(self).read, now) && model_of(
                    final(self).write,
                ) == reset_model(old(self).write, now),
    {
        let now = token_bucket_now();
        self.reset_at(now);
    }
}


/// An unlimited direction never waits, and neither does metering no bytes;
/// metering never touches a direction that has no bucket.
pub proof fn law_unlimited_never_waits(b: Option<TokenBucket>, now: u64, bytes: i64)
    ensures
        b is None ==> spec_meter(b, now, bytes) == (None::<BucketModel>, 0u64),
        bytes <= 0 ==> spec_meter(b, now, bytes) == (model_of(b), 0u64),
{
}


/// Metering a limited direction is a reservation on its bucket at the given
/// instant: the bucket first earns, at its rate, the bytes that the time
/// since its last refill pays for (paying down any debt, up to its
/// capacity), then owes the metered bytes; the wait is what the reservation
/// asks for.
pub proof fn law_metering_reserves_at_now(t: TokenBucket, now: u64, bytes: i64)
    requires
        t@.wf(),
        bytes > 0,
        now > t@.last_ns,
        spec_refill(t@, now).budget - bytes >= i64::MIN,
    ensures
        ({
            let m = t@;
            let earned_bytes = (now - m.last_ns) * m.rate / 1_000_000_000int;
            let refilled = if m.budget + earned_bytes < m.capacity {
                m.budget + earned_bytes
            } else {
                m.capacity as int
            };
            let (after, delay) = spec_meter(Some(t), now, bytes);
            &&& after == Some(spec_reserve(m, now, bytes).0)
            &&& delay == spec_reserve(m, now, bytes).1
            &&& after->Some_0.budget == refilled - bytes
            &&& after->Some_0.rate == m.rate && after->Some_0.capacity == m.capacity
        }),
{
    law_refill_adds_earned_bytes(t@, now);
}


/// A new limiter gives each limited direction no burst: the first metering
/// of `bytes > 0`, at any instant, waits exactly the time that `bytes` take
/// at that direction's rate, rounded up to a whole nanosecond.
pub proof fn law_new_limiter_has_no_burst(rate: i64, now: u64, bytes: i64)
    requires
        rate > 0,
        bytes > 0,
        bytes * 1_000_000_000int + rate - 1 <= u64::MAX * rate,
    ensures
        spec_reserve(fresh_bucket(rate), now, bytes).1 == (bytes * 1_000_000_000int + rate - 1)
            / (rate as int),
        spec_reserve(fresh_bucket(rate), now, bytes).0.budget == -bytes,
{
    let m = fresh_bucket(rate);
    if now > 0 {
        law_refill_adds_earned_bytes(m, now);
        assert((now - 0) * rate / 1_000_000_000int >= 0) by (nonlinear_arith)
            requires
                rate > 0,
        ;
    }
    assert((bytes * 1_000_000_000int + rate - 1) / (rate as int) <= u64::MAX) by (nonlinear_arith)
        requires
            bytes * 1_000_000_000int + rate - 1 <= u64::MAX * rate,
            rate > 0,
    ;
}

} // verus!
