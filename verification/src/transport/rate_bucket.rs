//! A token bucket that meters bytes against a rate in bytes per second.
//!
//! Time is a count of nanoseconds on one clock. The bucket refills at `rate`
//! bytes per second up to `capacity`; spending more than the budget holds
//! drives it below zero, and the debt is the delay before the spent bytes
//! are covered.

use vstd::prelude::*;

verus! {

/// Nanoseconds in a second.
pub const NANOS_PER_SEC: u64 = 1_000_000_000;

/// The state of a token bucket, as plain values.
#[derive(Debug, Clone, Copy, PartialEq, Eq)]
pub struct BucketModel {
    /// Refill rate, in bytes per second.
    pub rate: i64,
    /// Largest budget that refilling reaches.
    pub capacity: i64,
    /// Bytes that can be spent now; below zero, bytes already owed.
    pub budget: i64,
    /// The instant, in nanoseconds, up to which the budget has been refilled.
    pub last_ns: u64,
}

impl BucketModel {
    /// A bucket refills at a positive rate up to a capacity that is not negative.
    pub open spec fn wf(self) -> bool {
        self.rate > 0 && self.capacity >= 0
    }
}

/// `x` held to the range of `i64`.
pub open spec fn clamp_i64(x: int) -> i64 {
    if x > i64::MAX {
        i64::MAX
    } else if x < i64::MIN {
        i64::MIN
    } else {
        x as i64
    }
}

/// Whole bytes that `elapsed` nanoseconds earn at `rate` bytes per second.
pub open spec fn earned(elapsed: int, rate: int) -> int {
    elapsed * rate / (NANOS_PER_SEC as int)
}

/// Nanoseconds that `rate` takes to earn `tokens` whole bytes, rounded up.
pub open spec fn time_for(tokens: int, rate: int) -> int {
    (tokens * (NANOS_PER_SEC as int) + rate - 1) / rate
}

/// The bucket brought up to `now`: the whole bytes that the elapsed time
/// earns at `rate` are added. When that fills the bucket, the budget stops at
/// `capacity` and the refill instant moves to `now`; otherwise the refill
/// instant moves on only by the time those bytes took, so the fraction of a
/// byte earned since is kept for the next refill. An instant at or before
/// the last refill changes nothing.
pub open spec fn spec_refill(m: BucketModel, now: u64) -> BucketModel {
    if now <= m.last_ns {
        m
    } else {
        let tokens = earned(now - m.last_ns, m.rate as int);
        let b = m.budget + tokens;
        if b >= m.capacity {
            BucketModel { budget: m.capacity, last_ns: now, ..m }
        } else {
            BucketModel {
                budget: b as i64,
                last_ns: (m.last_ns + time_for(tokens, m.rate as int)) as u64,
                ..m
            }
        }
    }
}

/// Refilling earns no more than the elapsed time pays for: the time that the
/// earned bytes take is at most the elapsed time, and what is left over earns
/// less than one byte, so no time is lost to rounding beyond a nanosecond.
pub proof fn law_refill_keeps_unearned_time(elapsed: int, rate: int)
    requires
        elapsed >= 0,
        rate > 0,
    ensures
        0 <= earned(elapsed, rate),
        0 <= time_for(earned(elapsed, rate), rate) <= elapsed,
        earned(elapsed - time_for(earned(elapsed, rate), rate), rate) == 0,
{
    let n = NANOS_PER_SEC as int;
    let t = earned(elapsed, rate);
    let c = time_for(t, rate);
    assert(0 <= t && t * n <= elapsed * rate && elapsed * rate < (t + 1) * n) by (nonlinear_arith)
        requires
            t == elapsed * rate / n,
            elapsed >= 0,
            rate > 0,
            n == 1_000_000_000,
    ;
    assert(c * rate >= t * n && (c - 1) * rate < t * n && c >= 0) by (nonlinear_arith)
        requires
            c == (t * n + rate - 1) / rate,
            t >= 0,
            rate > 0,
            n == 1_000_000_000,
    ;
    assert(c <= elapsed) by (nonlinear_arith)
        requires
            (c - 1) * rate < t * n,
            t * n <= elapsed * rate,
            rate > 0,
    ;
    assert((elapsed - c) * rate < n) by (nonlinear_arith)
        requires
            c * rate >= t * n,
            elapsed * rate < (t + 1) * n,
            n == 1_000_000_000,
    ;
    assert(earned(elapsed - c, rate) == 0) by (nonlinear_arith)
        requires
            (elapsed - c) * rate < n,
            elapsed - c >= 0,
            rate > 0,
            n == 1_000_000_000,
            earned(elapsed - c, rate) == (elapsed - c) * rate / n,
    ;
}

/// Nanoseconds that `rate` takes to earn `deficit` bytes, rounded up and
/// held to `u64::MAX`.
pub open spec fn spec_delay_for(deficit: int, rate: int) -> u64 {
    let d = (deficit * (NANOS_PER_SEC as int) + rate - 1) / rate;
    if d > u64::MAX {
        u64::MAX
    } else {
        d as u64
    }
}

/// Reserving `bytes` at `now`: refill, debit the bytes, and wait for any debt.
pub open spec fn spec_reserve(m: BucketModel, now: u64, bytes: i64) -> (BucketModel, u64) {
    let r = spec_refill(m, now);
    let b = clamp_i64(r.budget - bytes);
    (BucketModel { budget: b, ..r }, if b < 0 {
        spec_delay_for(-b, r.rate as int)
    } else {
        0
    })
}

/// The delay before `bytes` can be spent at `now` without debt, at least
/// `min_delay` when there is any wait at all.
pub open spec fn spec_delay_until_available(
    m: BucketModel,
    now: u64,
    bytes: i64,
    min_delay: u64,
) -> (BucketModel, u64) {
    let r = spec_refill(m, now);
    if r.budget >= bytes {
        (r, 0)
    } else {
        let d = spec_delay_for(bytes - r.budget, r.rate as int);
        (r, if d < min_delay {
            min_delay
        } else {
            d
        })
    }
}

/// The bucket refilled at `now` under its old rate, then given a new rate
/// and capacity, its budget cut to the new capacity.
pub open spec fn spec_configure(m: BucketModel, now: u64, rate: i64, capacity: i64) -> BucketModel {
    let r = spec_refill(m, now);
    BucketModel {
        rate,
        capacity,
        budget: if r.budget > capacity {
            capacity
        } else {
            r.budget
        },
        last_ns: r.last_ns,
    }
}

/// The bucket full again, as of `now`.
pub open spec fn spec_reset(m: BucketModel, now: u64) -> BucketModel {
    BucketModel { budget: m.capacity, last_ns: now, ..m }
}

/// A token bucket: a budget of bytes refilled at a rate up to a capacity.
#[derive(Debug)]
pub struct TokenBucket {
    rate: i64,
    capacity: i64,
    budget: i64,
    last_ns: u64,
}

impl View for TokenBucket {
    type V = BucketModel;

    closed spec fn view(&self) -> BucketModel {
        BucketModel {
            rate: self.rate,
            capacity: self.capacity,
            budget: self.budget,
            last_ns: self.last_ns,
        }
    }
}

#[verifier::external_type_specification]
#[verifier::external_body]
pub struct ExSystemTime(std::time::SystemTime);

/// The wall clock's reading, from `std::time::SystemTime::now`. Nothing is
/// claimed of it.
#[verifier::external_body]
fn system_time_now() -> std::time::SystemTime {
    std::time::SystemTime::now()
}

/// The time elapsed since the Unix epoch, from `SystemTime::duration_since`;
/// `None` for a reading before the epoch. Nothing more is claimed of it.
#[verifier::external_body]
fn since_unix_epoch(t: std::time::SystemTime) -> Option<std::time::Duration> {
    t.duration_since(std::time::UNIX_EPOCH).ok()
}

/// The whole nanoseconds of `d`, from `Duration::as_nanos`. Nothing is
/// claimed of them.
#[verifier::external_body]
fn duration_nanos(d: std::time::Duration) -> u128 {
    d.as_nanos()
}

/// Reads the clock that token buckets run on: nanoseconds since the Unix
/// epoch, held to `u64::MAX`, or 0 before the epoch.
pub(crate) fn token_bucket_now() -> u64 {
    match since_unix_epoch(system_time_now()) {
        Some(elapsed) => {
            let nanos = duration_nanos(elapsed);
            if nanos > u64::MAX as u128 {
                u64::MAX
            } else {
                nanos as u64
            }
        },
        None => 0,
    }
}

/// Nanoseconds that `rate` takes to earn `deficit` bytes, rounded up.
fn delay_for(deficit: i128, rate: i64) -> (d: u64)
    requires
        0 < deficit <= 0x2_0000_0000_0000_0000,
        rate > 0,
    ensures
        d == spec_delay_for(deficit as int, rate as int),
{
    let r = rate as i128;
    assert(deficit * 1_000_000_000 <= 0x2_0000_0000_0000_0000 * 1_000_000_000) by (nonlinear_arith)
        requires
            0 < deficit <= 0x2_0000_0000_0000_0000,
    ;
    let num: i128 = deficit * 1_000_000_000 + (r - 1);
    let q: i128 = num / r;
    if q > u64::MAX as i128 {
        u64::MAX
    } else {
        q as u64
    }
}

impl TokenBucket {
    /// Creates a full bucket that refills at `rate` bytes per second up to
    /// `capacity` bytes.
    pub fn new(rate: i64, capacity: i64) -> (res: Self)
        requires
            rate > 0,
            capacity >= 0,
        ensures
            res@ == (BucketModel { rate, capacity, budget: capacity, last_ns: 0 }),
            res@.wf(),
    {
        TokenBucket { rate, capacity, budget: capacity, last_ns: 0 }
    }

    /// Brings the budget up to `now`.
    fn refill(&mut self, now: u64)
        requires
            old(self)@.wf(),
        ensures
            final(self)@ == spec_refill(old(self)@, now),
    {
        if now > self.last_ns {
            let elapsed: u64 = now - self.last_ns;
            let rate: u64 = self.rate as u64;
            proof {
                law_refill_keeps_unearned_time(elapsed as int, rate as int);
            }
            assert(elapsed as u128 * rate as u128 <= 0xffff_ffff_ffff_ffff * 0x7fff_ffff_ffff_ffff)
                by (nonlinear_arith)
                requires
                    elapsed <= 0xffff_ffff_ffff_ffff,
                    rate <= 0x7fff_ffff_ffff_ffff,
            ;
            let product: u128 = elapsed as u128 * rate as u128;
            let tokens: u128 = product / 1_000_000_000;
            assert(tokens <= product);
            let b: i128 = self.budget as i128 + tokens as i128;
            if b >= self.capacity as i128 {
                self.budget = self.capacity;
                self.last_ns = now;
            } else {
                // The time the earned bytes took; at most `elapsed`.
                assert(tokens * 1_000_000_000 <= product);
                let spent: u128 = (tokens * 1_000_000_000 + (rate as u128 - 1)) / rate as u128;
                self.budget = b as i64;
                self.last_ns = self.last_ns + spent as u64;
            }
        }
    }

    /// Spends `bytes` at `now` and returns how long, in nanoseconds, to wait
    /// before the spent bytes are covered.
    pub fn reserve(&mut self, now: u64, bytes: i64) -> (delay: u64)
        requires
            old(self)@.wf(),
        ensures
            (final(self)@, delay) == spec_reserve(old(self)@, now, bytes),
            final(self)@.wf(),
    {
        self.refill(now);
        let b: i128 = self.budget as i128 - bytes as i128;
        let clamped: i64 = if b > i64::MAX as i128 {
            i64::MAX
        } else if b < i64::MIN as i128 {
            i64::MIN
        } else {
            b as i64
        };
        self.budget = clamped;
        if clamped < 0 {
            delay_for(-(clamped as i128), self.rate)
        } else {
            0
        }
    }

    /// Spends `bytes` at `now`, going into debt if the budget is short.
    pub fn spend(&mut self, now: u64, bytes: i64)
        requires
            old(self)@.wf(),
        ensures
            final(self)@ == spec_reserve(old(self)@, now, bytes).0,
            final(self)@.wf(),
    {
        let _ = self.reserve(now, bytes);
    }

    /// The budget at `now`.
    pub fn budget(&mut self, now: u64) -> (b: i64)
        requires
            old(self)@.wf(),
        ensures
            final(self)@ == spec_refill(old(self)@, now),
            b == final(self)@.budget,
            final(self)@.wf(),
    {
        self.refill(now);
        self.budget
    }

    /// How long, in nanoseconds, until `bytes` can be spent without debt;
    /// any wait is at least `min_delay`. Nothing is spent.
    pub fn delay_until_available(&mut self, now: u64, bytes: i64, min_delay: u64) -> (delay: u64)
        requires
            old(self)@.wf(),
        ensures
            (final(self)@, delay) == spec_delay_until_available(old(self)@, now, bytes, min_delay),
            final(self)@.wf(),
    {
        self.refill(now);
        if self.budget >= bytes {
            return 0;
        }
        let deficit: i128 = bytes as i128 - self.budget as i128;
        let d = delay_for(deficit, self.rate);
        if d < min_delay {
            min_delay
        } else {
            d
        }
    }

    /// Changes the rate and capacity at `now`, cutting the budget to the new
    /// capacity.
    pub fn configure(&mut self, now: u64, rate: i64, capacity: i64)
        requires
            old(self)@.wf(),
            rate > 0,
            capacity >= 0,
        ensures
            final(self)@ == spec_configure(old(self)@, now, rate, capacity),
            final(self)@.wf(),
    {
        self.refill(now);
        self.rate = rate;
        self.capacity = capacity;
        if self.budget > capacity {
            self.budget = capacity;
        }
    }

    /// Fills the budget to capacity as of `now`.
    pub fn reset(&mut self, now: u64)
        requires
            old(self)@.wf(),
        ensures
            final(self)@ == spec_reset(old(self)@, now),
            final(self)@.wf(),
    {
        self.budget = self.capacity;
        self.last_ns = now;
    }
}


/// The budget never rises above the capacity: refilling, spending,
/// waiting, reconfiguring and resetting all keep a budget that is at most
/// the capacity at most the (new) capacity.
pub proof fn law_budget_within_capacity(
    m: BucketModel,
    now: u64,
    bytes: i64,
    min_delay: u64,
    rate: i64,
    capacity: i64,
)
    requires
        m.wf(),
        m.budget <= m.capacity,
        bytes >= 0,
    ensures
        spec_refill(m, now).budget <= m.capacity,
        spec_reserve(m, now, bytes).0.budget <= m.capacity,
        spec_delay_until_available(m, now, bytes, min_delay).0.budget <= m.capacity,
        spec_configure(m, now, rate, capacity).budget <= capacity,
        spec_reset(m, now).budget == m.capacity,
{
}

/// Refilling never takes budget away from a bucket within its capacity,
/// and refilling twice at the same instant is refilling once.
pub proof fn law_refill_monotone_and_idempotent(m: BucketModel, now: u64)
    requires
        m.wf(),
        m.budget <= m.capacity,
    ensures
        spec_refill(m, now).budget >= m.budget,
        spec_refill(spec_refill(m, now), now) == spec_refill(m, now),
{
    if now > m.last_ns {
        law_refill_keeps_unearned_time(now - m.last_ns, m.rate as int);
        let r = spec_refill(m, now);
        if now > r.last_ns {
            assert(time_for(0, m.rate as int) == 0) by (nonlinear_arith)
                requires
                    m.rate > 0,
                    time_for(0, m.rate as int) == (0 * (NANOS_PER_SEC as int) + m.rate - 1)
                        / (m.rate as int),
            ;
        }
    }
}

/// A reservation asks for a wait exactly when it leaves the bucket in debt.
pub proof fn law_reserve_waits_iff_debt(m: BucketModel, now: u64, bytes: i64)
    requires
        m.wf(),
    ensures
        spec_reserve(m, now, bytes).1 > 0 <==> spec_reserve(m, now, bytes).0.budget < 0,
{
    let r = spec_refill(m, now);
    let b = spec_reserve(m, now, bytes).0.budget;
    if b < 0 {
        let d = -b;
        assert((d * (NANOS_PER_SEC as int) + r.rate - 1) / (r.rate as int) >= 1) by (nonlinear_arith)
            requires
                d >= 1,
                r.rate >= 1,
        ;
    }
}


/// Refilling adds the whole bytes earned since the last refill to the budget
/// as it stands, debt included, and stops at the capacity: the refilled
/// budget is `min(capacity, budget + (now - last) * rate / 10^9)`. A debt is
/// paid back only by time.
pub proof fn law_refill_adds_earned_bytes(m: BucketModel, now: u64)
    requires
        m.wf(),
        now > m.last_ns,
    ensures
        ({
            let earned_bytes = (now - m.last_ns) * m.rate / 1_000_000_000int;
            let r = spec_refill(m, now);
            &&& r.rate == m.rate
            &&& r.capacity == m.capacity
            &&& r.budget == if m.budget + earned_bytes < m.capacity {
                m.budget + earned_bytes
            } else {
                m.capacity as int
            }
        }),
{
}

/// A reservation debits the bytes from the refilled budget and asks for the
/// shortest whole-nanosecond wait that the rate needs to earn the debt: `d`
/// nanoseconds earn at least the debt, `d - 1` would not.
pub proof fn law_reserve_waits_for_the_debt(m: BucketModel, now: u64, bytes: i64)
    requires
        m.wf(),
        0 <= bytes,
        spec_refill(m, now).budget - bytes >= i64::MIN,
    ensures
        ({
            let (after, d) = spec_reserve(m, now, bytes);
            let debt = bytes - spec_refill(m, now).budget;
            &&& after.budget == spec_refill(m, now).budget - bytes
            &&& debt <= 0 ==> d == 0
            &&& debt > 0 && d < u64::MAX ==> d * m.rate >= debt * 1_000_000_000 && (d - 1)
                * m.rate < debt * 1_000_000_000
        }),
{
    let r = spec_refill(m, now);
    let debt = bytes - r.budget;
    if debt > 0 {
        let q = (debt * 1_000_000_000int + m.rate - 1) / (m.rate as int);
        assert(q * m.rate >= debt * 1_000_000_000 && (q - 1) * m.rate < debt * 1_000_000_000)
            by (nonlinear_arith)
            requires
                q == (debt * 1_000_000_000int + m.rate - 1) / (m.rate as int),
                m.rate > 0,
                debt > 0,
        ;
    }
}

/// Waiting out a reservation pays its debt: on a bucket with no burst
/// capacity, reserving `first` bytes and then, once the returned delay has
/// passed, `second` bytes asks for exactly the time that `second` bytes take
/// at the rate, rounded up, as if the first reservation had been paid.
pub proof fn law_waiting_pays_the_debt(m: BucketModel, now: u64, first: i64, second: i64)
    requires
        m.wf(),
        m.capacity == 0,
        m.budget <= 0,
        m.last_ns <= now,
        0 < first,
        0 < second,
        m.budget - first > i64::MIN,
        spec_reserve(m, now, first).1 < u64::MAX,
        now + spec_reserve(m, now, first).1 <= u64::MAX,
        second * 1_000_000_000int + m.rate - 1 <= u64::MAX * m.rate,
    ensures
        ({
            let (after, d) = spec_reserve(m, now, first);
            let later = (now + d) as u64;
            spec_reserve(after, later, second).1 == (second * 1_000_000_000int + m.rate - 1)
                / (m.rate as int)
        }),
{
    let r = spec_refill(m, now);
    let (after, d) = spec_reserve(m, now, first);
    let debt = first - r.budget;
    law_reserve_waits_for_the_debt(m, now, first);
    if now > m.last_ns {
        law_refill_adds_earned_bytes(m, now);
    }
    assert(r.budget <= 0);
    assert(debt > 0);
    assert(after.budget == -debt);
    assert(after.last_ns <= now) by {
        if now > m.last_ns {
            law_refill_keeps_unearned_time(now - m.last_ns, m.rate as int);
        }
    }
    assert(d > 0) by (nonlinear_arith)
        requires
            d * m.rate >= debt * 1_000_000_000,
            m.rate > 0,
            debt > 0,
            d >= 0,
    ;
    let later = (now + d) as u64;
    let elapsed = later - after.last_ns;
    assert(elapsed >= d);
    assert(elapsed * m.rate / 1_000_000_000int >= debt) by (nonlinear_arith)
        requires
            elapsed >= d,
            d * m.rate >= debt * 1_000_000_000,
            m.rate > 0,
            debt > 0,
    ;
    assert(later > after.last_ns);
    law_refill_adds_earned_bytes(after, later);
    let r2 = spec_refill(after, later);
    assert(r2.budget == 0);
    assert((second * 1_000_000_000int + m.rate - 1) / (m.rate as int) <= u64::MAX) by (
    nonlinear_arith)
        requires
            second * 1_000_000_000int + m.rate - 1 <= u64::MAX * m.rate,
            m.rate > 0,
    ;
}


/// Asking when `bytes` can be spent spends nothing and answers 0 exactly when
/// the refilled budget covers them; otherwise the answer is the shortest
/// whole-nanosecond wait that earns the shortfall at the rate, but never less
/// than `min_delay`.
pub proof fn law_delay_until_available_waits_for_the_shortfall(
    m: BucketModel,
    now: u64,
    bytes: i64,
    min_delay: u64,
)
    requires
        m.wf(),
    ensures
        ({
            let r = spec_refill(m, now);
            let (after, d) = spec_delay_until_available(m, now, bytes, min_delay);
            let short = bytes - r.budget;
            &&& after == r
            &&& short <= 0 ==> d == 0
            &&& short > 0 ==> d >= min_delay
            &&& short > 0 && d < u64::MAX ==> d * m.rate >= short * 1_000_000_000
            &&& short > 0 && d > min_delay && d < u64::MAX ==> (d - 1) * m.rate < short
                * 1_000_000_000
        }),
{
    let r = spec_refill(m, now);
    let short = bytes - r.budget;
    if short > 0 {
        let q = (short * 1_000_000_000int + m.rate - 1) / (m.rate as int);
        assert(q * m.rate >= short * 1_000_000_000 && (q - 1) * m.rate < short * 1_000_000_000)
            by (nonlinear_arith)
            requires
                q == (short * 1_000_000_000int + m.rate - 1) / (m.rate as int),
                m.rate > 0,
                short > 0,
        ;
        assert(q > 0) by (nonlinear_arith)
            requires
                q * m.rate >= short * 1_000_000_000,
                m.rate > 0,
                short > 0,
        ;
        assert(r.rate == m.rate);
        let d = spec_delay_until_available(m, now, bytes, min_delay).1;
        if q <= u64::MAX {
            assert(spec_delay_for(short, m.rate as int) == q);
            assert(d >= q);
            assert(d * m.rate >= q * m.rate) by (nonlinear_arith)
                requires
                    d >= q,
                    m.rate > 0,
            ;
        } else {
            assert(spec_delay_for(short, m.rate as int) == u64::MAX);
        }
    }
}

/// Reconfiguring takes the new rate and capacity, keeps the budget that the
/// refill at `now` reached when it fits the new capacity, and cuts it to the
/// new capacity otherwise.
pub proof fn law_configure_keeps_what_fits(m: BucketModel, now: u64, rate: i64, capacity: i64)
    requires
        m.wf(),
    ensures
        ({
            let r = spec_refill(m, now);
            let c = spec_configure(m, now, rate, capacity);
            &&& c.rate == rate && c.capacity == capacity
            &&& r.budget <= capacity ==> c.budget == r.budget
            &&& r.budget > capacity ==> c.budget == capacity
            &&& c.last_ns == r.last_ns
        }),
{
}

} // verus!
