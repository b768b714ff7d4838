use std::time::Duration;

use nowhere::transport::buffers::Buffers;
use nowhere::transport::rate::RateLimiter;
use nowhere::transport::rate_bucket::TokenBucket;
use nowhere::transport::stats::Stats;

/// A reading of the clock that token buckets run on, in nanoseconds.
fn token_bucket_now() -> u64 {
    std::time::SystemTime::now()
        .duration_since(std::time::UNIX_EPOCH)
        .unwrap()
        .as_nanos() as u64
}

/// The instant `d` after `base`, on the token-bucket clock.
fn after(base: u64, d: Duration) -> u64 {
    base + d.as_nanos() as u64
}

#[test]
fn allocates_zeroed_buffers_with_configured_sizes() {
    let buffers = Buffers::new(4, 6);

    assert_eq!(buffers.get_tcp_buffer(), vec![0; 4]);
    assert_eq!(buffers.get_udp_buffer(), vec![0; 6]);
}

#[test]
fn rate_limiter_is_disabled_without_limits() {
    assert!(RateLimiter::new(0, 0).is_none());
    assert!(RateLimiter::new(1, 0).is_some());
    assert!(RateLimiter::new(0, 1).is_some());
}

#[test]
fn rate_limiter_keeps_disabled_direction_empty() {
    let read_only = RateLimiter::new(1, 0).unwrap();
    assert!(read_only.read.is_some());
    assert!(read_only.write.is_none());

    let write_only = RateLimiter::new(0, 1).unwrap();
    assert!(write_only.read.is_none());
    assert!(write_only.write.is_some());
}

#[test]
fn reserve_debits_future_budget_when_empty() {
    let mut tb = TokenBucket::new(100, 0);
    let base = token_bucket_now();
    assert_eq!(Duration::from_nanos(tb.reserve(base, 50)), Duration::from_millis(500));
    assert_eq!(
        Duration::from_nanos(tb.reserve(after(base, Duration::from_millis(500)), 50)),
        Duration::from_millis(500)
    );
}

#[test]
fn budget_refills_to_capacity() {
    let mut tb = TokenBucket::new(100, 100);
    let base = token_bucket_now();
    tb.spend(base, 80);
    assert_eq!(tb.budget(after(base, Duration::from_millis(500))), 70);
    assert_eq!(tb.budget(after(base, Duration::from_secs(10))), 100);
}

#[test]
fn configure_clamps_existing_budget_to_new_capacity() {
    let mut tb = TokenBucket::new(100, 100);
    let base = token_bucket_now();
    tb.spend(base, 30);
    assert_eq!(tb.budget(base), 70);

    tb.configure(base, 100, 50);
    assert_eq!(tb.budget(base), 50);
}

#[test]
fn delay_until_available_respects_minimum_delay() {
    let mut tb = TokenBucket::new(100, 0);
    let base = token_bucket_now();
    assert_eq!(
        Duration::from_nanos(tb.delay_until_available(base, 1, Duration::from_millis(20).as_nanos() as u64)),
        Duration::from_millis(20)
    );

    let mut tb = TokenBucket::new(100, 100);
    assert_eq!(
        Duration::from_nanos(tb.delay_until_available(base, 1, Duration::from_millis(20).as_nanos() as u64)),
        Duration::ZERO
    );
}

#[test]
fn reset_restores_capacity() {
    let mut tb = TokenBucket::new(100, 100);
    let base = token_bucket_now();
    tb.spend(base, 90);
    assert_eq!(tb.budget(base), 10);

    tb.reset(after(base, Duration::from_secs(1)));
    assert_eq!(tb.budget(after(base, Duration::from_secs(1))), 100);
}

#[test]
fn tracks_tcp_and_udp_sessions_independently() {
    let mut stats = Stats::default();

    stats.add_session(false);
    stats.add_session(false);
    stats.add_session(true);
    stats.done_session(false);

    assert_eq!(stats.tcp_active, 1);
    assert_eq!(stats.udp_active, 1);

    stats.done_session(true);
    assert_eq!(stats.udp_active, 0);
}

#[test]
fn session_counters_wrap_like_atomics() {
    let mut stats = Stats::default();
    stats.tcp_active = i32::MAX;
    stats.add_session(false);
    assert_eq!(stats.tcp_active, i32::MIN);
    stats.done_session(false);
    assert_eq!(stats.tcp_active, i32::MAX);
    stats.done_session(true);
    stats.add_session(true);
    assert_eq!(stats.udp_active, 0);
}

#[test]
fn delay_is_rounded_up_and_covers_debt_exactly() {
    let mut tb = TokenBucket::new(3, 0);
    // 1 byte at 3 bytes per second is a third of a second, rounded up.
    assert_eq!(tb.reserve(1_000, 1), 333_333_334);
    let mut tb = TokenBucket::new(100, 10);
    assert_eq!(tb.reserve(0, 10), 0);
    assert_eq!(tb.budget(0), 0);
    assert_eq!(tb.delay_until_available(0, 5, 0), 50_000_000);
    // Nothing was spent by asking.
    assert_eq!(tb.budget(0), 0);
}

#[test]
fn clock_going_back_does_not_refill() {
    let mut tb = TokenBucket::new(100, 100);
    tb.spend(10_000_000_000, 100);
    assert_eq!(tb.budget(5_000_000_000), 0);
    assert_eq!(tb.budget(10_500_000_000), 50);
}

#[test]
fn rate_limiter_meters_only_limited_directions() {
    let mut limiter = RateLimiter::new(100, 0).unwrap();
    assert_eq!(limiter.read_delay(1_000, 50), 500_000_000);
    assert_eq!(limiter.write_delay(1_000, 50), 0);
    assert_eq!(limiter.read_delay(1_000, 0), 0);
    assert_eq!(limiter.read_delay(1_000, -5), 0);
    limiter.reset_at(2_000);
    assert_eq!(limiter.read.as_mut().unwrap().budget(2_000), 0);
    limiter.reset();
    assert_eq!(limiter.write_delay_now(10), 0);
    assert!(limiter.read_delay_now(1_000) > 0);
}
