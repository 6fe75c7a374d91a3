use ic_boundary::cache::{Cache, CacheKey, CallKind};
use ic_boundary::dispatch::DispatchError;
use ic_boundary::identity::Fingerprint;
use ic_boundary::ratelimit::{RateLimitConfig, RateLimiter, TokenBucket};
use ic_boundary::testing::get_u64_values_for_tests;
use std::collections::BTreeSet;

fn ckey(n: u64) -> CacheKey {
    CacheKey { scope: 1, kind: CallKind::Query, payload_hash: Fingerprint { w0: n, w1: n, w2: n, w3: n } }
}

#[test]
fn rate_limiter_refills_one_token_per_interval() {
    let cfg = RateLimitConfig { capacity: 2, refill_per_sec: 1 };
    let mut rl = RateLimiter::new(cfg);
    assert!(rl.allow(7, 0));
    assert!(rl.allow(7, 0));
    assert!(!rl.allow(7, 0));
    assert!(!rl.allow(7, 999));
    assert!(rl.allow(7, 1_000));
    assert!(!rl.allow(7, 1_000));
    // Other keys have their own bucket.
    assert!(rl.allow(8, 1_000));
}

#[test]
fn rate_limiter_never_exceeds_capacity() {
    let cfg = RateLimitConfig { capacity: 3, refill_per_sec: 1_000 };
    let mut b = TokenBucket { units: 0, last_refill_ms: 0 };
    assert!(b.allow(cfg, u64::MAX));
    assert_eq!(b.units, 2_000);
    let mut rl = RateLimiter::new(cfg);
    for _ in 0..3 {
        assert!(rl.allow(1, 0));
    }
    assert!(!rl.allow(1, 0));
    let mut admitted = 0;
    for _ in 0..10 {
        if rl.allow(1, 1_000_000_000) {
            admitted += 1;
        }
    }
    assert_eq!(admitted, 3);
}

#[test]
fn rate_limiter_clock_going_back_refills_nothing() {
    let cfg = RateLimitConfig { capacity: 1, refill_per_sec: 10 };
    let mut b = TokenBucket::full(cfg, 500);
    assert!(b.allow(cfg, 500));
    assert!(!b.allow(cfg, 100));
    assert_eq!(b.last_refill_ms, 500);
    assert!(b.allow(cfg, 600));
}

#[test]
fn rejected_request_is_rate_limited() {
    let mut rl = RateLimiter::new(RateLimitConfig { capacity: 1, refill_per_sec: 0 });
    assert_eq!(rl.check_admission(3, 0), Ok(()));
    assert_eq!(rl.check_admission(3, 10_000), Err(DispatchError::RateLimited));
}

#[test]
fn cache_hit_before_ttl_and_miss_after() {
    let mut c = Cache::new(4);
    c.store(ckey(1), vec![1, 2, 3], 1_000, 500);
    assert_eq!(c.lookup(ckey(1), 1_000), Some(vec![1, 2, 3]));
    assert_eq!(c.lookup(ckey(1), 1_499), Some(vec![1, 2, 3]));
    assert_eq!(c.lookup(ckey(1), 1_500), None);
    assert_eq!(c.lookup(ckey(2), 1_000), None);
    c.store(ckey(1), vec![4], 2_000, 10);
    assert_eq!(c.lookup(ckey(1), 2_005), Some(vec![4]));
    assert_eq!(c.entries.len(), 1);
}

#[test]
fn cache_evicts_least_recently_used() {
    let mut c = Cache::new(2);
    c.store(ckey(1), vec![1], 0, 1_000);
    c.store(ckey(2), vec![2], 0, 1_000);
    assert_eq!(c.lookup(ckey(1), 1), Some(vec![1]));
    c.store(ckey(3), vec![3], 2, 1_000);
    assert_eq!(c.lookup(ckey(2), 3), None);
    assert_eq!(c.lookup(ckey(1), 3), Some(vec![1]));
    assert_eq!(c.lookup(ckey(3), 3), Some(vec![3]));
    assert_eq!(c.entries.len(), 2);
}

#[test]
fn cache_of_capacity_zero_stores_nothing() {
    let mut c = Cache::new(0);
    c.store(ckey(1), vec![1], 0, 1_000);
    assert_eq!(c.lookup(ckey(1), 0), None);
}

#[test]
fn cache_keys_differ_by_kind() {
    let mut c = Cache::new(4);
    let q = ckey(5);
    let u = CacheKey { kind: CallKind::ReadState, ..q };
    c.store(q, vec![1], 0, 100);
    assert_eq!(c.lookup(u, 0), None);
}

#[test]
fn boundary_values() {
    let v = get_u64_values_for_tests();
    for x in [0u64, 1, 8, 43, 57, u64::MAX, 1 << 63, (1 << 32) - 42] {
        assert!(v.contains(&x), "missing {}", x);
    }
    assert!(!v.contains(&100));
    assert!(v.windows(2).all(|w| w[0] < w[1]));
    let mut expected = BTreeSet::new();
    for i in 0..=64u32 {
        let p: u128 = 2u128.pow(i);
        for x in [p.saturating_sub(42), p.saturating_sub(7), p - 1, p, p + 1, p + 7, p + 42] {
            expected.insert(x.min(u64::MAX as u128) as u64);
        }
    }
    assert_eq!(v, expected.into_iter().collect::<Vec<u64>>());
}
