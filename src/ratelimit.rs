//! Admission control: one token bucket per key (a subnet, or a key derived
//! from the client). Tokens are counted in thousandths so that a refill rate
//! in tokens per second adds a whole number of units per millisecond.
use vstd::prelude::*;
use crate::dispatch::DispatchError;

verus! {

/// Units of a bucket per token.
pub const UNITS_PER_TOKEN: u64 = 1000;

/// Bucket size and refill rate.
#[derive(Clone, Copy, Debug, PartialEq, Eq, Structural)]
pub struct RateLimitConfig {
    /// Most tokens a bucket holds.
    pub capacity: u64,
    /// Tokens added per second.
    pub refill_per_sec: u64,
}

impl RateLimitConfig {
    /// The capacity, counted in units, fits in 64 bits.
    pub open spec fn wf(self) -> bool {
        self.capacity <= u64::MAX / UNITS_PER_TOKEN
    }

    pub open spec fn max_units(self) -> int {
        self.capacity * UNITS_PER_TOKEN
    }
}

/// One bucket: what it holds and when it was last refilled.
#[derive(Clone, Copy, Debug, PartialEq, Eq, Structural)]
pub struct TokenBucket {
    pub units: u64,
    pub last_refill_ms: u64,
}

/// The bucket refilled up to `now_ms`: the elapsed time times the rate, up
/// to the capacity. A clock that went back refills nothing.
pub open spec fn refilled(b: TokenBucket, cfg: RateLimitConfig, now_ms: u64) -> TokenBucket {
    if now_ms <= b.last_refill_ms {
        b
    } else {
        let total = b.units + (now_ms - b.last_refill_ms) * cfg.refill_per_sec;
        TokenBucket {
            units: if total >= cfg.max_units() {
                cfg.max_units() as u64
            } else {
                total as u64
            },
            last_refill_ms: now_ms,
        }
    }
}

/// Whether a request is admitted at `now_ms`: after the refill, one whole
/// token is there to take.
pub open spec fn admits(b: TokenBucket, cfg: RateLimitConfig, now_ms: u64) -> bool {
    refilled(b, cfg, now_ms).units >= UNITS_PER_TOKEN
}

/// The bucket after an admission check at `now_ms`.
pub open spec fn after_admit(b: TokenBucket, cfg: RateLimitConfig, now_ms: u64) -> TokenBucket {
    let r = refilled(b, cfg, now_ms);
    if admits(b, cfg, now_ms) {
        TokenBucket { units: (r.units - UNITS_PER_TOKEN) as u64, ..r }
    } else {
        r
    }
}

impl TokenBucket {
    /// A full bucket.
    pub fn full(cfg: RateLimitConfig, now_ms: u64) -> (r: TokenBucket)
        requires
            cfg.wf(),
        ensures
            r.units == cfg.max_units(),
            r.last_refill_ms == now_ms,
    {
        TokenBucket { units: cfg.capacity * UNITS_PER_TOKEN, last_refill_ms: now_ms }
    }

    /// Refills the bucket, then takes one token if there is one; returns
    /// whether the request proceeds.
    pub fn allow(&mut self, cfg: RateLimitConfig, now_ms: u64) -> (r: bool)
        requires
            cfg.wf(),
            old(self).units <= cfg.max_units(),
        ensures
            r == admits(*old(self), cfg, now_ms),
            *final(self) == after_admit(*old(self), cfg, now_ms),
            final(self).units <= cfg.max_units(),
    {
        let max: u64 = cfg.capacity * UNITS_PER_TOKEN;
        if now_ms > self.last_refill_ms {
            let elapsed: u64 = now_ms - self.last_refill_ms;
            proof {
                assert((elapsed as int) * (cfg.refill_per_sec as int) <= (u64::MAX as int) * (
                u64::MAX as int)) by (nonlinear_arith)
                    requires
                        elapsed <= u64::MAX,
                        cfg.refill_per_sec <= u64::MAX,
                ;
            }
            let add: u128 = (elapsed as u128) * (cfg.refill_per_sec as u128);
            let total: u128 = if add >= max as u128 {
                max as u128
            } else {
                (self.units as u128) + add
            };
            self.units = if total >= max as u128 {
                max
            } else {
                total as u64
            };
            self.last_refill_ms = now_ms;
        }
        if self.units >= UNITS_PER_TOKEN {
            self.units = self.units - UNITS_PER_TOKEN;
            true
        } else {
            false
        }
    }
}

/// The bucket of one key.
#[derive(Clone, Copy, Debug, PartialEq, Eq, Structural)]
pub struct KeyedBucket {
    pub key: u64,
    pub bucket: TokenBucket,
}

/// Token buckets by key; a key seen for the first time starts full.
pub struct RateLimiter {
    pub config: RateLimitConfig,
    pub buckets: Vec<KeyedBucket>,
}

impl RateLimiter {
    /// Keys unique, every bucket within capacity.
    pub open spec fn wf(&self) -> bool {
        &&& self.config.wf()
        &&& forall|i: int, j: int|
            0 <= i < self.buckets@.len() && 0 <= j < self.buckets@.len() && i != j
                ==> #[trigger] self.buckets@[i].key != #[trigger] self.buckets@[j].key
        &&& forall|i: int|
            0 <= i < self.buckets@.len() ==> (#[trigger] self.buckets@[i]).bucket.units
                <= self.config.max_units()
    }

    /// The bucket that `key` has, if it was seen before.
    pub open spec fn bucket_of(&self, key: u64) -> Option<TokenBucket> {
        if exists|i: int| 0 <= i < self.buckets@.len() && self.buckets@[i].key == key {
            Some(
                self.buckets@[choose|i: int|
                    0 <= i < self.buckets@.len() && self.buckets@[i].key == key].bucket,
            )
        } else {
            None
        }
    }

    /// The bucket that an admission check for `key` at `now_ms` starts from.
    pub open spec fn current_bucket(&self, key: u64, now_ms: u64) -> TokenBucket {
        match self.bucket_of(key) {
            Some(b) => b,
            None => TokenBucket { units: self.config.max_units() as u64, last_refill_ms: now_ms },
        }
    }

    /// A limiter that has seen no key.
    pub fn new(config: RateLimitConfig) -> (r: RateLimiter)
        requires
            config.wf(),
        ensures
            r.wf(),
            r.config == config,
            forall|k: u64| r.bucket_of(k) is None,
    {
        RateLimiter { config, buckets: Vec::new() }
    }

    /// One admission check for `key` at `now_ms`, as one step: refill, then
    /// take a token if there is one. Other keys' buckets do not change.
    pub fn allow(&mut self, key: u64, now_ms: u64) -> (r: bool)
        requires
            old(self).wf(),
        ensures
            final(self).wf(),
            final(self).config == old(self).config,
            r == admits(old(self).current_bucket(key, now_ms), old(self).config, now_ms),
            final(self).bucket_of(key) == Some(
                after_admit(old(self).current_bucket(key, now_ms), old(self).config, now_ms),
            ),
            forall|k: u64| k != key ==> final(self).bucket_of(k) == old(self).bucket_of(k),
    {
        let mut i: usize = 0;
        while i < self.buckets.len()
            invariant
                *self == *old(self),
                self.wf(),
                i <= self.buckets@.len(),
                forall|j: int| 0 <= j < i ==> self.buckets@[j].key != key,
            decreases self.buckets@.len() - i,
        {
            if self.buckets[i].key == key {
                let ghost before = self.buckets@;
                let mut b = self.buckets[i].bucket;
                let r = b.allow(self.config, now_ms);
                self.buckets.set(i, KeyedBucket { key, bucket: b });
                proof {
                    assert(old(self).bucket_of(key) == Some(before[i as int].bucket));
                    assert(self.buckets@[i as int].key == key);
                    assert forall|k: u64| k != key implies self.bucket_of(k) == old(self).bucket_of(k) by {
                        if exists|j: int| 0 <= j < before.len() && before[j].key == k {
                            let j = choose|j: int| 0 <= j < before.len() && before[j].key == k;
                            assert(self.buckets@[j].key == k);
                        }
                        if exists|j: int| 0 <= j < self.buckets@.len() && self.buckets@[j].key == k {
                            let j = choose|j: int| 0 <= j < self.buckets@.len() && self.buckets@[j].key == k;
                            assert(before[j].key == k);
                        }
                    }
                }
                return r;
            }
            i += 1;
        }
        let mut b = TokenBucket::full(self.config, now_ms);
        let r = b.allow(self.config, now_ms);
        let ghost before = self.buckets@;
        self.buckets.push(KeyedBucket { key, bucket: b });
        proof {
            let n = before.len() as int;
            assert(self.buckets@[n].key == key);
            assert forall|k: u64| k != key implies self.bucket_of(k) == old(self).bucket_of(k) by {
                if exists|j: int| 0 <= j < before.len() && before[j].key == k {
                    let j = choose|j: int| 0 <= j < before.len() && before[j].key == k;
                    assert(self.buckets@[j].key == k);
                }
                if exists|j: int| 0 <= j < self.buckets@.len() && self.buckets@[j].key == k {
                    let j = choose|j: int| 0 <= j < self.buckets@.len() && self.buckets@[j].key == k;
                    assert(before[j].key == k);
                }
            }
        }
        r
    }
}

impl RateLimiter {
    /// Admission control in front of dispatch: a refused request ends as
    /// `RateLimited` and reaches neither the cache nor any node.
    pub fn check_admission(&mut self, key: u64, now_ms: u64) -> (r: Result<(), DispatchError>)
        requires
            old(self).wf(),
        ensures
            final(self).wf(),
            final(self).config == old(self).config,
            r is Ok <==> admits(old(self).current_bucket(key, now_ms), old(self).config, now_ms),
            r is Err ==> r == Err::<(), DispatchError>(DispatchError::RateLimited),
            final(self).bucket_of(key) == Some(
                after_admit(old(self).current_bucket(key, now_ms), old(self).config, now_ms),
            ),
            forall|k: u64| k != key ==> final(self).bucket_of(k) == old(self).bucket_of(k),
    {
        if self.allow(key, now_ms) {
            Ok(())
        } else {
            Err(DispatchError::RateLimited)
        }
    }
}

/// An exhausted bucket admits again exactly when enough time has passed to
/// refill one token: `elapsed * rate >= 1` token, that is `elapsed >= 1/R`
/// seconds.
pub proof fn lemma_exhausted_bucket_waits_one_token(
    b: TokenBucket,
    cfg: RateLimitConfig,
    now_ms: u64,
)
    requires
        cfg.wf(),
        cfg.capacity >= 1,
        b.units == 0,
        now_ms >= b.last_refill_ms,
    ensures
        admits(b, cfg, now_ms) <==> (now_ms - b.last_refill_ms) * cfg.refill_per_sec
            >= UNITS_PER_TOKEN,
{
    let e: int = now_ms - b.last_refill_ms;
    let added: int = e * cfg.refill_per_sec;
    assert(cfg.max_units() >= UNITS_PER_TOKEN);
    if now_ms > b.last_refill_ms {
        assert(b.units + (now_ms - b.last_refill_ms) * cfg.refill_per_sec == added);
    } else {
        assert(e == 0);
        assert(added == 0) by (nonlinear_arith)
            requires
                e == 0,
                added == e * cfg.refill_per_sec,
        ;
    }
}

/// However long a bucket stays idle, it never holds more than its capacity.
pub proof fn lemma_refill_never_exceeds_capacity(b: TokenBucket, cfg: RateLimitConfig, now_ms: u64)
    requires
        cfg.wf(),
        b.units <= cfg.max_units(),
    ensures
        refilled(b, cfg, now_ms).units <= cfg.max_units(),
        after_admit(b, cfg, now_ms).units <= cfg.max_units(),
{
}

} // verus!
