//! Token buckets: how many requests are let through, and how fast they come
//! back. Tokens are counted in whole parts, so small that one nanosecond adds a
//! whole number of them.
use vstd::prelude::*;

use crate::auth::{AuthSubject, CredentialId, CredentialModel};
use crate::table::{Table, TableValue};

verus! {

/// The nanoseconds of a minute.
pub const MINUTE_NANOS: u64 = 60_000_000_000;

/// The nanoseconds of an hour.
pub const HOUR_NANOS: u64 = 3_600_000_000_000;

/// How many requests a bucket holds, and how many come back in a period.
#[derive(Clone, Copy)]
pub struct Limit {
    pub burst: u32,
    pub per_period: u32,
    pub period_nanos: u64,
}

/// A bucket. One request takes as many parts out of it as its period has
/// nanoseconds; each nanosecond adds as many parts as requests come back in a
/// period.
pub struct Bucket {
    parts: u128,
    updated_at: u64,
}

/// A bucket as mathematical values.
pub struct BucketModel {
    pub parts: nat,
    pub updated_at: u64,
}

impl View for Bucket {
    type V = BucketModel;

    closed spec fn view(&self) -> BucketModel {
        BucketModel { parts: self.parts as nat, updated_at: self.updated_at }
    }
}

impl TableValue for Bucket {
    open spec fn lapses_at(value: BucketModel) -> u64 {
        u64::MAX
    }

    fn expiry(&self) -> (r: u64) {
        u64::MAX
    }

    fn copy_value(&self) -> (r: Bucket) {
        Bucket { parts: self.parts, updated_at: self.updated_at }
    }
}

/// What a full bucket holds.
pub open spec fn capacity(limit: Limit) -> nat {
    (limit.burst * limit.period_nanos) as nat
}

/// The nanoseconds that have gone by, none where the clock stands before.
pub open spec fn elapsed(since: u64, now: u64) -> nat {
    if now > since {
        (now - since) as nat
    } else {
        0
    }
}

/// What a bucket holds at `now`.
pub open spec fn refilled(limit: Limit, bucket: BucketModel, now: u64) -> nat {
    let full = bucket.parts + elapsed(bucket.updated_at, now) * limit.per_period as nat;
    if full > capacity(limit) {
        capacity(limit)
    } else {
        full
    }
}

/// Whether a request at `now` is let through.
pub open spec fn admits(limit: Limit, bucket: BucketModel, now: u64) -> bool {
    refilled(limit, bucket, now) >= limit.period_nanos
}

/// The bucket after a request at `now`.
pub open spec fn after_request(limit: Limit, bucket: BucketModel, now: u64) -> BucketModel {
    BucketModel {
        parts: if admits(limit, bucket, now) {
            (refilled(limit, bucket, now) - limit.period_nanos) as nat
        } else {
            refilled(limit, bucket, now)
        },
        updated_at: now,
    }
}

/// A full bucket.
pub open spec fn full_bucket(limit: Limit, now: u64) -> BucketModel {
    BucketModel { parts: capacity(limit), updated_at: now }
}

/// The bucket after requests at these times.
pub open spec fn after_requests(limit: Limit, bucket: BucketModel, times: Seq<u64>) -> BucketModel
    decreases times.len(),
{
    if times.len() == 0 {
        bucket
    } else {
        after_request(
            limit,
            after_requests(limit, bucket, times.drop_last()),
            times.last(),
        )
    }
}

/// How many of the requests at these times are let through.
pub open spec fn admitted(limit: Limit, bucket: BucketModel, times: Seq<u64>) -> nat
    decreases times.len(),
{
    if times.len() == 0 {
        0
    } else {
        admitted(limit, bucket, times.drop_last()) + (if admits(
            limit,
            after_requests(limit, bucket, times.drop_last()),
            times.last(),
        ) {
            1nat
        } else {
            0nat
        })
    }
}

/// Whether times go forward.
pub open spec fn ordered(times: Seq<u64>) -> bool {
    forall|i: int, j: int| 0 <= i < j < times.len() ==> times[i] <= times[j]
}

/// However requests come, no more of them are let through than the bucket holds
/// at first and what comes back over the time that they take.
pub proof fn lemma_rate_is_bounded(limit: Limit, start: u64, times: Seq<u64>)
    requires
        ordered(times),
        forall|i: int| 0 <= i < times.len() ==> start <= #[trigger] times[i],
    ensures
        admitted(limit, full_bucket(limit, start), times) * limit.period_nanos <= capacity(limit) + (
        if times.len() > 0 {
            (times.last() - start) * limit.per_period
        } else {
            0
        }),
{
    lemma_parts_are_kept(limit, start, times);
    assert((start - start) * limit.per_period == 0) by (nonlinear_arith);
}

proof fn lemma_parts_are_kept(limit: Limit, start: u64, times: Seq<u64>)
    requires
        ordered(times),
        forall|i: int| 0 <= i < times.len() ==> start <= #[trigger] times[i],
    ensures
        ({
            let bucket = after_requests(limit, full_bucket(limit, start), times);
            let last: u64 = if times.len() > 0 {
                times.last()
            } else {
                start
            };
            &&& bucket.updated_at == last
            &&& bucket.parts + admitted(limit, full_bucket(limit, start), times)
                * limit.period_nanos <= capacity(limit) + (last - start) * limit.per_period
        }),
    decreases times.len(),
{
    let first = full_bucket(limit, start);
    if times.len() == 0 {
        assert((start - start) * limit.per_period == 0) by (nonlinear_arith);
        assert(admitted(limit, first, times) * limit.period_nanos == 0) by (nonlinear_arith)
            requires
                admitted(limit, first, times) == 0,
        ;
    } else {
        let rest = times.drop_last();
        lemma_parts_are_kept(limit, start, rest);
        let before = after_requests(limit, first, rest);
        let last = times.last();
        let previous: u64 = if rest.len() > 0 {
            rest.last()
        } else {
            start
        };
        assert(times[times.len() - 1] == last);
        assert(previous <= last) by {
            if rest.len() > 0 {
                assert(times[times.len() - 2] <= times[times.len() - 1]);
            }
        }
        assert((last - previous) * limit.per_period + (previous - start) * limit.per_period == (last
            - start) * limit.per_period) by (nonlinear_arith);
        let n = admitted(limit, first, rest);
        assert((n + 1) * limit.period_nanos == n * limit.period_nanos + limit.period_nanos)
            by (nonlinear_arith);
        assert(elapsed(before.updated_at, last) == last - previous);
        if last == previous {
            assert((last - previous) * limit.per_period == 0) by (nonlinear_arith)
                requires
                    last == previous,
            ;
        }
    }
}

/// A full bucket lets through as many requests at once as it holds, and no more.
pub proof fn lemma_burst(limit: Limit, start: u64, n: nat)
    requires
        limit.period_nanos > 0,
    ensures
        admitted(limit, full_bucket(limit, start), Seq::new(n, |i: int| start)) == (if n
            <= limit.burst {
            n
        } else {
            limit.burst as nat
        }),
        after_requests(limit, full_bucket(limit, start), Seq::new(n, |i: int| start)) == (
        BucketModel {
            parts: (if n <= limit.burst {
                (limit.burst - n) * limit.period_nanos
            } else {
                0
            }) as nat,
            updated_at: start,
        }),
    decreases n,
{
    let times = Seq::new(n, |i: int| start);
    let first = full_bucket(limit, start);
    if n == 0 {
        assert(capacity(limit) == (limit.burst - n) * limit.period_nanos) by (nonlinear_arith)
            requires
                n == 0,
                capacity(limit) == (limit.burst * limit.period_nanos) as nat,
        ;
    } else {
        let m = (n - 1) as nat;
        lemma_burst(limit, start, m);
        assert(times.drop_last() =~= Seq::new(m, |i: int| start));
        let before = after_requests(limit, first, times.drop_last());
        assert(0 * limit.per_period as nat == 0) by (nonlinear_arith);
        assert(before.parts <= capacity(limit)) by (nonlinear_arith)
            requires
                before.parts == ((if m <= limit.burst {
                    (limit.burst - m) * limit.period_nanos
                } else {
                    0
                }) as nat),
                capacity(limit) == (limit.burst * limit.period_nanos) as nat,
        ;
        assert(refilled(limit, before, start) == before.parts);
        if m < limit.burst {
            assert((limit.burst - m) * limit.period_nanos == (limit.burst - n) * limit.period_nanos
                + limit.period_nanos) by (nonlinear_arith)
                requires
                    n == m + 1,
            ;
            assert((limit.burst - n) * limit.period_nanos >= 0) by (nonlinear_arith)
                requires
                    n <= limit.burst,
            ;
        } else {
            assert((limit.burst - m) * limit.period_nanos == 0 || m > limit.burst)
                by (nonlinear_arith)
                requires
                    m >= limit.burst,
            ;
        }
    }
}

fn take(limit: &Limit, bucket: &Bucket, now: u64) -> (r: (Bucket, bool))
    ensures
        r.0@ == after_request(*limit, bucket@, now),
        r.1 == admits(*limit, bucket@, now),
{
    let period: u128 = limit.period_nanos as u128;
    let burst: u128 = limit.burst as u128;
    let rate: u128 = limit.per_period as u128;
    let gone: u128 = if now > bucket.updated_at {
        (now - bucket.updated_at) as u128
    } else {
        0
    };
    proof {
        assert(burst * period <= 0xffff_ffff * 0xffff_ffff_ffff_ffff) by (nonlinear_arith)
            requires
                burst <= 0xffff_ffff,
                period <= 0xffff_ffff_ffff_ffff,
        ;
        assert(gone * rate <= 0xffff_ffff_ffff_ffff * 0xffff_ffff) by (nonlinear_arith)
            requires
                rate <= 0xffff_ffff,
                gone <= 0xffff_ffff_ffff_ffff,
        ;
    }
    let full: u128 = burst * period;
    let added: u128 = gone * rate;
    let parts: u128 = if bucket.parts > full || added > full - bucket.parts {
        full
    } else {
        bucket.parts + added
    };
    proof {
        assert(full == capacity(*limit));
        assert(added == elapsed(bucket.updated_at, now) * limit.per_period as nat);
        assert(parts == refilled(*limit, bucket@, now));
    }
    if parts < period {
        (Bucket { parts, updated_at: now }, false)
    } else {
        (Bucket { parts: parts - period, updated_at: now }, true)
    }
}

fn new_bucket(limit: &Limit, now: u64) -> (r: Bucket)
    ensures
        r@ == full_bucket(*limit, now),
{
    let period: u128 = limit.period_nanos as u128;
    let burst: u128 = limit.burst as u128;
    proof {
        assert(burst * period <= 0xffff_ffff * 0xffff_ffff_ffff_ffff) by (nonlinear_arith)
            requires
                burst <= 0xffff_ffff,
                period <= 0xffff_ffff_ffff_ffff,
        ;
    }
    Bucket { parts: burst * period, updated_at: now }
}

/// Too many requests have come.
#[derive(Debug, Clone, Copy, PartialEq, Eq, Structural)]
pub struct RateLimitError;

impl RateLimitError {
    pub fn message(&self) -> (r: &'static str)
        ensures
            r@ == "rate limit exceeded"@,
    {
        "rate limit exceeded"
    }
}

/// Limits requests, with a bucket for each credential.
pub struct RateLimiter {
    limit: Limit,
    buckets: Table<CredentialId, Bucket>,
}

/// The limit and the buckets that are in use.
pub struct LimiterModel {
    pub limit: Limit,
    pub buckets: Map<CredentialModel, BucketModel>,
}

impl View for RateLimiter {
    type V = LimiterModel;

    closed spec fn view(&self) -> LimiterModel {
        LimiterModel { limit: self.limit, buckets: self.buckets@ }
    }
}

/// The bucket of a credential at `now`: a full one where it has none yet.
pub open spec fn bucket_of(m: LimiterModel, credential: CredentialModel, now: u64) -> BucketModel {
    if m.buckets.dom().contains(credential) {
        m.buckets[credential]
    } else {
        full_bucket(m.limit, now)
    }
}

/// A limiter that has seen no requests yet.
pub open spec fn new_limiter(requests_per_minute: u32, burst: u32) -> LimiterModel {
    LimiterModel {
        limit: Limit { burst, per_period: requests_per_minute, period_nanos: MINUTE_NANOS },
        buckets: Map::empty(),
    }
}

impl RateLimiter {
    pub fn new(requests_per_minute: u32, burst: u32) -> (r: RateLimiter)
        ensures
            r@ == (LimiterModel {
                limit: Limit {
                    burst,
                    per_period: requests_per_minute,
                    period_nanos: MINUTE_NANOS,
                },
                buckets: Map::empty(),
            }),
            r@ == new_limiter(requests_per_minute, burst),
    {
        RateLimiter {
            limit: Limit { burst, per_period: requests_per_minute, period_nanos: MINUTE_NANOS },
            buckets: Table::new(),
        }
    }

    /// Counts a request at `now`, in nanoseconds of a clock that does not go
    /// back.
    pub fn check(&mut self, subject: AuthSubject, now: u64) -> (r: Result<(), RateLimitError>)
        ensures
            ({
                let credential = subject.credential_id@;
                let bucket = bucket_of(old(self)@, credential, now);
                &&& r is Ok <==> admits(old(self)@.limit, bucket, now)
                &&& final(self)@.limit == old(self)@.limit
                &&& final(self)@.buckets == old(self)@.buckets.insert(
                    credential,
                    after_request(old(self)@.limit, bucket, now),
                )
            }),
    {
        let bucket = match self.buckets.get(&subject.credential_id) {
            Some(bucket) => bucket.copy_value(),
            None => new_bucket(&self.limit, now),
        };
        let (left, admitted) = take(&self.limit, &bucket, now);
        self.buckets = self.buckets.with(subject.credential_id, left);
        if admitted {
            Ok(())
        } else {
            Err(RateLimitError)
        }
    }
}

/// Limits writes, whoever asks for them.
pub struct WriteRateLimiter {
    limit: Limit,
    bucket: Option<Bucket>,
}

/// The limit on writes and its bucket, once there was a write.
pub struct WriteLimiterModel {
    pub limit: Limit,
    pub bucket: Option<BucketModel>,
}

impl View for WriteRateLimiter {
    type V = WriteLimiterModel;

    closed spec fn view(&self) -> WriteLimiterModel {
        WriteLimiterModel {
            limit: self.limit,
            bucket: match self.bucket {
                Some(bucket) => Some(bucket@),
                None => None,
            },
        }
    }
}

/// A limiter that has seen no writes yet.
pub open spec fn new_write_limiter(writes_per_hour: u32) -> WriteLimiterModel {
    WriteLimiterModel {
        limit: Limit {
            burst: writes_per_hour,
            per_period: writes_per_hour,
            period_nanos: HOUR_NANOS,
        },
        bucket: None,
    }
}

impl WriteRateLimiter {
    pub fn new(writes_per_hour: u32) -> (r: WriteRateLimiter)
        ensures
            r@ == (WriteLimiterModel {
                limit: Limit {
                    burst: writes_per_hour,
                    per_period: writes_per_hour,
                    period_nanos: HOUR_NANOS,
                },
                bucket: None,
            }),
            r@ == new_write_limiter(writes_per_hour),
    {
        WriteRateLimiter {
            limit: Limit {
                burst: writes_per_hour,
                per_period: writes_per_hour,
                period_nanos: HOUR_NANOS,
            },
            bucket: None,
        }
    }

    /// Counts a write at `now`, in nanoseconds of a clock that does not go back.
    pub fn check(&mut self, now: u64) -> (r: Result<(), RateLimitError>)
        ensures
            ({
                let bucket = match old(self)@.bucket {
                    Some(bucket) => bucket,
                    None => full_bucket(old(self)@.limit, now),
                };
                &&& r is Ok <==> admits(old(self)@.limit, bucket, now)
                &&& final(self)@.limit == old(self)@.limit
                &&& final(self)@.bucket == Some(after_request(old(self)@.limit, bucket, now))
            }),
    {
        let bucket = match &self.bucket {
            Some(bucket) => bucket.copy_value(),
            None => new_bucket(&self.limit, now),
        };
        let (left, admitted) = take(&self.limit, &bucket, now);
        self.bucket = Some(left);
        if admitted {
            Ok(())
        } else {
            Err(RateLimitError)
        }
    }
}

} // verus!
