//! A token bucket that admits at most `rate` datagrams per second, with
//! bursts of at most `rate`.
//!
//! Time is given in microseconds; tokens are counted in millionths, so that
//! one microsecond at `rate` hertz adds exactly `rate` millionths.
use vstd::prelude::*;

verus! {

/// Millionths of a token in one token.
pub const TOKEN_UNIT: u128 = 1_000_000;

/// The bucket after a query at `now`: the clock moves to `now` if that is
/// later, the bucket fills at `rate` per microsecond up to `rate` tokens,
/// and one token is taken if there is one. The last component says whether
/// the query was admitted.
pub open spec fn limiter_step(rate: u64, previous: u64, tokens: int, now: u64) -> (u64, int, bool) {
    let elapsed: int = if now > previous {
        now - previous
    } else {
        0
    };
    let later: u64 = if now > previous {
        now
    } else {
        previous
    };
    let cap = rate * TOKEN_UNIT;
    let filled = if tokens + elapsed * rate < cap {
        tokens + elapsed * rate
    } else {
        cap
    };
    if filled >= TOKEN_UNIT {
        (later, filled - TOKEN_UNIT, true)
    } else {
        (later, filled, false)
    }
}

/// How many of the queries at `times`, made in that order, are admitted.
pub open spec fn admissions(rate: u64, previous: u64, tokens: int, times: Seq<u64>) -> nat
    decreases times.len(),
{
    if times.len() == 0 {
        0
    } else {
        let (p, t, admitted) = limiter_step(rate, previous, tokens, times[0]);
        admissions(rate, p, t, times.skip(1)) + if admitted {
            1nat
        } else {
            0nat
        }
    }
}

/// A rate limiter.
pub struct RateLimiter {
    previous: u64,
    rate: u64,
    tokens: u128,
}

impl RateLimiter {
    /// The time of the latest query, in microseconds.
    pub closed spec fn previous(&self) -> u64 {
        self.previous
    }

    /// The rate in hertz.
    pub closed spec fn spec_rate(&self) -> u64 {
        self.rate
    }

    /// The tokens in the bucket, in millionths.
    pub closed spec fn tokens(&self) -> int {
        self.tokens as int
    }

    pub closed spec fn wf(&self) -> bool {
        self.tokens <= u64::MAX as u128 * TOKEN_UNIT
    }

    /// Creates a limiter of `rate` hertz with a full bucket, at time `now`.
    pub fn new(rate: u64, now: u64) -> (r: Self)
        ensures
            r.wf(),
            r.spec_rate() == rate,
            r.tokens() == rate * TOKEN_UNIT,
            r.previous() == now,
    {
        Self { previous: now, rate, tokens: rate as u128 * TOKEN_UNIT }
    }

    /// Returns true if the rate limit is reached at time `now`; otherwise
    /// takes a token and returns false.
    pub fn limited(&mut self, now: u64) -> (r: bool)
        requires
            old(self).wf(),
        ensures
            final(self).wf(),
            final(self).spec_rate() == old(self).spec_rate(),
            (final(self).previous(), final(self).tokens(), !r) == limiter_step(
                old(self).spec_rate(),
                old(self).previous(),
                old(self).tokens(),
                now,
            ),
    {
        let elapsed: u64 = if now > self.previous {
            now - self.previous
        } else {
            0
        };
        if now > self.previous {
            self.previous = now;
        }
        let cap = self.rate as u128 * TOKEN_UNIT;
        proof {
            assert(elapsed * self.rate <= u64::MAX * u64::MAX) by (nonlinear_arith)
                requires
                    elapsed <= u64::MAX,
                    self.rate <= u64::MAX,
            ;
        }
        let added = elapsed as u128 * self.rate as u128;
        self.tokens = if self.tokens >= cap || added >= cap - self.tokens {
            cap
        } else {
            self.tokens + added
        };
        if self.tokens >= TOKEN_UNIT {
            self.tokens = self.tokens - TOKEN_UNIT;
            false
        } else {
            true
        }
    }

    /// Sets the rate of the limiter in hertz; the bucket keeps its tokens.
    pub fn set_rate(&mut self, rate: u64)
        requires
            old(self).wf(),
        ensures
            final(self).wf(),
            final(self).spec_rate() == rate,
            final(self).tokens() == old(self).tokens(),
            final(self).previous() == old(self).previous(),
    {
        self.rate = rate;
    }

    /// Returns the rate of the limiter in hertz.
    pub fn rate(&self) -> (r: u64)
        ensures
            r == self.spec_rate(),
    {
        self.rate
    }
}

/// Each query leaves the bucket and the admissions so far within what the
/// bucket held plus what the elapsed time added.
proof fn lemma_admissions_budget(rate: u64, previous: u64, tokens: int, times: Seq<u64>, end: u64)
    requires
        tokens >= 0,
        forall|i: int| 0 <= i < times.len() ==> #[trigger] times[i] <= end,
        previous <= end,
    ensures
        admissions(rate, previous, tokens, times) * TOKEN_UNIT <= tokens + rate * (end - previous),
    decreases times.len(),
{
    if times.len() > 0 {
        let (p, t, admitted) = limiter_step(rate, previous, tokens, times[0]);
        let rest = times.skip(1);
        assert forall|i: int| 0 <= i < rest.len() implies #[trigger] rest[i] <= end by {
            assert(rest[i] == times[i + 1]);
        }
        lemma_admissions_budget(rate, p, t, rest, end);
        let elapsed: int = p - previous;
        assert(t + (if admitted {
            1int
        } else {
            0int
        }) * TOKEN_UNIT <= tokens + elapsed * rate);
        assert(rate * (end - previous) == rate * (end - p) + elapsed * rate) by (nonlinear_arith)
            requires
                elapsed == p - previous,
        ;
    }
}

/// Over any window that starts at the limiter's latest query and ends at
/// `end`, at most `rate` plus `rate` per second of the window are admitted:
/// `admitted * 10^6 <= rate * 10^6 + rate * (end - start)` with times in
/// microseconds.
pub proof fn lemma_rate_bound(limiter: RateLimiter, times: Seq<u64>, end: u64)
    requires
        limiter.tokens() <= limiter.spec_rate() * TOKEN_UNIT,
        limiter.previous() <= end,
        forall|i: int| 0 <= i < times.len() ==> #[trigger] times[i] <= end,
    ensures
        admissions(limiter.spec_rate(), limiter.previous(), limiter.tokens(), times) * TOKEN_UNIT
            <= limiter.spec_rate() * TOKEN_UNIT + limiter.spec_rate() * (end - limiter.previous()),
{
    lemma_admissions_budget(limiter.spec_rate(), limiter.previous(), limiter.tokens(), times, end);
}

/// After every query the bucket holds at most `rate` tokens.
pub proof fn lemma_bucket_bound(rate: u64, previous: u64, tokens: int, now: u64)
    ensures
        limiter_step(rate, previous, tokens, now).1 <= rate * TOKEN_UNIT,
{
}

} // verus!
