//! Token-bucket admission control for inbound bytes.
//!
//! The bucket holds at most `burst` tokens and refills at `qps` tokens
//! per second of elapsed time, in integer arithmetic over millisecond
//! timestamps.  A consumption of `n` tokens is granted exactly when the
//! refilled bucket holds at least `n`.

use vstd::prelude::*;
use crate::types::Timestamp;

verus! {

/// Token bucket limiting inbound bytes per tier.
pub struct RateLimiter {
    qps: u64,
    burst: u64,
    tokens: u64,
    last: Timestamp,
}

/// Refill ceiling: after this many milliseconds without a check the
/// bucket is simply full.
pub const REFILL_CEILING_MS: u64 = 0x1_0000_0000;

impl RateLimiter {
    #[verifier::type_invariant]
    spec fn inv(self) -> bool {
        &&& 1 <= self.qps < 0x1_0000_0000
        &&& self.tokens <= self.burst
        &&& self.burst <= 0x4000_0000_0000_0000
        &&& 1000 * self.burst <= 0x1_0000_0000 * self.qps
    }

    /// Configured refill rate, tokens per second.
    pub closed spec fn spec_qps(self) -> u64 {
        self.qps
    }

    /// Configured bucket size.
    pub closed spec fn spec_burst(self) -> u64 {
        self.burst
    }

    /// Tokens held before any refill.
    pub closed spec fn spec_tokens(self) -> u64 {
        self.tokens
    }

    /// Time of the last check.
    pub closed spec fn spec_last(self) -> Timestamp {
        self.last
    }

    /// Tokens available at `now`, once the elapsed time has been
    /// credited: capped at the bucket size.
    pub open spec fn spec_available(self, now: Timestamp) -> int {
        let elapsed = if now >= self.spec_last() { now - self.spec_last() } else { 0 };
        let refilled = self.spec_tokens() + elapsed * self.spec_qps() / 1000;
        if refilled >= self.spec_burst() { self.spec_burst() as int } else { refilled }
    }

    /// A full bucket.  The rate must be positive and the bucket small
    /// enough that the refill ceiling can fill it.
    pub fn new(now: Timestamp, qps: u64, burst: u64) -> (r: Self)
        requires
            1 <= qps < 0x1_0000_0000,
            burst <= 0x4000_0000_0000_0000,
            1000 * burst <= 0x1_0000_0000 * qps,
        ensures
            r.spec_qps() == qps,
            r.spec_burst() == burst,
            r.spec_tokens() == burst,
            r.spec_last() == now,
    {
        RateLimiter { qps, burst, tokens: burst, last: now }
    }

    /// Credit the elapsed time, then consume `n` tokens if that many
    /// are available.  Grants exactly when the refilled bucket covers
    /// `n`; either way the refill sticks and the check time advances.
    pub fn try_consume(&mut self, n: u64, now: Timestamp) -> (r: bool)
        ensures
            final(self).spec_qps() == old(self).spec_qps(),
            final(self).spec_burst() == old(self).spec_burst(),
            r == (old(self).spec_available(now) >= n),
            final(self).spec_tokens() == if r {
                old(self).spec_available(now) - n
            } else {
                old(self).spec_available(now)
            },
            final(self).spec_last() == if now >= old(self).spec_last() {
                now
            } else {
                old(self).spec_last()
            },
    {
        proof {
            use_type_invariant(&*self);
        }
        let elapsed = if now >= self.last { now - self.last } else { 0 };
        let added: u64 = if elapsed >= REFILL_CEILING_MS {
            proof {
                assert(elapsed * self.qps >= 0x1_0000_0000 * self.qps) by (nonlinear_arith)
                    requires elapsed >= 0x1_0000_0000 && self.qps >= 1;
                assert(0x1_0000_0000 * self.qps / 1000 >= 1000 * self.burst / 1000) by {
                    vstd::arithmetic::div_mod::lemma_div_is_ordered(
                        1000 * self.burst as int,
                        0x1_0000_0000 * self.qps as int,
                        1000,
                    );
                }
                assert(1000 * self.burst / 1000 == self.burst as int) by (nonlinear_arith);
                vstd::arithmetic::div_mod::lemma_div_is_ordered(
                    0x1_0000_0000 * self.qps as int,
                    elapsed * self.qps as int,
                    1000,
                );
                assert(elapsed * self.qps / 1000 >= self.burst);
            }
            self.burst
        } else {
            proof {
                assert(elapsed * self.qps < 0x1_0000_0000 * 0x1_0000_0000) by (nonlinear_arith)
                    requires elapsed < 0x1_0000_0000 && self.qps < 0x1_0000_0000;
            }
            (elapsed * self.qps) / 1000
        };
        let avail = if added >= self.burst - self.tokens {
            self.burst
        } else {
            self.tokens + added
        };
        let granted = avail >= n;
        self.tokens = if granted { avail - n } else { avail };
        self.last = if now >= self.last { now } else { self.last };
        granted
    }
}

} // verus!
