//! Bounded retry with exponentially growing, jittered backoff.
//!
//! `next` spends one attempt and grows the current delay by
//! `min(max_backoff_ms, backoff_ms * factor + jitter)` with a jitter drawn
//! uniformly from `[0, backoff_ms)`; it returns `false` once the attempts
//! are exhausted.  The caller performs the actual sleeps, of `delay_ms`
//! milliseconds each; the delay is zero on the final iteration.

use rand::Rng;
use vstd::prelude::*;

verus! {

/// Default number of attempts.
pub const MAX_RETRIES: u16 = 5;
/// Default first backoff, in milliseconds.
pub const INIT_BACKOFF_MS: u64 = 1000;
/// Default ceiling on the backoff, in milliseconds (one hour).
pub const MAX_BACKOFF_MS: u64 = 3600000;
/// Default growth factor of the backoff.
pub const BACKOFF_FACTOR: u64 = 2;

/// Largest accepted backoff ceiling; keeps the growth arithmetic in `u64`.
pub const BACKOFF_CEILING_LIMIT_MS: u64 = 0x4000_0000_0000;
/// Largest accepted growth factor; keeps the growth arithmetic in `u64`.
pub const BACKOFF_FACTOR_LIMIT: u64 = 0xffff;

/// A budget of retry attempts with the current backoff delay.
pub struct Attempts {
    /// Attempts that remain.
    pub n: u16,
    /// The current delay, in milliseconds.
    pub backoff_ms: u64,
    /// Ceiling the delay never exceeds.
    pub max_backoff_ms: u64,
    /// Growth factor applied to the delay on every spent attempt.
    pub factor: u64,
}

impl Attempts {
    /// The delay is positive, below its ceiling, and the growth arithmetic
    /// cannot overflow.
    pub open spec fn wf(self) -> bool {
        &&& 1 <= self.backoff_ms <= self.max_backoff_ms
        &&& self.max_backoff_ms <= BACKOFF_CEILING_LIMIT_MS
        &&& 1 <= self.factor <= BACKOFF_FACTOR_LIMIT
    }

    /// The delay that one spent attempt leads to: the grown, jittered delay,
    /// capped at the ceiling.
    pub open spec fn grown_backoff_ms(self, jitter: u64) -> u64 {
        if self.backoff_ms * self.factor + jitter > self.max_backoff_ms {
            self.max_backoff_ms
        } else {
            (self.backoff_ms * self.factor + jitter) as u64
        }
    }

    pub fn new(n: u16, init_backoff_ms: u64, max_backoff_ms: u64, factor: u64) -> (r: Self)
        requires
            1 <= init_backoff_ms <= max_backoff_ms,
            max_backoff_ms <= BACKOFF_CEILING_LIMIT_MS,
            1 <= factor <= BACKOFF_FACTOR_LIMIT,
        ensures
            r.wf(),
            r.n == n,
            r.backoff_ms == init_backoff_ms,
            r.max_backoff_ms == max_backoff_ms,
            r.factor == factor,
    {
        Self { n, backoff_ms: init_backoff_ms, max_backoff_ms, factor }
    }

    /// Relies on rand's `Rng::gen_range` over `0..high`: a draw from
    /// `[0, high)`, which panics only on an empty range.
    #[verifier::external_body]
    fn jitter(&self) -> (r: u64)
        requires
            self.backoff_ms >= 1,
        ensures
            r < self.backoff_ms,
    {
        rand::thread_rng().gen_range(0..self.backoff_ms)
    }

    /// Spends one attempt and grows the delay; returns `false`, changing
    /// nothing, once the attempts are exhausted.
    pub fn next(&mut self) -> (more: bool)
        requires
            old(self).wf(),
        ensures
            final(self).wf(),
            more == (old(self).n > 0),
            final(self).max_backoff_ms == old(self).max_backoff_ms,
            final(self).factor == old(self).factor,
            old(self).n == 0 ==> *final(self) == *old(self),
            old(self).n > 0 ==> final(self).n == old(self).n - 1,
            old(self).n > 0 ==> exists|j: u64|
                0 <= j < old(self).backoff_ms
                    && final(self).backoff_ms == old(self).grown_backoff_ms(j),
    {
        if self.n > 0 {
            self.n = self.n - 1;
            let j = self.jitter();
            proof {
                assert(self.backoff_ms <= self.backoff_ms * self.factor
                    <= BACKOFF_CEILING_LIMIT_MS * BACKOFF_FACTOR_LIMIT) by (nonlinear_arith)
                    requires
                        1 <= self.backoff_ms <= BACKOFF_CEILING_LIMIT_MS,
                        1 <= self.factor <= BACKOFF_FACTOR_LIMIT,
                ;
            }
            let grown = self.backoff_ms * self.factor + j;
            let new_backoff = if grown > self.max_backoff_ms {
                self.max_backoff_ms
            } else {
                grown
            };
            self.backoff_ms = new_backoff;
            proof {
                assert(0 <= j < old(self).backoff_ms
                    && self.backoff_ms == old(self).grown_backoff_ms(j));
                assert(exists|jj: u64|
                    0 <= jj < old(self).backoff_ms
                        && self.backoff_ms == old(self).grown_backoff_ms(jj));
            }
            true
        } else {
            false
        }
    }

    /// How long the caller waits before the next attempt: the current
    /// backoff, or nothing at all once the attempts are exhausted.
    pub fn delay_ms(&self) -> (d: u64)
        ensures
            self.n != 0 ==> d == self.backoff_ms,
            self.n == 0 ==> d == 0,
    {
        if self.n != 0 {
            self.backoff_ms
        } else {
            0
        }
    }
}

impl Default for Attempts {
    /// The default budget: five attempts starting from a one-second delay,
    /// doubling up to one hour.
    fn default() -> (r: Self)
        ensures
            r.wf(),
            r.n == MAX_RETRIES,
            r.backoff_ms == INIT_BACKOFF_MS,
            r.max_backoff_ms == MAX_BACKOFF_MS,
            r.factor == BACKOFF_FACTOR,
    {
        Self {
            n: MAX_RETRIES,
            backoff_ms: INIT_BACKOFF_MS,
            max_backoff_ms: MAX_BACKOFF_MS,
            factor: BACKOFF_FACTOR,
        }
    }
}

} // verus!
