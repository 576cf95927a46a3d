//! When to try a failed operation again.
//!
//! The policy is exponential backoff: after each failure the wait doubles,
//! up to a ceiling, and after a set number of retries the failure stands.
//! The caller runs the operation and sleeps; the decisions are made here.
//! Time spans are in milliseconds.

use vstd::prelude::*;

verus! {

/// Retries allowed where the caller names no number.
pub const DEFAULT_RETRIES: usize = 3;

/// Longest wait where the caller names none.
pub const DEFAULT_MAX_DELAY: u64 = 30000;

/// The wait from which the doubling starts.
pub const INITIAL_DELAY: u64 = 100;

/// What to do after a failed attempt.
#[derive(Debug, Clone, Copy, PartialEq, Eq, Structural)]
pub enum RetryStep {
    /// Let the failure stand.
    GiveUp,
    /// Wait this long, then try again.
    Wait(u64),
}

/// Where a series of attempts stands.
#[derive(Debug, Clone, Copy, PartialEq, Eq, Structural)]
pub struct Backoff {
    /// Retries made so far.
    pub attempt: usize,
    /// The last wait, or the initial delay before any.
    pub delay: u64,
    /// Retries allowed.
    pub retries: usize,
    /// Longest wait allowed.
    pub max_delay: u64,
}

/// Twice `delay`, but no more than `max_delay`.
pub open spec fn next_delay(delay: u64, max_delay: u64) -> u64 {
    if 2 * delay >= max_delay {
        max_delay
    } else {
        (2 * delay) as u64
    }
}

impl Backoff {
    /// The state before the first attempt, with [`DEFAULT_RETRIES`] and
    /// [`DEFAULT_MAX_DELAY`] where the caller names none.
    pub fn new(retries: Option<usize>, max_delay: Option<u64>) -> (start: Backoff)
        ensures
            start == (Backoff {
                attempt: 0,
                delay: INITIAL_DELAY,
                retries: match retries {
                    Some(n) => n,
                    None => DEFAULT_RETRIES,
                },
                max_delay: match max_delay {
                    Some(span) => span,
                    None => DEFAULT_MAX_DELAY,
                },
            }),
    {
        Backoff {
            attempt: 0,
            delay: INITIAL_DELAY,
            retries: match retries {
                Some(n) => n,
                None => DEFAULT_RETRIES,
            },
            max_delay: match max_delay {
                Some(span) => span,
                None => DEFAULT_MAX_DELAY,
            },
        }
    }

    /// Decides what follows a failed attempt. Once all retries are used up the
    /// failure stands and the state stays as it is; before that the wait
    /// doubles, up to the ceiling, and one more retry is counted.
    pub fn on_failure(&mut self) -> (step: RetryStep)
        ensures
            old(self).attempt >= old(self).retries ==> step == RetryStep::GiveUp && *final(self)
                == *old(self),
            old(self).attempt < old(self).retries ==> step == RetryStep::Wait(
                next_delay(old(self).delay, old(self).max_delay),
            ) && *final(self) == (Backoff {
                attempt: (old(self).attempt + 1) as usize,
                delay: next_delay(old(self).delay, old(self).max_delay),
                ..*old(self)
            }),
    {
        if self.attempt >= self.retries {
            return RetryStep::GiveUp;
        }
        let delay = if self.delay >= self.max_delay || self.delay >= self.max_delay - self.delay {
            self.max_delay
        } else {
            self.delay * 2
        };
        self.delay = delay;
        self.attempt = self.attempt + 1;
        RetryStep::Wait(delay)
    }
}

} // verus!
