//! The retry policy for resolving a locator to one match.
//!
//! The caller runs the loop: it resolves against a fresh snapshot, asks the
//! policy what to do next, and waits when told to.

use crate::errors::AutomationError;
use vstd::prelude::*;

verus! {

/// How long to keep retrying, and how long to wait between attempts.
#[derive(Clone, Copy, Debug, PartialEq, Eq, Structural)]
pub struct RetryPolicy {
    pub timeout_ms: u64,
    pub backoff_ms: u64,
}

/// What to do after an attempt.
#[derive(Clone, Copy, Debug, PartialEq, Eq, Structural)]
pub enum RetryStep {
    /// A match was found: return it.
    Done,
    /// Wait this many milliseconds, then try again.
    Wait(u64),
    /// Stop with this error.
    Fail(AutomationError),
}

/// The pause before the next attempt: the backoff (at least 1 ms), cut
/// short so as not to pass the timeout.
pub open spec fn pause(p: RetryPolicy, elapsed: u64) -> u64 {
    let b: u64 = if p.backoff_ms == 0 {
        1
    } else {
        p.backoff_ms
    };
    if b <= p.timeout_ms - elapsed {
        b
    } else {
        (p.timeout_ms - elapsed) as u64
    }
}

pub open spec fn step_spec(p: RetryPolicy, found: bool, elapsed: u64, cancelled: bool) -> RetryStep {
    if found {
        RetryStep::Done
    } else if cancelled {
        RetryStep::Fail(AutomationError::Cancelled)
    } else if elapsed >= p.timeout_ms {
        RetryStep::Fail(AutomationError::NotFound)
    } else {
        RetryStep::Wait(pause(p, elapsed))
    }
}

/// The time spent waiting after `n` attempts that found nothing, each wait
/// taken in full.
pub open spec fn waited(p: RetryPolicy, n: nat) -> int
    decreases n,
{
    if n == 0 {
        0
    } else {
        let e = waited(p, (n - 1) as nat);
        match step_spec(p, false, e as u64, false) {
            RetryStep::Wait(w) => e + w,
            _ => e,
        }
    }
}

impl RetryPolicy {
    pub fn new(timeout_ms: u64, backoff_ms: u64) -> (r: RetryPolicy)
        ensures
            r.timeout_ms == timeout_ms,
            r.backoff_ms == backoff_ms,
    {
        RetryPolicy { timeout_ms, backoff_ms }
    }

    /// The decision after an attempt made `elapsed_ms` after the first one.
    /// A match ends the loop at once; a cancellation ends it with
    /// `Cancelled`; past the timeout it ends with `NotFound`; otherwise the
    /// caller waits, never beyond the timeout.
    pub fn next_step(&self, found: bool, elapsed_ms: u64, cancelled: bool) -> (r: RetryStep)
        ensures
            r == step_spec(*self, found, elapsed_ms, cancelled),
    {
        if found {
            RetryStep::Done
        } else if cancelled {
            RetryStep::Fail(AutomationError::Cancelled)
        } else if elapsed_ms >= self.timeout_ms {
            RetryStep::Fail(AutomationError::NotFound)
        } else {
            let b: u64 = if self.backoff_ms == 0 {
                1
            } else {
                self.backoff_ms
            };
            let left = self.timeout_ms - elapsed_ms;
            RetryStep::Wait(
                if b <= left {
                    b
                } else {
                    left
                },
            )
        }
    }
}

/// Retrying never waits past the timeout, and it gives up with `NotFound`
/// after at most `timeout_ms + 1` attempts: every wait is at least 1 ms
/// until the timeout is reached.
pub proof fn lemma_retry_within_timeout(p: RetryPolicy, n: nat)
    ensures
        0 <= waited(p, n) <= p.timeout_ms,
        waited(p, n) >= if n <= p.timeout_ms {
            n as int
        } else {
            p.timeout_ms as int
        },
        n >= p.timeout_ms ==> step_spec(p, false, waited(p, n) as u64, false) == RetryStep::Fail(
            AutomationError::NotFound,
        ),
    decreases n,
{
    if n > 0 {
        lemma_retry_within_timeout(p, (n - 1) as nat);
    }
}

} // verus!
