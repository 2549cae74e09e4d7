//! How events are gathered into batches, and how often a batch is tried.

use vstd::prelude::*;

verus! {

/// When a batch is full.
#[derive(Clone, Copy, Debug, PartialEq, Eq, Structural)]
pub struct BatchConfig {
    pub max_events: usize,
    /// By the reckoned size in JSON.
    pub max_bytes: usize,
    /// How long the first event of a batch waits at most, in milliseconds.
    pub timeout_ms: u64,
}

impl Default for BatchConfig {
    /// 10,000 events, 10 MiB, one second.
    fn default() -> (r: Self)
        ensures
            r.max_events == 10_000,
            r.max_bytes == 10_485_760,
            r.timeout_ms == 1_000,
    {
        BatchConfig { max_events: 10_000, max_bytes: 10_485_760, timeout_ms: 1_000 }
    }
}

impl BatchConfig {
    pub fn max_events(self, max_events: usize) -> (r: Self)
        ensures
            r == (BatchConfig { max_events, ..self }),
    {
        BatchConfig { max_events, ..self }
    }

    pub fn max_bytes(self, max_bytes: usize) -> (r: Self)
        ensures
            r == (BatchConfig { max_bytes, ..self }),
    {
        BatchConfig { max_bytes, ..self }
    }

    pub fn timeout(self, timeout_ms: u64) -> (r: Self)
        ensures
            r == (BatchConfig { timeout_ms, ..self }),
    {
        BatchConfig { timeout_ms, ..self }
    }
}

/// How often a batch is tried, and how long to wait in between.
#[derive(Clone, Copy, Debug, PartialEq, Eq, Structural)]
pub struct RetryConfig {
    pub max_attempts: usize,
    /// The wait after the first attempt, in milliseconds; it doubles with each.
    pub initial_backoff_ms: u64,
    /// The longest wait, in milliseconds.
    pub max_backoff_ms: u64,
}

impl Default for RetryConfig {
    /// Five attempts, half a second up to half a minute.
    fn default() -> (r: Self)
        ensures
            r.max_attempts == 5,
            r.initial_backoff_ms == 500,
            r.max_backoff_ms == 30_000,
    {
        RetryConfig { max_attempts: 5, initial_backoff_ms: 500, max_backoff_ms: 30_000 }
    }
}

/// Two to the `n`.
pub open spec fn pow2(n: nat) -> nat
    decreases n,
{
    if n == 0 {
        1
    } else {
        2 * pow2((n - 1) as nat)
    }
}

/// The smaller of two numbers.
pub open spec fn at_most(a: nat, b: nat) -> nat {
    if a < b {
        a
    } else {
        b
    }
}

impl RetryConfig {
    /// The wait after an attempt, the first of which is 1: it doubles with each,
    /// up to the longest.
    pub open spec fn wait_after(self, attempt: nat) -> nat {
        at_most(
            self.initial_backoff_ms as nat * pow2(
                if attempt == 0 {
                    0
                } else {
                    (attempt - 1) as nat
                },
            ),
            self.max_backoff_ms as nat,
        )
    }

    /// The wait after an attempt, in milliseconds.
    pub fn backoff(&self, attempt: usize) -> (r: u64)
        ensures
            r == self.wait_after(attempt as nat),
    {
        let steps: usize = if attempt == 0 {
            0
        } else {
            attempt - 1
        };
        let mut wait: u64 = if self.initial_backoff_ms < self.max_backoff_ms {
            self.initial_backoff_ms
        } else {
            self.max_backoff_ms
        };
        let ghost initial = self.initial_backoff_ms as nat;
        let ghost max = self.max_backoff_ms as nat;
        proof {
            assert(initial * 1 == initial);
        }
        for i in 0..steps
            invariant
                initial == self.initial_backoff_ms,
                max == self.max_backoff_ms,
                wait == at_most(initial * pow2(i as nat), max),
        {
            proof {
                let p = pow2(i as nat);
                assert(initial * (2 * p) == 2 * (initial * p)) by (nonlinear_arith);
                assert(pow2((i + 1) as nat) == 2 * p);
            }
            if wait <= self.max_backoff_ms / 2 {
                wait = wait * 2;
            } else {
                wait = self.max_backoff_ms;
            }
        }
        wait
    }
}

} // verus!
