//! Retry policies for failed tasks.

use vstd::prelude::*;
use std::time::Duration;

verus! {

/// Which failures are retried.
#[derive(Debug, Clone, Copy, PartialEq, Eq, Structural)]
pub enum RetryCondition {
    /// Always retry on failure.
    Always,
    /// Only retry on transient errors.
    TransientOnly,
    /// Never retry.
    Never,
}

/// How often, after what delay and on which failures a task is retried.
#[derive(Debug)]
pub struct RetryPolicy {
    /// Maximum number of retry attempts.
    pub max_attempts: u32,
    /// Delay between attempts.
    pub delay: Duration,
    /// Which failures are retried.
    pub retry_on: RetryCondition,
}

impl RetryPolicy {
    /// A policy with a fixed delay between attempts, retrying every failure.
    pub fn fixed(max_attempts: u32, delay: Duration) -> (r: RetryPolicy)
        ensures
            r.max_attempts == max_attempts,
            r.delay == delay,
            r.retry_on == RetryCondition::Always,
    {
        RetryPolicy { max_attempts, delay, retry_on: RetryCondition::Always }
    }

    /// The same policy, retrying on `condition`.
    pub fn with_condition(self, condition: RetryCondition) -> (r: RetryPolicy)
        ensures
            r.max_attempts == self.max_attempts,
            r.delay == self.delay,
            r.retry_on == condition,
    {
        RetryPolicy { retry_on: condition, ..self }
    }

    /// Whether the policy retries at all: it allows at least one attempt.
    pub fn is_enabled(&self) -> (r: bool)
        ensures
            r == (self.max_attempts > 0),
    {
        self.max_attempts > 0
    }
}

} // verus!
