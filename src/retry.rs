use vstd::prelude::*;

verus! {

/// Bounded exponential backoff for transient fetch errors.
#[derive(Debug, Clone, Copy, PartialEq, Eq, Structural)]
pub struct RetryPolicy {
    /// Attempts in all, the first included.
    pub max_attempts: u32,
    /// Delay after the first failure, in milliseconds.
    pub base_delay_ms: u64,
    /// Ceiling of any delay, in milliseconds.
    pub max_delay_ms: u64,
}

impl RetryPolicy {
    /// The delay after failed attempt `attempt` (counted from one): the base
    /// delay doubled for each earlier failure, never above the ceiling.
    pub open spec fn delay(self, attempt: nat) -> nat
        decreases attempt,
    {
        if attempt <= 1 {
            if self.base_delay_ms <= self.max_delay_ms {
                self.base_delay_ms as nat
            } else {
                self.max_delay_ms as nat
            }
        } else {
            let prev = self.delay((attempt - 1) as nat);
            if 2 * prev <= self.max_delay_ms {
                2 * prev
            } else {
                self.max_delay_ms as nat
            }
        }
    }

    /// What to do after attempt `attempt` (counted from one) failed: wait the
    /// returned number of milliseconds and try again, or give up (`None`) once
    /// `max_attempts` attempts have been made.
    pub fn after_failure(&self, attempt: u32) -> (r: Option<u64>)
        ensures
            r is Some <==> attempt < self.max_attempts,
            r matches Some(d) ==> d == self.delay(attempt as nat),
    {
        if attempt >= self.max_attempts {
            return None;
        }
        let mut d: u64 = if self.base_delay_ms <= self.max_delay_ms {
            self.base_delay_ms
        } else {
            self.max_delay_ms
        };
        let mut k: u32 = 1;
        while k < attempt
            invariant
                1 <= k,
                k <= attempt || (attempt == 0 && k == 1),
                d == self.delay(k as nat),
                d <= self.max_delay_ms,
            decreases attempt - k,
        {
            if d <= self.max_delay_ms / 2 {
                d = d * 2;
            } else {
                d = self.max_delay_ms;
            }
            k = k + 1;
        }
        assert(self.delay(0) == self.delay(1));
        Some(d)
    }
}

} // verus!
