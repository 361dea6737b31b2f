//! The delivery service's policies: a concurrency limit, a fixed-window
//! rate limit, and retry with exponential backoff. The asynchronous
//! plumbing around a transmit operation lives outside the library; every
//! decision it takes comes from here.

use vstd::prelude::*;

verus! {

/// How a destination classified the outcome of one transmit attempt.
#[derive(Clone, Debug, PartialEq)]
pub enum RetryAction {
    /// Transient: try again, with the given reason.
    Retry(String),
    /// The payload itself is refused: trying again can never help.
    DontRetry(String),
    /// The response is fine as it is.
    Proceed,
}

/// The failure taxonomy of the delivery path. Configuration problems are
/// a separate type surfaced at construction time.
#[derive(Clone, Copy, Debug, PartialEq, Eq)]
pub enum DeliveryError {
    /// Connection or timeout failure: always worth retrying.
    Transport,
    /// The destination signalled a transient condition.
    RetriableServer,
    /// The destination refuses the payload for good.
    PermanentRejection,
}

/// What the retry policy tells the caller to do next.
#[derive(Clone, Copy, Debug, PartialEq, Eq)]
pub enum RetryDecision {
    /// The call succeeded; nothing more to do.
    Done,
    /// Wait this many milliseconds, then try again.
    RetryAfter(u64),
    /// Terminal failure: stop retrying and resolve the batch as failed.
    Abandon,
}

/// The doubled backoff, capped at `max`.
pub open spec fn next_backoff(cur: u64, max: u64) -> u64 {
    if cur > max / 2 {
        max
    } else {
        (cur * 2) as u64
    }
}

/// Retry state for one in-flight request: how many retries are left and
/// how long the next pause is.
pub struct RetryPolicy {
    pub remaining: u32,
    pub backoff_ms: u64,
    pub max_backoff_ms: u64,
}

impl RetryPolicy {
    pub fn new(attempts: u32, initial_backoff_ms: u64, max_backoff_ms: u64) -> (r: RetryPolicy)
        ensures
            r.remaining == attempts,
            r.backoff_ms == initial_backoff_ms,
            r.max_backoff_ms == max_backoff_ms,
    {
        RetryPolicy { remaining: attempts, backoff_ms: initial_backoff_ms, max_backoff_ms }
    }

    /// One failed attempt: retry with the current backoff while attempts
    /// remain, doubling the pause up to the cap; abandon once they are
    /// spent.
    pub fn on_failure(&mut self) -> (d: RetryDecision)
        ensures
            old(self).remaining == 0 ==> d == RetryDecision::Abandon && *final(self) == *old(self),
            old(self).remaining > 0 ==> d == RetryDecision::RetryAfter(old(self).backoff_ms)
                && final(self).remaining == old(self).remaining - 1 && final(self).backoff_ms
                == next_backoff(old(self).backoff_ms, old(self).max_backoff_ms) && final(self).max_backoff_ms == old(self).max_backoff_ms,
    {
        if self.remaining == 0 {
            RetryDecision::Abandon
        } else {
            let wait = self.backoff_ms;
            self.remaining = self.remaining - 1;
            self.backoff_ms = if self.backoff_ms > self.max_backoff_ms / 2 {
                self.max_backoff_ms
            } else {
                self.backoff_ms * 2
            };
            RetryDecision::RetryAfter(wait)
        }
    }

    /// Resolve one attempt's classified outcome. A permanent rejection is
    /// never retried, whatever attempts remain; a retriable failure goes
    /// through the backoff schedule; success ends the call.
    pub fn decide(&mut self, outcome: &RetryAction) -> (d: RetryDecision)
        ensures
            outcome is Proceed ==> d == RetryDecision::Done && *final(self) == *old(self),
            outcome is DontRetry ==> d == RetryDecision::Abandon && *final(self) == *old(self),
            outcome is Retry && old(self).remaining == 0 ==> d == RetryDecision::Abandon
                && *final(self) == *old(self),
            outcome is Retry && old(self).remaining > 0 ==> d == RetryDecision::RetryAfter(
                old(self).backoff_ms,
            ) && final(self).remaining == old(self).remaining - 1 && final(self).backoff_ms
                == next_backoff(old(self).backoff_ms, old(self).max_backoff_ms),
    {
        match outcome {
            RetryAction::Proceed => RetryDecision::Done,
            RetryAction::DontRetry(_) => RetryDecision::Abandon,
            RetryAction::Retry(_) => self.on_failure(),
        }
    }

    /// A transport-level failure is always classified retriable.
    pub fn on_error(&mut self, error: DeliveryError) -> (d: RetryDecision)
        ensures
            (error is Transport || error is RetriableServer) && old(self).remaining > 0 ==> d
                == RetryDecision::RetryAfter(old(self).backoff_ms) && final(self).remaining
                == old(self).remaining - 1,
            (error is Transport || error is RetriableServer) && old(self).remaining == 0 ==> d
                == RetryDecision::Abandon && *final(self) == *old(self),
            error is PermanentRejection ==> d == RetryDecision::Abandon && *final(self)
                == *old(self),
    {
        match error {
            DeliveryError::Transport => self.on_failure(),
            DeliveryError::RetriableServer => self.on_failure(),
            DeliveryError::PermanentRejection => RetryDecision::Abandon,
        }
    }
}

/// The policy state after `k` failed attempts.
pub open spec fn policy_after(p: RetryPolicy, k: nat) -> RetryPolicy
    decreases k,
{
    if k == 0 {
        p
    } else {
        let q = policy_after(p, (k - 1) as nat);
        if q.remaining > 0 {
            RetryPolicy {
                remaining: (q.remaining - 1) as u32,
                backoff_ms: next_backoff(q.backoff_ms, q.max_backoff_ms),
                max_backoff_ms: q.max_backoff_ms,
            }
        } else {
            q
        }
    }
}

/// The retry law: an operation that fails on every attempt is retried
/// exactly `p.remaining` times — the decision after `k` failures is a
/// retry precisely while `k` is below the configured attempt count, and an
/// abandonment from then on.
pub proof fn lemma_retry_exhaustion(p: RetryPolicy, k: nat)
    ensures
        policy_after(p, k).remaining == if k <= p.remaining {
            (p.remaining - k) as int
        } else {
            0
        },
        k < p.remaining ==> policy_after(p, k).remaining > 0,
        k >= p.remaining ==> policy_after(p, k).remaining == 0,
    decreases k,
{
    if k > 0 {
        lemma_retry_exhaustion(p, (k - 1) as nat);
    }
}

/// What the admission gate answers.
#[derive(Clone, Copy, Debug, PartialEq, Eq)]
pub enum AdmitDecision {
    /// A slot and a rate token were taken; the transmit may start.
    Admit,
    /// Full, or out of tokens for this window: come back later.
    Wait,
}

/// Admission control in front of the transmit operation: at most
/// `concurrency_limit` calls in flight at once, and at most `rate_limit`
/// admissions per fixed window.
pub struct FlowLimiter {
    pub concurrency_limit: u64,
    pub rate_limit: u64,
    pub window_ms: u64,
    pub in_flight: u64,
    pub admitted_in_window: u64,
    pub window_start_ms: u64,
}

impl FlowLimiter {
    pub fn new(concurrency_limit: u64, rate_limit: u64, window_ms: u64, now_ms: u64) -> (r:
        FlowLimiter)
        ensures
            r.concurrency_limit == concurrency_limit,
            r.rate_limit == rate_limit,
            r.window_ms == window_ms,
            r.in_flight == 0,
            r.admitted_in_window == 0,
            r.window_start_ms == now_ms,
    {
        FlowLimiter {
            concurrency_limit,
            rate_limit,
            window_ms,
            in_flight: 0,
            admitted_in_window: 0,
            window_start_ms: now_ms,
        }
    }

    /// Whether the current window has elapsed at `now_ms`.
    pub open spec fn window_elapsed(self, now_ms: u64) -> bool {
        now_ms - self.window_start_ms >= self.window_ms
    }

    /// Ask to start one transmit at time `now_ms`. A fresh window opens
    /// when the previous one has elapsed; admission takes one concurrency
    /// slot and one rate token, and is refused when either is exhausted.
    pub fn try_admit(&mut self, now_ms: u64) -> (d: AdmitDecision)
        requires
            now_ms >= old(self).window_start_ms,
            old(self).in_flight < u64::MAX,
            old(self).admitted_in_window < u64::MAX,
        ensures
            final(self).concurrency_limit == old(self).concurrency_limit,
            final(self).rate_limit == old(self).rate_limit,
            final(self).window_ms == old(self).window_ms,
            final(self).window_start_ms == if old(self).window_elapsed(now_ms) {
                now_ms
            } else {
                old(self).window_start_ms
            },
            ({
                let counted: u64 = if old(self).window_elapsed(now_ms) {
                    0
                } else {
                    old(self).admitted_in_window
                };
                &&& (d == AdmitDecision::Admit <==> old(self).in_flight < old(self).concurrency_limit && counted < old(self).rate_limit)
                &&& (d == AdmitDecision::Admit ==> final(self).in_flight == old(self).in_flight + 1 && final(self).admitted_in_window == counted + 1)
                &&& (d == AdmitDecision::Wait ==> final(self).in_flight == old(self).in_flight && final(self).admitted_in_window == counted)
            }),
    {
        if now_ms - self.window_start_ms >= self.window_ms {
            self.window_start_ms = now_ms;
            self.admitted_in_window = 0;
        }
        if self.in_flight < self.concurrency_limit && self.admitted_in_window < self.rate_limit {
            self.in_flight = self.in_flight + 1;
            self.admitted_in_window = self.admitted_in_window + 1;
            AdmitDecision::Admit
        } else {
            AdmitDecision::Wait
        }
    }

    /// One transmit resolved: its concurrency slot frees up.
    pub fn release(&mut self)
        requires
            old(self).in_flight > 0,
        ensures
            final(self).in_flight == old(self).in_flight - 1,
            final(self).concurrency_limit == old(self).concurrency_limit,
            final(self).rate_limit == old(self).rate_limit,
            final(self).window_ms == old(self).window_ms,
            final(self).admitted_in_window == old(self).admitted_in_window,
            final(self).window_start_ms == old(self).window_start_ms,
    {
        self.in_flight = self.in_flight - 1;
    }
}

/// User-facing knobs of the delivery service; unset fields fall back to
/// per-destination defaults.
#[derive(Clone, Copy, Debug, Default)]
pub struct RequestConfig {
    pub in_flight_limit: Option<u64>,
    pub rate_limit_num: Option<u64>,
    pub rate_limit_window_ms: Option<u64>,
    pub retry_attempts: Option<u32>,
    pub retry_initial_backoff_ms: Option<u64>,
    pub retry_max_backoff_ms: Option<u64>,
}

/// The resolved delivery settings.
#[derive(Clone, Copy, Debug, PartialEq, Eq)]
pub struct RequestSettings {
    pub in_flight_limit: u64,
    pub rate_limit_num: u64,
    pub rate_limit_window_ms: u64,
    pub retry_attempts: u32,
    pub retry_initial_backoff_ms: u64,
    pub retry_max_backoff_ms: u64,
}

impl RequestConfig {
    /// Fill the unset fields from the destination's defaults.
    pub fn unwrap_with(&self, defaults: &RequestSettings) -> (r: RequestSettings)
        ensures
            r.in_flight_limit == self.in_flight_limit.unwrap_or(defaults.in_flight_limit),
            r.rate_limit_num == self.rate_limit_num.unwrap_or(defaults.rate_limit_num),
            r.rate_limit_window_ms == self.rate_limit_window_ms.unwrap_or(
                defaults.rate_limit_window_ms,
            ),
            r.retry_attempts == self.retry_attempts.unwrap_or(defaults.retry_attempts),
            r.retry_initial_backoff_ms == self.retry_initial_backoff_ms.unwrap_or(
                defaults.retry_initial_backoff_ms,
            ),
            r.retry_max_backoff_ms == self.retry_max_backoff_ms.unwrap_or(
                defaults.retry_max_backoff_ms,
            ),
    {
        RequestSettings {
            in_flight_limit: match self.in_flight_limit {
                Some(v) => v,
                None => defaults.in_flight_limit,
            },
            rate_limit_num: match self.rate_limit_num {
                Some(v) => v,
                None => defaults.rate_limit_num,
            },
            rate_limit_window_ms: match self.rate_limit_window_ms {
                Some(v) => v,
                None => defaults.rate_limit_window_ms,
            },
            retry_attempts: match self.retry_attempts {
                Some(v) => v,
                None => defaults.retry_attempts,
            },
            retry_initial_backoff_ms: match self.retry_initial_backoff_ms {
                Some(v) => v,
                None => defaults.retry_initial_backoff_ms,
            },
            retry_max_backoff_ms: match self.retry_max_backoff_ms {
                Some(v) => v,
                None => defaults.retry_max_backoff_ms,
            },
        }
    }
}

} // verus!
