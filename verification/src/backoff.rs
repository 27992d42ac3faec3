//! Backoff policy: a pure map from attempt count (and an optional
//! server-suggested retry-after hint) to a wait duration in seconds.

use vstd::prelude::*;

verus! {

/// Smallest delay the queue ever schedules, in seconds.
pub const MIN_QUEUE_DELAY_SECS: i64 = 3;

/// Attempt count at which an entry becomes terminally failed.
pub const MAX_RETRY_ATTEMPTS: i64 = 12;

/// Base backoff schedule by attempt count.
pub open spec fn backoff_seconds_spec(attempt: i64) -> i64 {
    if attempt == 0 || attempt == 1 {
        15
    } else if attempt == 2 {
        45
    } else if attempt == 3 {
        180
    } else if attempt == 4 {
        900
    } else {
        3600
    }
}

/// Effective retry delay: the base schedule, floored at the minimum queue
/// delay, and never shorter than the server's requested cooldown.
pub open spec fn retry_delay_seconds_spec(attempt: i64, retry_after_override: Option<i64>) -> i64 {
    let base = if backoff_seconds_spec(attempt) >= MIN_QUEUE_DELAY_SECS {
        backoff_seconds_spec(attempt)
    } else {
        MIN_QUEUE_DELAY_SECS
    };
    let hint = match retry_after_override {
        Some(h) => h,
        None => 0,
    };
    if hint >= base {
        hint
    } else {
        base
    }
}

pub fn backoff_seconds(attempt: i64) -> (secs: i64)
    ensures
        secs == backoff_seconds_spec(attempt),
{
    match attempt {
        0 | 1 => 15,
        2 => 45,
        3 => 180,
        4 => 900,
        _ => 3600,
    }
}

pub fn retry_delay_seconds(attempt: i64, retry_after_override: Option<i64>) -> (secs: i64)
    ensures
        secs == retry_delay_seconds_spec(attempt, retry_after_override),
{
    let base_raw = backoff_seconds(attempt);
    let base = if base_raw >= MIN_QUEUE_DELAY_SECS {
        base_raw
    } else {
        MIN_QUEUE_DELAY_SECS
    };
    let hint = match retry_after_override {
        Some(h) => h,
        None => 0,
    };
    if hint >= base {
        hint
    } else {
        base
    }
}

/// With no hint, the delay follows the base schedule exactly: 15 s for the
/// first two attempts, then 45 s, 180 s, 900 s, and 3600 s from the fifth
/// attempt on.
pub proof fn lemma_delay_schedule_without_hint(attempt: i64)
    ensures
        attempt == 0 || attempt == 1 ==> retry_delay_seconds_spec(attempt, None) == 15,
        attempt == 2 ==> retry_delay_seconds_spec(attempt, None) == 45,
        attempt == 3 ==> retry_delay_seconds_spec(attempt, None) == 180,
        attempt == 4 ==> retry_delay_seconds_spec(attempt, None) == 900,
        attempt >= 5 || attempt < 0 ==> retry_delay_seconds_spec(attempt, None) == 3600,
{
}

/// A server hint can only lengthen the wait: when the hint exceeds the base
/// value for the attempt, the delay equals the hint; when it does not, the
/// delay equals the base value.
pub proof fn lemma_delay_respects_hint(attempt: i64, hint: i64)
    ensures
        hint > backoff_seconds_spec(attempt) ==> retry_delay_seconds_spec(attempt, Some(hint))
            == hint,
        hint <= backoff_seconds_spec(attempt) ==> retry_delay_seconds_spec(attempt, Some(hint))
            == backoff_seconds_spec(attempt),
        retry_delay_seconds_spec(attempt, Some(hint)) >= hint,
{
}

/// Backoff is monotonically non-decreasing in the attempt count, for the
/// attempt counts the queue ever passes (non-negative).
pub proof fn lemma_backoff_monotone(a: i64, b: i64)
    requires
        0 <= a <= b,
    ensures
        backoff_seconds_spec(a) <= backoff_seconds_spec(b),
{
}

} // verus!
