//! The wall clock, read once per queue operation.

use vstd::prelude::*;

verus! {

/// Relies on std::time::SystemTime::now and duration_since(UNIX_EPOCH):
/// the whole seconds since the Unix epoch, or 0 for a clock reading
/// before it. Nothing is promised of the value: it is the machine's
/// clock.
#[verifier::external_body]
fn system_now_secs() -> (secs: u64) {
    match std::time::SystemTime::now().duration_since(std::time::UNIX_EPOCH) {
        Ok(d) => d.as_secs(),
        Err(_) => 0,
    }
}

/// The current Unix time in whole seconds, clamped into an `i64`.
pub fn now_unix() -> (now: i64)
    ensures
        0 <= now,
{
    let secs = system_now_secs();
    if secs > i64::MAX as u64 {
        i64::MAX
    } else {
        secs as i64
    }
}

} // verus!
