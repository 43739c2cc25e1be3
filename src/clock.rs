//! Wall-clock time, in whole seconds since the Unix epoch.

use vstd::prelude::*;

verus! {

/// Relies on std::time::SystemTime::elapsed, taken from UNIX_EPOCH: the
/// current time in whole seconds, or 0 for a clock set before the epoch.
/// Nothing is promised of the value.
#[verifier::external_body]
pub fn now_unix_secs() -> (r: i64)
{
    match std::time::UNIX_EPOCH.elapsed() {
        Ok(d) => d.as_secs() as i64,
        Err(_) => 0,
    }
}

} // verus!
