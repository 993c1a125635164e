//! The current time in whole seconds since the Unix epoch.

use vstd::prelude::*;

verus! {

/// The seconds since the Unix epoch on the system clock (`SystemTime::now`
/// measured from `UNIX_EPOCH`), or `None` when the clock is before the epoch.
/// Nothing is stated of the value: it is the time.
#[verifier::external_body]
fn system_seconds() -> (r: Option<u64>) {
    match std::time::SystemTime::now().duration_since(std::time::UNIX_EPOCH) {
        Ok(d) => Some(d.as_secs()),
        Err(_) => None,
    }
}

/// A clock reading as a timestamp: the seconds as an `i64` (as a cast gives
/// them), or 0 when the clock is before the epoch.
pub open spec fn spec_timestamp(secs: Option<u64>) -> i64 {
    match secs {
        Some(s) => s as i64,
        None => 0,
    }
}

/// Turns a clock reading into a timestamp.
pub fn timestamp(secs: Option<u64>) -> (t: i64)
    ensures
        t == spec_timestamp(secs),
{
    match secs {
        Some(s) => s as i64,
        None => 0,
    }
}

/// The current time in whole seconds since the Unix epoch (0 when the clock
/// is before the epoch).
pub fn now() -> (t: i64)
    ensures
        exists|secs: Option<u64>| t == spec_timestamp(secs),
{
    let secs = system_seconds();
    let t = timestamp(secs);
    assert(t == spec_timestamp(secs));
    t
}

} // verus!
