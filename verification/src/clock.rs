//! The wall clock, in the unit the window reads.
use vstd::prelude::*;

verus! {

/// Unix milliseconds now: `SystemTime::now()` measured from the epoch, or `0` for a clock
/// set before it. What the clock says is the machine's, so nothing is promised of the value.
#[verifier::external_body]
pub fn now_ms() -> u64 {
    match std::time::SystemTime::now().duration_since(std::time::UNIX_EPOCH) {
        Ok(since) => since.as_millis() as u64,
        Err(_) => 0,
    }
}

} // verus!
