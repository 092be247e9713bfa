//! The wall clock, read through std's system time.
//!
//! The reading itself is trusted: nothing is assumed about the value the
//! clock returns, and everything computed from it is verified.

use vstd::prelude::*;
use std::time::{Duration, SystemTime};

verus! {

#[verifier::external_type_specification]
#[verifier::external_body]
pub struct ExSystemTime(SystemTime);

/// Relies on std::time::SystemTime::now for the wall-clock reading; nothing
/// is assumed of the value read.
pub assume_specification[ SystemTime::now ]() -> SystemTime;

/// Relies on std::time::SystemTime::duration_since, measured against
/// std::time::UNIX_EPOCH: the span from the epoch to `t`, or nothing when
/// the clock read earlier than the epoch.
#[verifier::external_body]
fn duration_since_epoch(t: &SystemTime) -> (r: Option<Duration>) {
    t.duration_since(std::time::UNIX_EPOCH).ok()
}

/// Relies on std::time::Duration::as_secs: the whole-second part of the
/// span; nothing more is assumed of it.
pub assume_specification[ Duration::as_secs ](d: &Duration) -> u64;

/// Relies on std::time::Duration::subsec_nanos: the fractional part of the
/// span in nanoseconds, documented to be less than one billion.
pub assume_specification[ Duration::subsec_nanos ](d: &Duration) -> (r: u32)
    ensures
        r < 1_000_000_000,
;

/// Nanoseconds since the UNIX epoch, by the wall clock. A clock that reads
/// earlier than the epoch counts as the epoch itself.
pub fn current_nanos() -> u128 {
    let t = SystemTime::now();
    match duration_since_epoch(&t) {
        Some(d) => d.as_secs() as u128 * 1_000_000_000 + d.subsec_nanos() as u128,
        None => 0,
    }
}

} // verus!
