//! The firmware clock.
use vstd::prelude::*;

verus! {

/// Reads the firmware clock in whole milliseconds since boot.
///
/// Calls `embassy_time::Instant::now` and converts the instant with
/// `Instant::as_millis`, which multiplies the tick count by
/// 1000 / gcd(tick rate, 1000) and divides by the rest of the tick rate; at
/// the tick rate of one megahertz that this crate builds embassy-time with,
/// the factor is one. The value depends on when the call is made, so nothing
/// is claimed about it: callers hold for every `u64`.
#[verifier::external_body]
pub(crate) fn clock_millis() -> (now: u64) {
    embassy_time::Instant::now().as_millis()
}

} // verus!
