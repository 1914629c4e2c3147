//! The clocks of the machine.

use vstd::prelude::*;

verus! {

/// `std::time::Instant`, a moment of the monotonic clock.
#[verifier::external_type_specification]
#[verifier::external_body]
pub struct ExInstant(std::time::Instant);

/// The time since the Unix epoch in seconds and nanoseconds, by
/// `std::time::SystemTime`; `None` when the clock stands before the epoch.
/// Nothing is claimed of what the clock reads but that the nanoseconds are
/// less than a second.
#[verifier::external_body]
fn unix_time() -> (r: Option<(u64, u32)>)
    ensures
        r matches Some(t) ==> t.1 < 1_000_000_000,
{
    std::time::SystemTime::now().duration_since(std::time::UNIX_EPOCH).ok().map(|d| (d.as_secs(), d.subsec_nanos()))
}

/// The moment it is, by `std::time::Instant::now`. Nothing is claimed of it.
#[verifier::external_body]
pub(crate) fn moment() -> std::time::Instant {
    std::time::Instant::now()
}

/// The whole milliseconds since a moment, by `std::time::Instant::elapsed`.
/// Nothing is claimed of how many there are.
#[verifier::external_body]
pub(crate) fn elapsed_ms(since: &std::time::Instant) -> u64 {
    since.elapsed().as_millis() as u64
}

/// Whole milliseconds since the Unix epoch, zero for a clock before it. What
/// does not fit 64 bits wraps.
pub fn millis_of(time: Option<(u64, u32)>) -> (r: i64)
    requires
        time matches Some(t) ==> t.1 < 1_000_000_000,
    ensures
        time is None ==> r == 0,
        time matches Some(t) ==> r == (t.0 * 1000 + t.1 as int / 1_000_000) as i64,
{
    match time {
        Some((secs, nanos)) => (secs as i128 * 1000 + (nanos / 1_000_000) as i128) as i64,
        None => 0,
    }
}

/// Whether a time is one that some reading of the clock comes to.
pub open spec fn is_clock_reading(ms: i64) -> bool {
    ms == 0 || exists|secs: u64, nanos: u32|
        nanos < 1_000_000_000 && ms == #[trigger] ((secs * 1000 + nanos as int / 1_000_000) as i64)
}

/// The time in whole milliseconds since the Unix epoch.
pub fn now_ms() -> (r: i64)
    ensures
        is_clock_reading(r),
{
    millis_of(unix_time())
}

} // verus!
