//! Durations as whole numbers of nanoseconds, and the wall clock.
use crate::clock;
use std::time::{Duration, UNIX_EPOCH};
use vstd::prelude::*;

verus! {

/// Nanoseconds in one millisecond.
pub const NANOS_PER_MILLI: u128 = 1_000_000;

/// How many nanoseconds a duration spans.
pub uninterp spec fn nanos(d: Duration) -> nat;

/// The longest duration: `u64::MAX` seconds and 999,999,999 nanoseconds.
pub open spec fn longest_nanos() -> nat {
    (u64::MAX * 1_000_000_000 + 999_999_999) as nat
}

/// A number of milliseconds in nanoseconds.
pub open spec fn millis(ms: nat) -> nat {
    ms * 1_000_000
}

/// The whole milliseconds of a duration, reduced modulo 2^64.
pub open spec fn whole_millis(d: Duration) -> nat {
    (nanos(d) / 1_000_000) % 0x1_0000_0000_0000_0000
}

/// A time that the clock shows, in milliseconds since the UNIX epoch.
pub open spec fn clock_time(now: u64) -> bool {
    exists|since: Option<Duration>| #[trigger]
        clock::is_reading(since) && now == match since {
            Some(d) => whole_millis(d),
            None => 0,
        }
}

/// `Duration::as_nanos` returns the total number of nanoseconds of the duration, which is at most
/// that of the longest one.
pub assume_specification[ Duration::as_nanos ](d: &Duration) -> (r: u128)
    ensures
        r == nanos(*d),
        r <= longest_nanos(),
;

/// `Duration::from_millis` makes the duration of the given number of milliseconds.
pub assume_specification[ Duration::from_millis ](ms: u64) -> (r: Duration)
    ensures
        nanos(r) == ms * 1_000_000,
;

/// `Duration::from_secs` makes the duration of the given number of seconds.
pub assume_specification[ Duration::from_secs ](secs: u64) -> (r: Duration)
    ensures
        nanos(r) == secs * 1_000_000_000,
;

/// `Duration::saturating_mul` multiplies, and stops at the longest duration.
pub assume_specification[ Duration::saturating_mul ](d: Duration, rhs: u32) -> (r: Duration)
    ensures
        nanos(r) == if nanos(d) * rhs <= longest_nanos() {
            nanos(d) * rhs
        } else {
            longest_nanos() as int
        },
;

/// `Duration::saturating_sub` subtracts, and stops at zero.
pub assume_specification[ Duration::saturating_sub ](d: Duration, rhs: Duration) -> (r: Duration)
    ensures
        nanos(r) == if nanos(d) >= nanos(rhs) {
            nanos(d) - nanos(rhs)
        } else {
            0
        },
;

/// `SystemTime::elapsed`, asked of the UNIX epoch: how long ago the epoch was by the system
/// clock, or nothing when the clock stands before it. The clock decides, so nothing is claimed
/// of the result but that it is a reading: a duration, if it is one, is no longer than the
/// longest.
#[verifier::external_body]
fn since_epoch() -> (r: Option<Duration>)
    ensures
        clock::is_reading(r),
{
    UNIX_EPOCH.elapsed().ok()
}

/// Milliseconds of a duration as a 64-bit number.
pub(crate) fn to_millis(d: &Duration) -> (r: u64)
    ensures
        r == whole_millis(*d),
{
    let ms: u128 = d.as_nanos() / NANOS_PER_MILLI;
    assert(ms as u64 == ms % 0x1_0000_0000_0000_0000) by (bit_vector);
    #[verifier::truncate]
    let r: u64 = ms as u64;
    r
}

/// The time that a clock shows, in milliseconds since the UNIX epoch, when the epoch was that long
/// ago by it; zero when the clock stands before the epoch.
pub fn epoch_millis(since: Option<Duration>) -> (now: u64)
    ensures
        now == match since {
            Some(d) => whole_millis(d),
            None => 0,
        },
{
    match since {
        Some(d) => to_millis(&d),
        None => 0,
    }
}

/// Milliseconds since the UNIX epoch by the system clock; zero when the clock stands before it.
/// The clock decides, so the result may be any time; [`epoch_millis`] says which one for each
/// reading.
pub(crate) fn now_millis() -> (now: u64)
    ensures
        clock_time(now),
{
    epoch_millis(since_epoch())
}

/// Times of the clock are its readings in whole milliseconds, modulo 2^64, and zero where it
/// stands before the epoch.
pub proof fn law_clock_times_are_readings(now: u64)
    ensures
        clock_time(now) ==> exists|since: Option<Duration>| #[trigger]
            clock::is_reading(since) && match since {
                Some(d) => now == (nanos(d) / 1_000_000) % 0x1_0000_0000_0000_0000,
                None => now == 0,
            },
{
}

/// Whole milliseconds are rounded down, and run over at 2^64.
pub proof fn law_whole_millis_round_down(d: Duration)
    ensures
        whole_millis(d) < 0x1_0000_0000_0000_0000,
        nanos(d) < 0x1_0000_0000_0000_0000 * 1_000_000 ==> whole_millis(d) * 1_000_000 <= nanos(d)
            < (whole_millis(d) + 1) * 1_000_000,
        exists|k: nat|
            #![trigger k * 0x1_0000_0000_0000_0000]
            (whole_millis(d) + k * 0x1_0000_0000_0000_0000) * 1_000_000 <= nanos(d) < (whole_millis(
                d,
            ) + k * 0x1_0000_0000_0000_0000 + 1) * 1_000_000,
{
    let ms = nanos(d) / 1_000_000;
    let k = ms / 0x1_0000_0000_0000_0000;
    assert(whole_millis(d) + k * 0x1_0000_0000_0000_0000 == ms);
}

/// Milliseconds have a million nanoseconds, and the longest duration is the one of the most
/// seconds and nanoseconds that fit.
pub proof fn law_units(ms: nat)
    ensures
        millis(ms) == 1_000_000 * ms,
        longest_nanos() == 18_446_744_073_709_551_615 * 1_000_000_000 + 999_999_999,
{
}

/// Whether the first duration is shorter than the second. Neither is longer than the longest.
pub(crate) fn shorter(a: &Duration, b: &Duration) -> (r: bool)
    ensures
        r == (nanos(*a) < nanos(*b)),
        nanos(*a) <= longest_nanos(),
        nanos(*b) <= longest_nanos(),
{
    a.as_nanos() < b.as_nanos()
}

/// Whether the duration is zero.
pub(crate) fn is_zero(d: &Duration) -> (r: bool)
    ensures
        r == (nanos(*d) == 0),
{
    d.as_nanos() == 0
}

} // verus!
