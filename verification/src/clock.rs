//! Readings of the system clock.
use crate::duration;
use std::time::Duration;
use vstd::prelude::*;

verus! {

/// A reading of the system clock: how long ago the UNIX epoch was, or nothing when the clock
/// stands before it. That long is a duration like any other.
///
/// The definition stays inside this module, so that elsewhere a value is known to be a reading
/// only if it came from the clock.
pub closed spec fn is_reading(since: Option<Duration>) -> bool {
    since matches Some(d) ==> duration::nanos(d) <= duration::longest_nanos()
}

} // verus!
