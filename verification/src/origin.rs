//! Where the values come from that no call can work out: the random numbers and the clock.
//!
//! Any number may be drawn and any instant may be read, so the predicates below exclude little.
//! What they mean stays in this module. Elsewhere a value is known to be drawn or read only where
//! the draw or the read that gave it says so, and a value that was made up is not known to be.

use std::time::Duration;
use vstd::prelude::*;

verus! {

/// A conversation id that the random source drew.
pub closed spec fn drawn_conv(conv: u32) -> bool {
    conv >= 1
}

/// An incarnation number that the random source drew.
pub closed spec fn drawn_incarnation(incarnation: u64) -> bool {
    true
}

/// A time since the epoch that was read from the wall clock, `None` for a clock before it.
pub closed spec fn clock_read(elapsed: Option<Duration>) -> bool {
    true
}

} // verus!
