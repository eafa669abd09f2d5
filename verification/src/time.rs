//! Durations and the wall clock.

use crate::origin::clock_read;
use std::time::Duration;
use vstd::prelude::*;

verus! {

/// Nanoseconds in a millisecond.
pub const NANOS_PER_MILLI: u128 = 1_000_000;

/// Millisecond counts are kept modulo this value.
pub const MILLIS_RANGE: u128 = 0x1_0000_0000_0000_0000;

/// The low half of a millisecond count is kept modulo this value.
pub const MILLIS_LOW_RANGE: u64 = 0x1_0000_0000;

/// The length of a duration in nanoseconds, as `Duration::as_nanos` reports it.
pub uninterp spec fn duration_nanos(d: Duration) -> u128;

/// `Duration::as_nanos`: the total number of nanoseconds.
pub assume_specification[ std::time::Duration::as_nanos ](d: &Duration) -> (nanos: u128)
    ensures
        nanos == duration_nanos(*d),
;

/// `Duration::from_millis`: a duration of that many milliseconds.
pub assume_specification[ std::time::Duration::from_millis ](millis: u64) -> (d: Duration)
    ensures
        duration_nanos(d) == millis * 1_000_000,
;

/// `Duration::from_secs`: a duration of that many seconds.
pub assume_specification[ std::time::Duration::from_secs ](secs: u64) -> (d: Duration)
    ensures
        duration_nanos(d) == secs * 1_000_000_000,
;

/// `SystemTime::elapsed` on `UNIX_EPOCH`: the time since the epoch, `None` where the clock
/// stands before it. The value is the machine's, and nothing is claimed of it but that it was
/// read.
#[verifier::external_body]
fn since_epoch() -> (elapsed: Option<Duration>)
    ensures
        clock_read(elapsed),
{
    std::time::UNIX_EPOCH.elapsed().ok()
}

/// The whole milliseconds in the time since the epoch, modulo 2^64; zero where there is none.
pub open spec fn epoch_millis(elapsed: Option<Duration>) -> u64 {
    match elapsed {
        Some(d) => (duration_nanos(d) / NANOS_PER_MILLI % MILLIS_RANGE) as u64,
        None => 0,
    }
}

/// The whole milliseconds in the time since the epoch; zero for a clock before the epoch.
pub fn epoch_ms_of(elapsed: Option<Duration>) -> (millis: u64)
    ensures
        millis == epoch_millis(elapsed),
{
    match elapsed {
        Some(d) => (d.as_nanos() / NANOS_PER_MILLI % MILLIS_RANGE) as u64,
        None => 0,
    }
}

/// An instant, in milliseconds since the epoch, that the wall clock showed.
pub open spec fn clock_reading(millis: u64) -> bool {
    exists|elapsed: Option<Duration>|
        clock_read(elapsed) && millis == #[trigger] epoch_millis(elapsed)
}

/// Milliseconds since the Unix epoch.
pub fn epoch_ms() -> (millis: u64)
    ensures
        clock_reading(millis),
        exists|elapsed: Option<Duration>| millis == #[trigger] epoch_millis(elapsed),
{
    let elapsed = since_epoch();
    epoch_ms_of(elapsed)
}

/// The low 32 bits of a millisecond count: the clock that KCP runs on.
pub open spec fn low_millis(millis: u64) -> u32 {
    (millis % MILLIS_LOW_RANGE) as u32
}

/// The low 32 bits of a millisecond count.
pub fn kcp_clock(millis: u64) -> (low: u32)
    ensures
        low == low_millis(millis),
{
    (millis % MILLIS_LOW_RANGE) as u32
}

/// The wall clock in the 32-bit milliseconds that KCP runs on.
pub fn current_ms() -> (low: u32)
    ensures
        exists|millis: u64| clock_reading(millis) && low == #[trigger] low_millis(millis),
        exists|elapsed: Option<Duration>| low == low_millis(#[trigger] epoch_millis(elapsed)),
{
    kcp_clock(epoch_ms())
}

/// The milliseconds of a time since the epoch are the whole ones in it: no fewer and no more. A
/// clock before the epoch stands at zero.
pub proof fn law_epoch_millis(d: Duration)
    requires
        duration_nanos(d) < 0x1_0000_0000_0000_0000 * 1_000_000,
    ensures
        epoch_millis(Some(d)) * 1_000_000 <= duration_nanos(d) < (epoch_millis(Some(d)) + 1)
            * 1_000_000,
        epoch_millis(None) == 0,
{
}

/// An instant of the clock is the time since the epoch as it was read.
pub proof fn law_instants_are_read(millis: u64)
    requires
        clock_reading(millis),
    ensures
        clock_read(None) && millis == 0 || exists|d: Duration|
            #[trigger] clock_read(Some(d)) && (duration_nanos(d) < 0x1_0000_0000_0000_0000
                * 1_000_000 ==> millis * 1_000_000 <= duration_nanos(d) < (millis + 1) * 1_000_000),
{
    let elapsed = choose|elapsed: Option<Duration>|
        clock_read(elapsed) && millis == #[trigger] epoch_millis(elapsed);
    if let Some(d) = elapsed {
        assert(clock_read(Some(d)));
    }
}

/// The clock of KCP is the millisecond count less a multiple of 2^32.
pub proof fn law_kcp_clock(millis: u64)
    ensures
        low_millis(millis) <= millis,
        (millis - low_millis(millis)) % 0x1_0000_0000 == 0,
{
}

} // verus!
