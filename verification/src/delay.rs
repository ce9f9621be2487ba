//! Timer delays in whole milliseconds.
use std::time::Duration;
use vstd::prelude::*;

verus! {

/// The whole seconds of a duration, as [`Duration::as_secs`] gives them.
pub uninterp spec fn whole_secs(delay: Duration) -> u64;

/// The nanoseconds of a duration beyond its whole seconds, as [`Duration::subsec_nanos`] gives
/// them.
pub uninterp spec fn extra_nanos(delay: Duration) -> u32;

/// [`Duration::as_secs`] reads the whole seconds of the duration.
pub assume_specification[ Duration::as_secs ](delay: &Duration) -> (secs: u64)
    ensures
        secs == whole_secs(*delay),
;

/// [`Duration::subsec_nanos`] reads the part below a second, which is less than a billion
/// nanoseconds.
pub assume_specification[ Duration::subsec_nanos ](delay: &Duration) -> (nanos: u32)
    ensures
        nanos == extra_nanos(*delay),
        nanos < 1_000_000_000,
;

/// The whole milliseconds in `secs` seconds and `nanos` nanoseconds.
pub open spec fn millis(secs: u64, nanos: u32) -> int {
    secs * 1000 + nanos as int / 1_000_000
}

/// The whole milliseconds in a duration.
pub open spec fn delay_millis(delay: Duration) -> int {
    millis(whole_secs(delay), extra_nanos(delay))
}

/// The timer period for `secs` seconds and `nanos` nanoseconds: the whole milliseconds, cut to
/// the width of a record's data field.
pub open spec fn period_of(secs: u64, nanos: u32) -> isize {
    (millis(secs, nanos) as u64) as isize
}

/// The timer period for a duration.
pub open spec fn delay_period(delay: Duration) -> isize {
    period_of(whole_secs(delay), extra_nanos(delay))
}

/// The number of milliseconds after which a timer fires.
pub fn period(secs: u64, nanos: u32) -> (period: isize)
    requires
        millis(secs, nanos) <= u64::MAX,
    ensures
        period == period_of(secs, nanos),
        millis(secs, nanos) <= isize::MAX ==> period == millis(secs, nanos),
{
    let total: u64 = secs * 1000 + (nanos / 1_000_000u32) as u64;
    #[verifier::truncate]
    let cut: isize = total as isize;
    cut
}

/// Whether the milliseconds of `secs` seconds and `nanos` nanoseconds can be counted.
pub fn millis_fit(secs: u64, nanos: u32) -> (fit: bool)
    ensures
        fit == (millis(secs, nanos) <= u64::MAX),
{
    let below: u64 = (nanos / 1_000_000u32) as u64;
    secs <= (u64::MAX - below) / 1000
}

/// Whether the milliseconds of a duration can be counted.
pub fn delay_fits(delay: &Duration) -> (fits: bool)
    ensures
        fits == (delay_millis(*delay) <= u64::MAX),
{
    millis_fit(delay.as_secs(), delay.subsec_nanos())
}

/// The whole milliseconds are as many as fit into the time, and one more would not fit: a million
/// nanoseconds each, where a second has a billion.
pub proof fn law_millis_are_whole_milliseconds(secs: u64, nanos: u32)
    ensures
        millis(secs, nanos) * 1_000_000 <= secs * 1_000_000_000 + nanos,
        secs * 1_000_000_000 + nanos < (millis(secs, nanos) + 1) * 1_000_000,
{
}

/// The whole milliseconds of a duration are those of its seconds and of the nanoseconds beyond
/// them.
pub proof fn law_delay_is_measured_in_whole_milliseconds(delay: Duration)
    ensures
        delay_millis(delay) * 1_000_000 <= whole_secs(delay) * 1_000_000_000 + extra_nanos(delay),
        whole_secs(delay) * 1_000_000_000 + extra_nanos(delay) < (delay_millis(delay) + 1)
            * 1_000_000,
{
}

/// The period of a timer is its delay in whole milliseconds, wherever that fits into the data field
/// of a record. A greater number loses its upper bits.
pub proof fn law_period_is_the_delay(delay: Duration, secs: u64, nanos: u32)
    requires
        secs * 1_000_000_000 + nanos < 0x1_0000_0000_0000_0000 * 1_000_000,
    ensures
        ({
            let period = period_of(secs, nanos) as int;
            let whole = (secs * 1_000_000_000 + nanos) / 1_000_000;
            &&& whole <= isize::MAX ==> period == whole
            &&& usize::BITS == 64 ==> whole - period == 0 || whole - period
                == 0x1_0000_0000_0000_0000
            &&& usize::BITS == 32 ==> (whole - period) % 0x1_0000_0000 == 0
        }),
        whole_secs(delay) == secs && extra_nanos(delay) == nanos ==> delay_period(delay)
            == period_of(secs, nanos),
{
    let total = millis(secs, nanos);
    law_millis_are_whole_milliseconds(secs, nanos);
    let count = total as u64;
    let cut = count as isize;
    assert(usize::BITS == 64 ==> count - cut == 0 || count - cut == 0x1_0000_0000_0000_0000)
        by (bit_vector)
        requires
            cut == count as isize,
    ;
    assert(usize::BITS == 32 ==> (count - cut) % 0x1_0000_0000 == 0) by (bit_vector)
        requires
            cut == count as isize,
    ;
}

} // verus!
