//! The seconds by which instances are found to be idle.
use std::time::{Duration, Instant};

use vstd::prelude::*;

verus! {

/// A point in time. The library carries it along.
#[verifier::external_type_specification]
#[verifier::external_body]
pub struct ExInstant(std::time::Instant);

/// `std::time::Instant::elapsed`. It depends on the clock, so nothing is claimed
/// of it.
pub assume_specification[ std::time::Instant::elapsed ](
    start: &std::time::Instant,
) -> (elapsed: std::time::Duration)
;

/// `std::time::Duration::as_secs`, the whole seconds of a duration. A duration
/// comes of the clock here, so nothing is claimed of them.
pub assume_specification[ std::time::Duration::as_secs ](
    duration: &std::time::Duration,
) -> (seconds: u64)
;

/// The number of seconds with a sign; numbers too large for that start over
/// from the smallest one.
pub open spec fn signed_seconds(seconds: u64) -> int {
    if seconds <= i64::MAX {
        seconds as int
    } else {
        seconds - u64::MAX - 1
    }
}

/// Gives a number of seconds a sign.
pub fn to_signed(seconds: u64) -> (signed: i64)
    ensures
        signed == signed_seconds(seconds),
{
    let signed: i64 = seconds as i64;
    assert(seconds <= 0x7fff_ffff_ffff_ffff ==> seconds as i64 == seconds) by (bit_vector);
    assert(seconds > 0x7fff_ffff_ffff_ffff ==> seconds as i64 == seconds
        - 0x1_0000_0000_0000_0000) by (bit_vector);
    signed
}

/// What a function returns for an argument.
fn apply<A, R, F: Fn(&A) -> R>(f: F, argument: &A) -> (result: R)
    requires
        call_requires(f, (argument,)),
    ensures
        call_ensures(f, (argument,), result),
{
    f(argument)
}

/// The clock, asked how long ago `start` was, can answer with so many whole
/// seconds.
pub open spec fn clock_says(start: Instant, read: u64) -> bool {
    exists|elapsed: Duration| call_ensures(Instant::elapsed, (&start,), elapsed)
        && #[trigger] call_ensures(Duration::as_secs, (&elapsed,), read)
}

/// The seconds that have passed since a point in time: what the clock says of
/// it, with a sign.
pub fn elapsed_seconds(start: &Instant) -> (seconds: i64)
    ensures
        exists|read: u64| #[trigger]
            clock_says(*start, read) && seconds == signed_seconds(read),
{
    let elapsed = apply(Instant::elapsed, start);
    let read: u64 = apply(Duration::as_secs, &elapsed);
    assert(clock_says(*start, read));
    to_signed(read)
}

/// Seconds that are read one after the other off a clock that does not step
/// back count from 0, are not negative and never fall, as long as they fit.
pub proof fn elapsed_seconds_never_fall(a: u64, b: u64)
    requires
        a <= b <= i64::MAX,
    ensures
        signed_seconds(0) == 0,
        0 <= signed_seconds(a) <= signed_seconds(b),
        signed_seconds(b) - signed_seconds(a) == b - a,
{
}

/// What the clock can say of a point in time is the whole seconds of a duration
/// that it measures from there.
pub proof fn clock_measures_from_the_start(start: Instant, read: u64)
    ensures
        clock_says(start, read) <==> exists|elapsed: Duration|
            call_ensures(Instant::elapsed, (&start,), elapsed) && #[trigger] call_ensures(
                Duration::as_secs,
                (&elapsed,),
                read,
            ),
{
}

/// A number of seconds keeps its value as long as it fits; beyond that it is
/// smaller by all the numbers that there are.
pub proof fn seconds_keep_their_value(seconds: u64)
    ensures
        seconds <= i64::MAX ==> signed_seconds(seconds) == seconds,
        seconds > i64::MAX ==> signed_seconds(seconds) + 0x1_0000_0000_0000_0000 == seconds,
{
}

} // verus!
