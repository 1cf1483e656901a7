//! A monotonic timer for timing single book operations.
use std::time::Instant;
use vstd::prelude::*;

verus! {

#[verifier::external_type_specification]
#[verifier::external_body]
pub struct ExInstant(Instant);

/// The moment a timed operation started.
pub struct TimerStart(pub Instant);

/// Prepares the timer. The monotonic clock needs no calibration.
pub fn calibrate() {
}

/// Reads the clock: `std::time::Instant::now`. Nothing is claimed of the
/// reading.
#[verifier::external_body]
pub fn start() -> TimerStart {
    TimerStart(Instant::now())
}

/// Nanoseconds since `s`, from `std::time::Instant::elapsed`, truncated to
/// 64 bits. Nothing is claimed of the reading.
#[verifier::external_body]
pub fn elapsed_ns(s: TimerStart) -> u64 {
    s.0.elapsed().as_nanos() as u64
}

/// Hands `x` to `std::hint::black_box`, which returns its argument and
/// keeps the compiler from optimising the access away; the value is left
/// as it was.
#[verifier::external_body]
pub fn keep_opaque(x: &mut u64)
    ensures
        *final(x) == *old(x),
{
    std::hint::black_box(x);
}

} // verus!
