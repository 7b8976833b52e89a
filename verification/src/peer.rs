//! The statistics that the clock filter hands on for one source.

use crate::time_types::{truncated_quotient, NtpDuration};
use vstd::prelude::*;

verus! {

/// The frequency tolerance of a clock in parts per million: how far a clock
/// may drift, at most, in a million units of time.
pub const FREQUENCY_TOLERANCE_PPM: i64 = 15;

/// The drift that a clock may have gathered over `units` of time, rounded
/// toward zero.
pub open spec fn phi_units(units: int) -> int {
    truncated_quotient(units * FREQUENCY_TOLERANCE_PPM as int, 1_000_000)
}

/// The drift that a clock may have gathered over `duration`.
pub fn multiply_by_phi(duration: NtpDuration) -> (r: NtpDuration)
    ensures
        r@ == phi_units(duration@),
{
    let scaled: i128 = duration.to_fixed_int() as i128 * 15;
    let drift: i128 = scaled / 1_000_000;
    assert(scaled == duration@ * 15);
    assert(drift == truncated_quotient(scaled as int, 1_000_000));
    assert(i64::MIN <= drift <= i64::MAX);
    NtpDuration::from_fixed_int(drift as i64)
}

/// What the clock filter knows of a source after a measurement.
#[derive(Clone, Copy, Debug, PartialEq, Eq, Structural)]
pub struct PeerStatistics {
    /// The offset of the sample with the smallest delay.
    pub offset: NtpDuration,
    /// The smallest delay among the remembered samples.
    pub delay: NtpDuration,
    /// The weighted sum of the dispersions of the remembered samples.
    pub dispersion: NtpDuration,
    /// The spread of the remembered offsets around the chosen one.
    pub jitter: NtpDuration,
}

} // verus!
