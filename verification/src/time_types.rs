//! Fixed-point durations and timestamps in units of 2^-32 seconds.

use vstd::arithmetic::power2::{
    lemma2_to64, lemma2_to64_rest, lemma_pow2_strictly_increases, lemma_pow2_unfold, pow2,
};
use vstd::prelude::*;
use vstd::std_specs::ops::AddSpecImpl;
use vstd::std_specs::ops::DivSpecImpl;
use vstd::std_specs::ops::SubSpecImpl;

verus! {

/// The number of units in one second.
pub const UNITS_PER_SECOND: i64 = 0x1_0000_0000;

/// The number of units in sixteen seconds, the largest dispersion.
pub const MAX_DISPERSION_UNITS: i64 = 0x10_0000_0000;

/// The value nearest to `v` that an `i64` can hold.
pub open spec fn saturate(v: int) -> int {
    if v < i64::MIN {
        i64::MIN as int
    } else if v > i64::MAX {
        i64::MAX as int
    } else {
        v
    }
}

/// The quotient of `a` by `b`, rounded toward zero.
pub open spec fn truncated_quotient(a: int, b: int) -> int {
    if a >= 0 {
        a / b
    } else {
        -((-a) / b)
    }
}

/// The signed distance from `b` to `a` on the circle of 64-bit values: the
/// representative of `a - b` modulo 2^64 that lies in `[-2^63, 2^63)`.
pub open spec fn wrapped_difference(a: int, b: int) -> int {
    let forward = if a >= b {
        a - b
    } else {
        a - b + 0x1_0000_0000_0000_0000
    };
    if forward >= 0x8000_0000_0000_0000 {
        forward - 0x1_0000_0000_0000_0000
    } else {
        forward
    }
}

/// The 64-bit value reached from `a` by moving `d` steps around the circle.
pub open spec fn wrapped_sum(a: int, d: int) -> int {
    if a + d < 0 {
        a + d + 0x1_0000_0000_0000_0000
    } else if a + d >= 0x1_0000_0000_0000_0000 {
        a + d - 0x1_0000_0000_0000_0000
    } else {
        a + d
    }
}

/// The number of units in 2^`exponent` seconds, limited to what a duration
/// can hold: exponents above 30 give the largest duration and exponents
/// below -32 give zero.
pub open spec fn exponent_units(exponent: int) -> int {
    if exponent > 30 {
        i64::MAX as int
    } else if exponent >= -32 {
        pow2((32 + exponent) as nat) as int
    } else {
        0
    }
}

/// The units of an instant that lies `seconds` whole seconds and `nanos`
/// nanoseconds after the start of the era.
pub open spec fn era_units(seconds: int, nanos: int) -> int {
    seconds * 0x1_0000_0000 + (nanos * 0x1_0000_0000) / 1_000_000_000
}

/// The value of eight bytes read as one big-endian number.
pub open spec fn big_endian_value(bytes: Seq<u8>) -> int {
    bytes[0] * 0x100_0000_0000_0000 + bytes[1] * 0x1_0000_0000_0000 + bytes[2] * 0x100_0000_0000
        + bytes[3] * 0x1_0000_0000 + bytes[4] * 0x100_0000 + bytes[5] * 0x1_0000 + bytes[6] * 0x100
        + bytes[7]
}

/// Two to the power `exponent`.
pub fn power_of_two(exponent: u32) -> (r: u64)
    requires
        exponent <= 63,
    ensures
        r == pow2(exponent as nat),
{
    let mut power: u64 = 1;
    let mut done: u32 = 0;
    proof {
        lemma2_to64();
    }
    while done < exponent
        invariant
            done <= exponent <= 63,
            power == pow2(done as nat),
        decreases exponent - done,
    {
        proof {
            lemma_pow2_unfold((done + 1) as nat);
            if done + 1 < 63 {
                lemma_pow2_strictly_increases((done + 1) as nat, 63);
            }
            lemma2_to64_rest();
        }
        power = power * 2;
        done = done + 1;
    }
    power
}

/// A signed span of time, counted in units of 2^-32 seconds.
///
/// Sums and differences of durations saturate at the ends of the range, so
/// that two large spans never cancel by wrapping around.
#[derive(Clone, Copy, Debug, PartialEq, Eq, Ord, Hash, Structural)]
pub struct NtpDuration {
    pub duration: i64,
}

impl View for NtpDuration {
    type V = int;

    open spec fn view(&self) -> int {
        self.duration as int
    }
}

impl NtpDuration {
    /// No time at all.
    pub fn zero() -> (r: Self)
        ensures
            r@ == 0,
    {
        NtpDuration { duration: 0 }
    }

    /// One second.
    pub fn one() -> (r: Self)
        ensures
            r@ == UNITS_PER_SECOND,
    {
        NtpDuration { duration: UNITS_PER_SECOND }
    }

    /// Sixteen seconds: the dispersion of a measurement that was never made.
    pub fn max_dispersion() -> (r: Self)
        ensures
            r@ == MAX_DISPERSION_UNITS,
    {
        NtpDuration { duration: MAX_DISPERSION_UNITS }
    }

    /// The span whose count of units is `v`.
    pub open spec fn of(v: int) -> NtpDuration {
        NtpDuration { duration: v as i64 }
    }

    pub fn from_fixed_int(duration: i64) -> (r: Self)
        ensures
            r@ == duration,
    {
        NtpDuration { duration }
    }

    pub fn to_fixed_int(self) -> (r: i64)
        ensures
            r == self@,
    {
        self.duration
    }

    /// The span of 2^`input` seconds, see [`exponent_units`].
    pub fn from_exponent(input: i8) -> (r: Self)
        ensures
            r@ == exponent_units(input as int),
    {
        if input > 30 {
            NtpDuration { duration: i64::MAX }
        } else if input >= -32 {
            let units = power_of_two((input + 32) as u32);
            proof {
                if input + 32 < 62 {
                    lemma_pow2_strictly_increases((input + 32) as nat, 62);
                }
                lemma2_to64_rest();
            }
            NtpDuration { duration: units as i64 }
        } else {
            NtpDuration { duration: 0 }
        }
    }

    /// The larger of two spans.
    pub fn max(self, other: Self) -> (r: Self)
        ensures
            r@ == if self@ >= other@ { self@ } else { other@ },
            r == self || r == other,
    {
        if self >= other {
            self
        } else {
            other
        }
    }

    pub fn is_positive(self) -> (r: bool)
        ensures
            r == (self@ > 0),
    {
        self.duration > 0
    }
}

impl Default for NtpDuration {
    fn default() -> (r: Self)
        ensures
            r@ == 0,
    {
        NtpDuration { duration: 0 }
    }
}

impl core::ops::Add for NtpDuration {
    type Output = NtpDuration;

    fn add(self, rhs: NtpDuration) -> (r: NtpDuration) {
        match self.duration.checked_add(rhs.duration) {
            Some(sum) => NtpDuration { duration: sum },
            None => if rhs.duration < 0 {
                NtpDuration { duration: i64::MIN }
            } else {
                NtpDuration { duration: i64::MAX }
            },
        }
    }
}

impl AddSpecImpl for NtpDuration {
    open spec fn obeys_add_spec() -> bool {
        true
    }

    open spec fn add_req(self, rhs: NtpDuration) -> bool {
        true
    }

    open spec fn add_spec(self, rhs: NtpDuration) -> NtpDuration {
        NtpDuration::of(saturate(self@ + rhs@))
    }
}

impl core::ops::Sub for NtpDuration {
    type Output = NtpDuration;

    fn sub(self, rhs: NtpDuration) -> (r: NtpDuration) {
        match self.duration.checked_sub(rhs.duration) {
            Some(difference) => NtpDuration { duration: difference },
            None => if rhs.duration > 0 {
                NtpDuration { duration: i64::MIN }
            } else {
                NtpDuration { duration: i64::MAX }
            },
        }
    }
}

impl SubSpecImpl for NtpDuration {
    open spec fn obeys_sub_spec() -> bool {
        true
    }

    open spec fn sub_req(self, rhs: NtpDuration) -> bool {
        true
    }

    open spec fn sub_spec(self, rhs: NtpDuration) -> NtpDuration {
        NtpDuration::of(saturate(self@ - rhs@))
    }
}

impl core::ops::Div<i64> for NtpDuration {
    type Output = NtpDuration;

    fn div(self, rhs: i64) -> (r: NtpDuration) {
        NtpDuration { duration: self.duration / rhs }
    }
}

impl DivSpecImpl<i64> for NtpDuration {
    open spec fn obeys_div_spec() -> bool {
        true
    }

    open spec fn div_req(self, rhs: i64) -> bool {
        rhs != 0 && !(self@ == i64::MIN && rhs == -1)
    }

    open spec fn div_spec(self, rhs: i64) -> NtpDuration {
        NtpDuration::of(truncated_quotient(self@, rhs as int))
    }
}

/// An instant, counted in units of 2^-32 seconds since the start of an era
/// of 2^32 seconds. Arithmetic wraps around at the end of the era.
#[derive(Clone, Copy, Debug, PartialEq, Eq, PartialOrd, Ord, Hash, Structural)]
pub struct NtpTimestamp {
    pub timestamp: u64,
}

impl View for NtpTimestamp {
    type V = int;

    open spec fn view(&self) -> int {
        self.timestamp as int
    }
}

impl NtpTimestamp {
    /// The start of the era.
    pub fn zero() -> (r: Self)
        ensures
            r@ == 0,
    {
        NtpTimestamp { timestamp: 0 }
    }

    /// The instant whose count of units is `v`.
    pub open spec fn of(v: int) -> NtpTimestamp {
        NtpTimestamp { timestamp: v as u64 }
    }

    pub fn from_fixed_int(timestamp: u64) -> (r: Self)
        ensures
            r@ == timestamp,
    {
        NtpTimestamp { timestamp }
    }

    pub fn to_fixed_int(self) -> (r: u64)
        ensures
            r == self@,
    {
        self.timestamp
    }

    /// Reads the eight bytes of a timestamp as they stand in a packet, most
    /// significant byte first.
    pub fn from_bits(bits: [u8; 8]) -> (r: Self)
        ensures
            r@ == big_endian_value(bits@),
    {
        let value: u64 = bits[0] as u64 * 0x100_0000_0000_0000 + bits[1] as u64
            * 0x1_0000_0000_0000 + bits[2] as u64 * 0x100_0000_0000 + bits[3] as u64 * 0x1_0000_0000
            + bits[4] as u64 * 0x100_0000 + bits[5] as u64 * 0x1_0000 + bits[6] as u64 * 0x100
            + bits[7] as u64;
        NtpTimestamp { timestamp: value }
    }

    /// The instant `seconds` whole seconds and `nanos` nanoseconds into the
    /// era, the fraction rounded down to the unit.
    pub fn from_seconds_nanos_since_ntp_era(seconds: u32, nanos: u32) -> (r: Self)
        requires
            nanos < 1_000_000_000,
        ensures
            r@ == era_units(seconds as int, nanos as int),
    {
        let fraction: u64 = (nanos as u64 * 0x1_0000_0000) / 1_000_000_000;
        NtpTimestamp { timestamp: seconds as u64 * 0x1_0000_0000 + fraction }
    }

    /// Whether `self` lies after `earlier`, taking the shorter way around
    /// the era: the signed distance from `earlier` to `self` is positive.
    pub open spec fn is_after(self, earlier: NtpTimestamp) -> bool {
        wrapped_difference(self@, earlier@) > 0
    }
}

impl Default for NtpTimestamp {
    fn default() -> (r: Self)
        ensures
            r@ == 0,
    {
        NtpTimestamp { timestamp: 0 }
    }
}

impl core::ops::Sub for NtpTimestamp {
    type Output = NtpDuration;

    fn sub(self, rhs: NtpTimestamp) -> (r: NtpDuration) {
        let forward: u64 = self.timestamp.wrapping_sub(rhs.timestamp);
        if forward >= 0x8000_0000_0000_0000 {
            NtpDuration { duration: (forward - 0x8000_0000_0000_0000) as i64 + i64::MIN }
        } else {
            NtpDuration { duration: forward as i64 }
        }
    }
}

impl SubSpecImpl for NtpTimestamp {
    open spec fn obeys_sub_spec() -> bool {
        true
    }

    open spec fn sub_req(self, rhs: NtpTimestamp) -> bool {
        true
    }

    open spec fn sub_spec(self, rhs: NtpTimestamp) -> NtpDuration {
        NtpDuration::of(wrapped_difference(self@, rhs@))
    }
}

impl core::ops::Add<NtpDuration> for NtpTimestamp {
    type Output = NtpTimestamp;

    fn add(self, rhs: NtpDuration) -> (r: NtpTimestamp) {
        if rhs.duration >= 0 {
            NtpTimestamp { timestamp: self.timestamp.wrapping_add(rhs.duration as u64) }
        } else {
            let back: u64 = (-(rhs.duration + 1)) as u64 + 1;
            NtpTimestamp { timestamp: self.timestamp.wrapping_sub(back) }
        }
    }
}

impl AddSpecImpl<NtpDuration> for NtpTimestamp {
    open spec fn obeys_add_spec() -> bool {
        true
    }

    open spec fn add_req(self, rhs: NtpDuration) -> bool {
        true
    }

    open spec fn add_spec(self, rhs: NtpDuration) -> NtpTimestamp {
        NtpTimestamp::of(wrapped_sum(self@, rhs@))
    }
}

/// The distance between two instants and the instant reached by going that
/// distance from the earlier one agree: subtraction undoes addition.
pub proof fn lemma_difference_undoes_sum(start: NtpTimestamp, span: NtpDuration)
    ensures
        wrapped_difference(wrapped_sum(start@, span@), start@) == span@,
{
}

} // verus!
