//! Durations as seconds in double precision, the number given by its bits.
//!
//! Such a number is a sign, a significand of up to 53 bits and a power of
//! two. A duration counts units of 2^-32 seconds, so the number of units is
//! again the significand times a power of two. Both ways are worked out
//! here in whole numbers: from seconds exactly and rounded down to the unit,
//! to seconds rounded to the nearest number that double precision has.

use crate::time_types::{power_of_two, saturate, NtpDuration};
use vstd::arithmetic::div_mod::{lemma_fundamental_div_mod, lemma_fundamental_div_mod_converse};
use vstd::arithmetic::power2::{
    lemma2_to64, lemma2_to64_rest, lemma_pow2_adds, lemma_pow2_pos,
    lemma_pow2_strictly_increases, lemma_pow2_unfold, pow2,
};
use vstd::prelude::*;

verus! {

/// The field of eleven bits of a double-precision number that holds its
/// exponent.
pub open spec fn exponent_field(bits: u64) -> int {
    (bits as int / 0x10_0000_0000_0000) % 0x800
}

/// Whether the bits stand for a number: not for an infinity, and not for
/// the outcome of an operation that has none.
pub open spec fn is_finite(bits: u64) -> bool {
    exponent_field(bits) != 0x7FF
}

/// The significand of the number, with its sign: the 52 lowest bits, and
/// before them a one unless the exponent field is zero.
pub open spec fn signed_significand(bits: u64) -> int {
    let fraction = bits as int % 0x10_0000_0000_0000;
    let significand = if exponent_field(bits) == 0 {
        fraction
    } else {
        fraction + 0x10_0000_0000_0000
    };
    if bits >= 0x8000_0000_0000_0000 {
        -significand
    } else {
        significand
    }
}

/// The power of two by which the significand is to be multiplied to give
/// the number.
pub open spec fn binary_exponent(bits: u64) -> int {
    if exponent_field(bits) == 0 {
        -1074
    } else {
        exponent_field(bits) - 1075
    }
}

/// How many units of 2^-32 the number holds, rounded down.
pub open spec fn units_of_seconds(bits: u64) -> int {
    let shift = binary_exponent(bits) + 32;
    if shift >= 0 {
        signed_significand(bits) * pow2(shift as nat)
    } else {
        signed_significand(bits) / (pow2((-shift) as nat) as int)
    }
}

impl NtpDuration {
    /// The duration of as many seconds as the double-precision number with
    /// these bits says, rounded down to the unit and limited to what a
    /// duration can hold, see [`units_of_seconds`]. There is none if the
    /// bits stand for no number.
    pub fn from_seconds_bits(bits: u64) -> (r: Option<NtpDuration>)
        ensures
            is_finite(bits) ==> (r matches Some(duration) && duration@ == saturate(
                units_of_seconds(bits),
            )),
            !is_finite(bits) ==> r is None,
    {
        let negative = bits >= 0x8000_0000_0000_0000;
        let field: u64 = (bits / 0x10_0000_0000_0000) % 0x800;
        let fraction: u64 = bits % 0x10_0000_0000_0000;
        if field == 0x7FF {
            return None;
        }
        let significand: u64 = if field == 0 {
            fraction
        } else {
            fraction + 0x10_0000_0000_0000
        };
        let shift: i64 = if field == 0 {
            -1042
        } else {
            field as i64 - 1043
        };
        assert(shift == binary_exponent(bits) + 32);
        assert(signed_significand(bits) == if negative {
            -(significand as int)
        } else {
            significand as int
        });
        if significand == 0 {
            proof {
                if shift >= 0 {
                    assert(0 * pow2(shift as nat) == 0) by (nonlinear_arith);
                } else {
                    lemma_pow2_pos((-shift) as nat);
                }
            }
            return Some(NtpDuration::zero());
        }
        if shift >= 11 {
            proof {
                lemma2_to64();
                if shift > 11 {
                    lemma_pow2_strictly_increases(11, shift as nat);
                }
                let power = pow2(shift as nat) as int;
                assert(significand * power >= 0x8000_0000_0000_0000) by (nonlinear_arith)
                    requires
                        significand >= 0x10_0000_0000_0000,
                        power >= 0x800,
                ;
                assert((-(significand as int)) * power == -(significand * power))
                    by (nonlinear_arith);
            }
            if negative {
                Some(NtpDuration::from_fixed_int(i64::MIN))
            } else {
                Some(NtpDuration::from_fixed_int(i64::MAX))
            }
        } else if shift >= 0 {
            let power = power_of_two(shift as u32);
            proof {
                lemma2_to64();
                if shift < 10 {
                    lemma_pow2_strictly_increases(shift as nat, 10);
                }
                assert(significand * power < 0x8000_0000_0000_0000) by (nonlinear_arith)
                    requires
                        significand < 0x20_0000_0000_0000,
                        power <= 0x400,
                ;
                assert((-(significand as int)) * (power as int) == -(significand * power))
                    by (nonlinear_arith);
            }
            let magnitude: u64 = significand * power;
            if negative {
                Some(NtpDuration::from_fixed_int(-(magnitude as i64)))
            } else {
                Some(NtpDuration::from_fixed_int(magnitude as i64))
            }
        } else if shift <= -64 {
            proof {
                lemma2_to64_rest();
                if shift < -64 {
                    lemma_pow2_strictly_increases(64, (-shift) as nat);
                }
                let power = pow2((-shift) as nat) as int;
                if negative {
                    lemma_fundamental_div_mod_converse(
                        -(significand as int),
                        power,
                        -1,
                        power - significand,
                    );
                } else {
                    lemma_fundamental_div_mod_converse(
                        significand as int,
                        power,
                        0,
                        significand as int,
                    );
                }
            }
            if negative {
                Some(NtpDuration::from_fixed_int(-1))
            } else {
                Some(NtpDuration::zero())
            }
        } else {
            let power = power_of_two((-shift) as u32);
            proof {
                lemma_pow2_pos((-shift) as nat);
            }
            let quotient: u64 = significand / power;
            let remainder: u64 = significand % power;
            proof {
                lemma_fundamental_div_mod(significand as int, power as int);
                assert(power * quotient == quotient * power) by (nonlinear_arith);
                if negative {
                    if remainder > 0 {
                        assert(-(significand as int) == (-(quotient as int) - 1) * power + (power
                            - remainder)) by (nonlinear_arith)
                            requires
                                significand == quotient * power + remainder,
                        ;
                        lemma_fundamental_div_mod_converse(
                            -(significand as int),
                            power as int,
                            -(quotient as int) - 1,
                            power - remainder,
                        );
                    } else {
                        assert(-(significand as int) == (-(quotient as int)) * power + 0)
                            by (nonlinear_arith)
                            requires
                                significand == quotient * power + remainder,
                                remainder == 0,
                        ;
                        lemma_fundamental_div_mod_converse(
                            -(significand as int),
                            power as int,
                            -(quotient as int),
                            0,
                        );
                    }
                }
                assert(quotient <= significand) by (nonlinear_arith)
                    requires
                        significand == quotient * power + remainder,
                        power >= 1,
                        remainder >= 0,
                        quotient >= 0,
                ;
            }
            if negative {
                if remainder > 0 {
                    Some(NtpDuration::from_fixed_int(-(quotient as i64) - 1))
                } else {
                    Some(NtpDuration::from_fixed_int(-(quotient as i64)))
                }
            } else {
                Some(NtpDuration::from_fixed_int(quotient as i64))
            }
        }
    }
}

/// Whether `2^top` is the largest power of two that is not larger than
/// `magnitude`.
pub open spec fn is_top_bit(top: nat, magnitude: int) -> bool {
    pow2(top) <= magnitude < pow2(top + 1)
}

/// The exponent of the largest power of two that is not larger than
/// `magnitude`. For a `magnitude` below one there is none and the value is
/// arbitrary.
pub open spec fn top_bit(magnitude: int) -> nat {
    choose|top: nat| is_top_bit(top, magnitude)
}

/// A number has at most one top bit, so whatever meets [`is_top_bit`] is
/// [`top_bit`].
pub proof fn lemma_top_bit_unique(top: nat, magnitude: int)
    requires
        is_top_bit(top, magnitude),
    ensures
        top_bit(magnitude) == top,
{
    let chosen = top_bit(magnitude);
    assert(is_top_bit(chosen, magnitude));
    if chosen < top {
        if chosen + 1 < top {
            lemma_pow2_strictly_increases(chosen + 1, top);
        }
    } else if top < chosen {
        if top + 1 < chosen {
            lemma_pow2_strictly_increases(top + 1, chosen);
        }
    }
}

/// The quotient of `magnitude` by `scale`, rounded to the nearest whole
/// number, and to the even one of two that are equally near.
pub open spec fn rounded_to_even(magnitude: int, scale: int) -> int {
    let quotient = magnitude / scale;
    let remainder = magnitude % scale;
    if 2 * remainder > scale || (2 * remainder == scale && quotient % 2 == 1) {
        quotient + 1
    } else {
        quotient
    }
}

/// The significand of 53 bits and the top bit of the double-precision
/// number that is nearest to `magnitude`, a whole number of at least one and
/// at most 2^63: a magnitude of up to 53 bits is held exactly, a longer one
/// is rounded to 53 bits, and where the rounding carries, the top bit moves
/// up.
pub open spec fn nearest_significand(magnitude: int) -> (int, int) {
    let top = top_bit(magnitude) as int;
    if top <= 52 {
        (magnitude * pow2((52 - top) as nat), top)
    } else {
        let rounded = rounded_to_even(magnitude, pow2((top - 52) as nat) as int);
        if rounded == 0x20_0000_0000_0000 {
            (0x10_0000_0000_0000, top + 1)
        } else {
            (rounded, top)
        }
    }
}

/// The bits of the double-precision number that is nearest to `units`
/// units of 2^-32 seconds, taken as seconds.
pub open spec fn seconds_bits(units: int) -> int {
    if units == 0 {
        0
    } else {
        let magnitude = if units < 0 {
            -units
        } else {
            units
        };
        let (significand, top) = nearest_significand(magnitude);
        let unsigned = (top + 991) * 0x10_0000_0000_0000 + (significand - 0x10_0000_0000_0000);
        if units < 0 {
            unsigned + 0x8000_0000_0000_0000
        } else {
            unsigned
        }
    }
}

/// The significand of the nearest number has 53 bits, and its top bit is
/// at most 64.
pub proof fn lemma_nearest_significand_range(magnitude: int)
    requires
        1 <= magnitude <= 0x8000_0000_0000_0000,
    ensures
        0x10_0000_0000_0000 <= nearest_significand(magnitude).0 < 0x20_0000_0000_0000,
        top_bit(magnitude) <= nearest_significand(magnitude).1 <= 64,
        top_bit(magnitude) <= 63,
        is_top_bit(top_bit(magnitude), magnitude),
{
    lemma2_to64();
    lemma2_to64_rest();
    lemma_top_bit_exists(magnitude);
    let top = top_bit(magnitude);
    if top > 63 {
        if top > 64 {
            lemma_pow2_strictly_increases(64, top);
        }
    }
    if top <= 52 {
        let scale = pow2((52 - top) as nat) as int;
        lemma_pow2_adds(top, (52 - top) as nat);
        lemma_pow2_adds(top + 1, (52 - top) as nat);
        assert(magnitude * scale >= pow2(top) * scale) by (nonlinear_arith)
            requires
                magnitude >= pow2(top),
                scale >= 0,
        ;
        assert(magnitude * scale < pow2(top + 1) * scale) by (nonlinear_arith)
            requires
                magnitude < pow2(top + 1),
                scale > 0,
        ;
    } else {
        let scale = pow2((top - 52) as nat) as int;
        lemma_pow2_pos((top - 52) as nat);
        lemma_pow2_adds((top - 52) as nat, 52);
        lemma_pow2_adds((top - 52) as nat, 53);
        lemma_fundamental_div_mod(magnitude, scale);
        let quotient = magnitude / scale;
        let remainder = magnitude % scale;
        assert(quotient >= 0x10_0000_0000_0000) by (nonlinear_arith)
            requires
                magnitude == scale * quotient + remainder,
                0 <= remainder < scale,
                magnitude >= scale * 0x10_0000_0000_0000,
        ;
        assert(quotient < 0x20_0000_0000_0000) by (nonlinear_arith)
            requires
                magnitude == scale * quotient + remainder,
                0 <= remainder < scale,
                magnitude < scale * 0x20_0000_0000_0000,
        ;
    }
}

/// Every whole number of at least one has a top bit.
pub proof fn lemma_top_bit_exists(magnitude: int)
    requires
        1 <= magnitude,
    ensures
        is_top_bit(top_bit(magnitude), magnitude),
    decreases magnitude,
{
    lemma2_to64();
    if magnitude == 1 {
        assert(is_top_bit(0, magnitude));
    } else {
        let half = magnitude / 2;
        lemma_top_bit_exists(half);
        let below = top_bit(half);
        lemma_pow2_unfold(below + 1);
        lemma_pow2_unfold(below + 2);
        assert(is_top_bit(below + 1, magnitude));
    }
}

/// The nearest number always is a number.
pub proof fn lemma_seconds_bits_are_finite(units: int)
    requires
        i64::MIN <= units <= i64::MAX,
    ensures
        0 <= seconds_bits(units) <= u64::MAX,
        is_finite(seconds_bits(units) as u64),
{
    if units != 0 {
        let magnitude = if units < 0 {
            -units
        } else {
            units
        };
        lemma_nearest_significand_range(magnitude);
    }
}

/// A duration of fewer than 2^53 units goes to seconds and back unchanged.
pub proof fn lemma_seconds_round_trip(units: int)
    requires
        -0x20_0000_0000_0000 < units < 0x20_0000_0000_0000,
    ensures
        units_of_seconds(seconds_bits(units) as u64) == units,
{
    lemma2_to64();
    lemma2_to64_rest();
    if units == 0 {
        lemma_pow2_pos(1042);
    } else {
        let magnitude = if units < 0 {
            -units
        } else {
            units
        };
        lemma_nearest_significand_range(magnitude);
        let top = top_bit(magnitude);
        if top > 52 {
            if top > 53 {
                lemma_pow2_strictly_increases(53, top);
            }
        }
        let scale = pow2((52 - top) as nat) as int;
        lemma_pow2_pos((52 - top) as nat);
        let significand = magnitude * scale;
        let bits = seconds_bits(units) as u64;
        assert(exponent_field(bits) == top + 991);
        assert(binary_exponent(bits) + 32 == top - 52);
        if units < 0 {
            assert(signed_significand(bits) == -significand);
            assert(-significand == (-magnitude) * scale + 0) by (nonlinear_arith)
                requires
                    significand == magnitude * scale,
            ;
            lemma_fundamental_div_mod_converse(-significand, scale, -magnitude, 0);
        } else {
            assert(signed_significand(bits) == significand);
            lemma_fundamental_div_mod_converse(significand, scale, magnitude, 0);
        }
        if top == 52 {
            assert(scale == 1);
            assert(significand == magnitude) by (nonlinear_arith)
                requires
                    significand == magnitude * scale,
                    scale == 1,
            ;
            assert(signed_significand(bits) * pow2(0) == units) by (nonlinear_arith)
                requires
                    pow2(0) == 1,
                    signed_significand(bits) == units,
            ;
        }
    }
}

impl NtpDuration {
    /// The bits of the double-precision number of seconds that is nearest
    /// to the duration, see [`seconds_bits`].
    pub fn to_seconds_bits(self) -> (r: u64)
        ensures
            r == seconds_bits(self@),
            is_finite(r),
    {
        let units = self.to_fixed_int();
        proof {
            lemma_seconds_bits_are_finite(units as int);
        }
        if units == 0 {
            return 0;
        }
        let negative = units < 0;
        let magnitude: u64 = if units >= 0 {
            units as u64
        } else {
            (-(units + 1)) as u64 + 1
        };
        let mut top: u32 = 0;
        let mut power: u64 = 1;
        proof {
            lemma2_to64();
            lemma2_to64_rest();
        }
        while top < 63 && power <= magnitude / 2
            invariant
                top <= 63,
                power == pow2(top as nat),
                power <= magnitude <= 0x8000_0000_0000_0000,
                pow2(63) == 0x8000_0000_0000_0000,
                pow2(64) == 0x1_0000_0000_0000_0000,
            decreases 63 - top,
        {
            proof {
                lemma_pow2_unfold((top + 1) as nat);
            }
            power = power * 2;
            top = top + 1;
        }
        proof {
            lemma_pow2_unfold((top + 1) as nat);
            lemma_top_bit_unique(top as nat, magnitude as int);
            lemma_nearest_significand_range(magnitude as int);
        }
        let mut significand: u64;
        if top <= 52 {
            let scale = power_of_two(52 - top);
            proof {
                lemma_pow2_adds(top as nat, (52 - top) as nat);
                lemma_pow2_adds((top + 1) as nat, (52 - top) as nat);
                assert(magnitude * scale < pow2((top + 1) as nat) * scale) by (nonlinear_arith)
                    requires
                        magnitude < pow2((top + 1) as nat),
                        scale > 0,
                ;
            }
            significand = magnitude * scale;
        } else {
            let scale = power_of_two(top - 52);
            proof {
                lemma_pow2_pos((top - 52) as nat);
                lemma_pow2_unfold((top - 52) as nat);
            }
            let quotient = magnitude / scale;
            let remainder = magnitude % scale;
            let half = scale / 2;
            let up = remainder > half || (remainder == half && quotient % 2 == 1);
            assert(up == (2 * remainder > scale || (2 * remainder == scale && quotient % 2 == 1)));
            significand = if up {
                quotient + 1
            } else {
                quotient
            };
            if significand == 0x20_0000_0000_0000 {
                significand = 0x10_0000_0000_0000;
                top = top + 1;
            }
        }
        let field: u64 = top as u64 + 991;
        let unsigned: u64 = field * 0x10_0000_0000_0000 + (significand - 0x10_0000_0000_0000);
        if negative {
            unsigned + 0x8000_0000_0000_0000
        } else {
            unsigned
        }
    }
}

} // verus!
