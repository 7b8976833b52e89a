//! Square roots of whole numbers, rounded down.

use vstd::prelude::*;

verus! {

/// `root` is the square root of `n`, rounded down: the largest whole number
/// whose square does not exceed `n`.
pub open spec fn is_floor_sqrt(root: int, n: int) -> bool {
    0 <= root && root * root <= n < (root + 1) * (root + 1)
}

/// The square root of `n`, rounded down. For a negative `n` there is none
/// and the value is arbitrary.
pub open spec fn floor_sqrt(n: int) -> int {
    choose|root: int| is_floor_sqrt(root, n)
}

/// Squaring keeps the order of numbers that are not negative.
pub proof fn lemma_square_monotonic(a: int, b: int)
    requires
        0 <= a <= b,
    ensures
        a * a <= b * b,
{
    assert(a * a <= b * b) by (nonlinear_arith)
        requires
            0 <= a <= b,
    ;
}

/// A number has at most one rounded-down square root, so whatever meets
/// [`is_floor_sqrt`] is [`floor_sqrt`].
pub proof fn lemma_floor_sqrt_unique(root: int, n: int)
    requires
        is_floor_sqrt(root, n),
    ensures
        floor_sqrt(n) == root,
{
    let chosen = floor_sqrt(n);
    assert(is_floor_sqrt(chosen, n));
    if chosen < root {
        lemma_square_monotonic(chosen + 1, root);
    } else if root < chosen {
        lemma_square_monotonic(root + 1, chosen);
    }
}

/// The rounded-down square root of a perfect square is its base.
pub proof fn lemma_floor_sqrt_of_square(base: int)
    requires
        0 <= base,
    ensures
        floor_sqrt(base * base) == base,
{
    assert(base * base < (base + 1) * (base + 1)) by (nonlinear_arith)
        requires
            0 <= base,
    ;
    lemma_floor_sqrt_unique(base, base * base);
}

/// The square root of `n`, rounded down.
pub fn integer_sqrt(n: u128) -> (root: u64)
    ensures
        is_floor_sqrt(root as int, n as int),
        root == floor_sqrt(n as int),
{
    let mut low: u128 = 0;
    let mut high: u128 = 0x1_0000_0000_0000_0000;
    assert(0x1_0000_0000_0000_0000int * 0x1_0000_0000_0000_0000int
        == 0x1_0000_0000_0000_0000_0000_0000_0000_0000int) by (nonlinear_arith);
    while high - low > 1
        invariant
            low < high <= 0x1_0000_0000_0000_0000,
            low * low <= n < high * high,
        decreases high - low,
    {
        let middle: u128 = low + (high - low) / 2;
        assert(middle * middle <= 0xFFFF_FFFF_FFFF_FFFF * 0xFFFF_FFFF_FFFF_FFFF)
            by (nonlinear_arith)
            requires
                0 <= middle <= 0xFFFF_FFFF_FFFF_FFFF,
        ;
        assert(0xFFFF_FFFF_FFFF_FFFFint * 0xFFFF_FFFF_FFFF_FFFFint
            == 0xFFFF_FFFF_FFFF_FFFE_0000_0000_0000_0001int) by (nonlinear_arith);
        if middle * middle <= n {
            low = middle;
        } else {
            high = middle;
        }
    }
    proof {
        lemma_floor_sqrt_unique(low as int, n as int);
    }
    low as u64
}

/// The number that `high` and `low` stand for together: `low` holds its 128
/// lowest bits, `high` those above them.
pub open spec fn wide(high: u64, low: u128) -> int {
    high as int * 0x1_0000_0000_0000_0000_0000_0000_0000_0000 + low as int
}

/// The square root of a number of up to 130 bits, rounded down. The number
/// comes in two parts, see [`wide`].
pub fn integer_sqrt_wide(high: u64, low: u128) -> (root: u128)
    requires
        high < 4,
    ensures
        is_floor_sqrt(root as int, wide(high, low)),
        root == floor_sqrt(wide(high, low)),
        root < 0x2_0000_0000_0000_0000,
{
    // a quarter of the number has 128 bits, and its root is half the root
    // that is looked for, but for the last bit
    let quarter: u128 = high as u128 * 0x4000_0000_0000_0000_0000_0000_0000_0000 + low / 4;
    let rest: u128 = low % 4;
    assert(wide(high, low) == 4 * quarter + rest);
    let half: u128 = integer_sqrt(quarter) as u128;
    assert(half * half + half <= 0xFFFF_FFFF_FFFF_FFFF * 0x1_0000_0000_0000_0000)
        by (nonlinear_arith)
        requires
            0 <= half <= 0xFFFF_FFFF_FFFF_FFFF,
    ;
    assert(0xFFFF_FFFF_FFFF_FFFFint * 0x1_0000_0000_0000_0000int
        == 0xFFFF_FFFF_FFFF_FFFF_0000_0000_0000_0000int) by (nonlinear_arith);
    let product: u128 = half * half + half;
    let odd = if rest >= 1 {
        product <= quarter
    } else {
        product < quarter
    };
    let root: u128 = if odd {
        2 * half + 1
    } else {
        2 * half
    };
    proof {
        let number = wide(high, low);
        assert((2 * half) * (2 * half) == 4 * (half * half)) by (nonlinear_arith);
        assert((2 * half + 1) * (2 * half + 1) == 4 * (half * half + half) + 1)
            by (nonlinear_arith);
        assert((2 * half + 2) * (2 * half + 2) == 4 * ((half + 1) * (half + 1)))
            by (nonlinear_arith);
        assert(is_floor_sqrt(root as int, number));
        lemma_floor_sqrt_unique(root as int, number);
    }
    root
}

} // verus!
