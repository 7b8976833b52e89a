use ntp_proto::roots::{integer_sqrt, integer_sqrt_wide};

#[test]
fn roots_of_squares_and_their_neighbours() {
    for root in [
        0u64,
        1,
        2,
        3,
        10,
        255,
        256,
        65_535,
        4_294_967_295,
        4_294_967_296,
        10_000_000_019,
        u64::MAX - 1,
        u64::MAX,
    ] {
        let square = root as u128 * root as u128;
        assert_eq!(integer_sqrt(square), root);
        if root > 0 {
            assert_eq!(integer_sqrt(square - 1), root - 1);
            assert_eq!(integer_sqrt(square + 2 * root as u128), root);
        }
        if root < u64::MAX {
            assert_eq!(integer_sqrt(square + 2 * root as u128 + 1), root + 1);
        }
    }
    assert_eq!(integer_sqrt(u128::MAX), u64::MAX);
    assert_eq!(integer_sqrt(2), 1);
    assert_eq!(integer_sqrt(8), 2);
    assert_eq!(integer_sqrt(99), 9);
    assert_eq!(integer_sqrt(1_000_000_000_000_000_000_000_000_000_000), 1_000_000_000_000_000);
}

#[test]
fn roots_of_wide_numbers() {
    assert_eq!(integer_sqrt_wide(0, 0), 0);
    assert_eq!(integer_sqrt_wide(0, 1), 1);
    assert_eq!(integer_sqrt_wide(0, 3), 1);
    assert_eq!(integer_sqrt_wide(0, 4), 2);
    assert_eq!(integer_sqrt_wide(0, u128::MAX), u64::MAX as u128);
    // 2^128, whose root is 2^64
    assert_eq!(integer_sqrt_wide(1, 0), 1 << 64);
    assert_eq!(integer_sqrt_wide(1, 1), 1 << 64);
    // 2^129 and 3 * 2^128
    assert_eq!(integer_sqrt_wide(2, 0), 26_087_635_650_665_564_424);
    assert_eq!(integer_sqrt_wide(3, 0), 31_950_697_969_885_030_203);
    assert_eq!(
        integer_sqrt_wide(1, 123_456_789_012_345_678_901_234_567_890),
        18_446_744_077_055_854_587
    );
    // the largest number of 130 bits
    assert_eq!(integer_sqrt_wide(3, u128::MAX), (1 << 65) - 1);
}

#[test]
fn wide_roots_agree_with_narrow_ones() {
    let mut state: u128 = 0x9E37_79B9_7F4A_7C15_F39C_C060_5CED_C834;
    for round in 0..20_000u32 {
        state ^= state << 29;
        state ^= state >> 37;
        state ^= state << 53;
        let number = state >> (round % 128);
        assert_eq!(integer_sqrt_wide(0, number), integer_sqrt(number) as u128);

        // the root of a square is its base, and one less just below
        let base = (state >> 63) | 1;
        let square_low = base.wrapping_mul(base);
        let square_high = {
            let (low, high) = (base & u64::MAX as u128, base >> 64);
            // base^2 = (high * 2^64 + low)^2, of which the bits from 128 on
            let cross = 2 * high * low;
            let carry = ((low * low) >> 64) + (cross & u64::MAX as u128);
            (high * high + (cross >> 64) + (carry >> 64)) as u64
        };
        assert_eq!(integer_sqrt_wide(square_high, square_low), base);
        if square_low > 0 {
            assert_eq!(integer_sqrt_wide(square_high, square_low - 1), base - 1);
        }
    }
}
