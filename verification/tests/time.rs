use ntp_proto::peer::multiply_by_phi;
use ntp_proto::time_types::{NtpDuration, NtpTimestamp};

#[test]
fn duration_constants() {
    assert_eq!(NtpDuration::zero().to_fixed_int(), 0);
    assert_eq!(NtpDuration::one().to_fixed_int(), 1 << 32);
    assert_eq!(NtpDuration::max_dispersion().to_fixed_int(), 16 << 32);
    assert_eq!(NtpDuration::default(), NtpDuration::zero());
    assert_eq!(NtpTimestamp::default(), NtpTimestamp::zero());
}

#[test]
fn duration_sum_and_difference_saturate() {
    let large = NtpDuration::from_fixed_int(i64::MAX - 1);
    let small = NtpDuration::from_fixed_int(i64::MIN + 1);
    let two = NtpDuration::from_fixed_int(2);

    assert_eq!((large + two).to_fixed_int(), i64::MAX);
    assert_eq!((small - two).to_fixed_int(), i64::MIN);
    assert_eq!((small + small).to_fixed_int(), i64::MIN);
    assert_eq!((large - small).to_fixed_int(), i64::MAX);
    assert_eq!((two + two).to_fixed_int(), 4);
    assert_eq!((two - large).to_fixed_int(), 3 - i64::MAX);
}

#[test]
fn duration_division_rounds_toward_zero() {
    assert_eq!((NtpDuration::from_fixed_int(7) / 2).to_fixed_int(), 3);
    assert_eq!((NtpDuration::from_fixed_int(-7) / 2).to_fixed_int(), -3);
    assert_eq!((NtpDuration::from_fixed_int(-8) / 4).to_fixed_int(), -2);
    assert_eq!((NtpDuration::from_fixed_int(1) / 256).to_fixed_int(), 0);
}

#[test]
fn duration_from_exponent() {
    assert_eq!(NtpDuration::from_exponent(0).to_fixed_int(), 1 << 32);
    assert_eq!(NtpDuration::from_exponent(4).to_fixed_int(), 16 << 32);
    assert_eq!(NtpDuration::from_exponent(-1).to_fixed_int(), 1 << 31);
    assert_eq!(NtpDuration::from_exponent(-32).to_fixed_int(), 1);
    assert_eq!(NtpDuration::from_exponent(-33).to_fixed_int(), 0);
    assert_eq!(NtpDuration::from_exponent(-128).to_fixed_int(), 0);
    assert_eq!(NtpDuration::from_exponent(30).to_fixed_int(), 1 << 62);
    assert_eq!(NtpDuration::from_exponent(31).to_fixed_int(), i64::MAX);
    assert_eq!(NtpDuration::from_exponent(127).to_fixed_int(), i64::MAX);
}

#[test]
fn duration_max_and_sign() {
    let a = NtpDuration::from_fixed_int(-3);
    let b = NtpDuration::from_fixed_int(5);
    assert_eq!(a.max(b), b);
    assert_eq!(b.max(a), b);
    assert_eq!(a.max(a), a);
    assert!(b.is_positive());
    assert!(!a.is_positive());
    assert!(!NtpDuration::zero().is_positive());
}

#[test]
fn timestamp_difference_wraps() {
    let early = NtpTimestamp::from_fixed_int(5);
    let late = NtpTimestamp::from_fixed_int(7);
    assert_eq!((late - early).to_fixed_int(), 2);
    assert_eq!((early - late).to_fixed_int(), -2);

    // across the end of the era
    let before = NtpTimestamp::from_fixed_int(u64::MAX);
    let after = NtpTimestamp::from_fixed_int(1);
    assert_eq!((after - before).to_fixed_int(), 2);
    assert_eq!((before - after).to_fixed_int(), -2);

    // half the circle apart counts as before
    let opposite = NtpTimestamp::from_fixed_int(1 << 63);
    assert_eq!((opposite - NtpTimestamp::zero()).to_fixed_int(), i64::MIN);
    assert_eq!(
        (NtpTimestamp::from_fixed_int((1 << 63) - 1) - NtpTimestamp::zero()).to_fixed_int(),
        i64::MAX
    );
}

#[test]
fn timestamp_sum_wraps() {
    let start = NtpTimestamp::from_fixed_int(u64::MAX - 1);
    assert_eq!((start + NtpDuration::from_fixed_int(3)).to_fixed_int(), 1);
    assert_eq!(
        (NtpTimestamp::from_fixed_int(1) + NtpDuration::from_fixed_int(-3)).to_fixed_int(),
        u64::MAX - 1
    );
    assert_eq!(
        (NtpTimestamp::from_fixed_int(10) + NtpDuration::from_fixed_int(i64::MIN)).to_fixed_int(),
        10 + (1u64 << 63)
    );
    assert_eq!(
        (NtpTimestamp::from_fixed_int(10) + NtpDuration::from_fixed_int(-4)).to_fixed_int(),
        6
    );
}

#[test]
fn timestamp_difference_undoes_sum() {
    let start = NtpTimestamp::from_fixed_int(0xFFFF_FFFF_0000_0000);
    for span in [0i64, 1, -1, 1 << 40, -(1 << 40), i64::MAX, i64::MIN] {
        let span = NtpDuration::from_fixed_int(span);
        assert_eq!((start + span) - start, span);
    }
}

#[test]
fn timestamp_from_bits_is_big_endian() {
    assert_eq!(
        NtpTimestamp::from_bits([1, 2, 3, 4, 5, 6, 7, 8]).to_fixed_int(),
        0x0102_0304_0506_0708
    );
    assert_eq!(
        NtpTimestamp::from_bits([0xFF; 8]).to_fixed_int(),
        u64::MAX
    );
    assert_eq!(
        NtpTimestamp::from_bits((1i64 << 32).to_be_bytes()).to_fixed_int(),
        1 << 32
    );
}

#[test]
fn timestamp_from_seconds_and_nanos() {
    assert_eq!(
        NtpTimestamp::from_seconds_nanos_since_ntp_era(0, 0).to_fixed_int(),
        0
    );
    assert_eq!(
        NtpTimestamp::from_seconds_nanos_since_ntp_era(1, 500_000_000).to_fixed_int(),
        (1 << 32) + (1 << 31)
    );
    assert_eq!(
        NtpTimestamp::from_seconds_nanos_since_ntp_era(u32::MAX, 999_999_999).to_fixed_int(),
        ((u32::MAX as u64) << 32) + 4_294_967_291
    );
}

#[test]
fn drift_is_fifteen_parts_per_million() {
    assert_eq!(
        multiply_by_phi(NtpDuration::from_fixed_int(1_000_000)).to_fixed_int(),
        15
    );
    assert_eq!(
        multiply_by_phi(NtpDuration::from_fixed_int(-1_000_000)).to_fixed_int(),
        -15
    );
    assert_eq!(
        multiply_by_phi(NtpDuration::from_fixed_int(66_666)).to_fixed_int(),
        0
    );
    assert_eq!(
        multiply_by_phi(NtpDuration::from_fixed_int(-66_667)).to_fixed_int(),
        -1
    );
    assert_eq!(
        multiply_by_phi(NtpDuration::from_fixed_int(i64::MAX)).to_fixed_int(),
        138_350_580_552_821
    );
    assert_eq!(
        multiply_by_phi(NtpDuration::from_fixed_int(i64::MIN)).to_fixed_int(),
        -138_350_580_552_821
    );
}

#[test]
fn durations_are_ordered_by_their_units() {
    let values = [i64::MIN, -5, -1, 0, 1, 5, 1 << 32, i64::MAX];
    for left in values {
        for right in values {
            let a = NtpDuration::from_fixed_int(left);
            let b = NtpDuration::from_fixed_int(right);
            assert_eq!(a < b, left < right);
            assert_eq!(a <= b, left <= right);
            assert_eq!(a > b, left > right);
            assert_eq!(a >= b, left >= right);
            assert_eq!(a == b, left == right);
            assert_eq!(a.partial_cmp(&b), Some(left.cmp(&right)));
            assert_eq!(a.cmp(&b), left.cmp(&right));
        }
    }
}
