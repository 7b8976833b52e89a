use ntp_proto::filter::{FilterTuple, LastMeasurements, TemporaryList};
use ntp_proto::packet::{NtpAssociationMode, NtpHeader, NtpLeapIndicator};
use ntp_proto::time_types::{NtpDuration, NtpTimestamp};

fn from_seconds(seconds: f64) -> NtpDuration {
    NtpDuration::from_seconds_bits(seconds.to_bits()).unwrap()
}

fn to_seconds(duration: NtpDuration) -> f64 {
    f64::from_bits(duration.to_seconds_bits())
}

#[test]
fn dispersion_of_dummys() {
    // if all stages contain the dummy tuple with the largest dispersion,
    // the computed dispersion is a little less than 16 s

    let register = TemporaryList::new();
    let value = to_seconds(register.dispersion());

    assert!((16.0 - value) < 0.1)
}

#[test]
fn dummys_are_not_valid() {
    assert!(TemporaryList::new().valid_tuples().is_empty())
}

#[test]
fn jitter_of_single() {
    let mut register = LastMeasurements::new();
    register.register[0].offset = from_seconds(42.0);
    let first = register.register[0];
    let value = to_seconds(
        TemporaryList::from_clock_filter_contents(&register).jitter(first, from_seconds(0.0)),
    );

    assert_eq!(value, 0.0)
}

#[test]
fn jitter_of_pair() {
    let mut register = TemporaryList::new();
    register.register[0].offset = from_seconds(20.0);
    register.register[1].offset = from_seconds(30.0);
    let first = register.register[0];
    let value = to_seconds(register.jitter(first, from_seconds(0.0)));

    // jitter is calculated relative to the first tuple
    assert!((value - 10.0).abs() < 1e-6)
}

#[test]
fn jitter_of_triple() {
    let mut register = TemporaryList::new();
    register.register[0].offset = from_seconds(20.0);
    register.register[1].offset = from_seconds(20.0);
    register.register[2].offset = from_seconds(30.0);
    let first = register.register[0];
    let value = to_seconds(register.jitter(first, from_seconds(0.0)));

    // jitter is calculated relative to the first tuple
    assert!((value - 5.0).abs() < 1e-6)
}

#[test]
fn clock_filter_defaults() {
    let new_tuple = FilterTuple {
        offset: Default::default(),
        delay: Default::default(),
        dispersion: Default::default(),
        time: Default::default(),
    };

    let mut measurements = LastMeasurements::default();

    let peer_time = NtpTimestamp::default();
    let system_leap_indicator = NtpLeapIndicator::NoWarning;
    let system_precision = from_seconds(0.0);
    let update = measurements.step(
        new_tuple,
        peer_time,
        system_leap_indicator,
        system_precision,
    );

    // because "time" is zero, the same as all the dummy tuples,
    // the "new" tuple is not newer and hence rejected
    assert!(update.is_none());
}

#[test]
fn clock_filter_new() {
    let new_tuple = FilterTuple {
        offset: from_seconds(12.0),
        delay: from_seconds(14.0),
        dispersion: Default::default(),
        time: NtpTimestamp::from_bits((1i64 << 32).to_be_bytes()),
    };

    let mut measurements = LastMeasurements::default();

    let peer_time = NtpTimestamp::default();
    let system_leap_indicator = NtpLeapIndicator::NoWarning;
    let system_precision = from_seconds(0.0);
    let update = measurements.step(
        new_tuple,
        peer_time,
        system_leap_indicator,
        system_precision,
    );

    assert!(update.is_some());

    let (statistics, new_time) = update.unwrap();

    assert_eq!(statistics.offset, new_tuple.offset);
    assert_eq!(statistics.delay, new_tuple.delay);
    assert_eq!(new_time, new_tuple.time);

    // there is just one valid sample
    assert_eq!(to_seconds(statistics.jitter), 0.0);

    let temporary = TemporaryList::from_clock_filter_contents(&measurements);

    assert_eq!(temporary.register[0], new_tuple);
    assert_eq!(temporary.valid_tuples(), &[new_tuple]);
}

fn units(duration: i64) -> NtpDuration {
    NtpDuration::from_fixed_int(duration)
}

fn instant(timestamp: u64) -> NtpTimestamp {
    NtpTimestamp::from_fixed_int(timestamp)
}

fn sample(offset: i64, delay: i64, dispersion: i64, time: u64) -> FilterTuple {
    FilterTuple {
        offset: units(offset),
        delay: units(delay),
        dispersion: units(dispersion),
        time: instant(time),
    }
}

fn response(precision: i8, origin: u64, receive: u64, transmit: u64) -> NtpHeader {
    NtpHeader {
        leap: NtpLeapIndicator::NoWarning,
        mode: NtpAssociationMode::Server,
        stratum: 2,
        precision,
        origin_timestamp: instant(origin),
        receive_timestamp: instant(receive),
        transmit_timestamp: instant(transmit),
    }
}

#[test]
fn dummy_is_recognized() {
    assert!(FilterTuple::dummy().is_dummy());
    assert_eq!(FilterTuple::dummy(), sample(0, 16 << 32, 16 << 32, 0));
    assert!(!sample(1, 16 << 32, 16 << 32, 0).is_dummy());
    assert!(!sample(0, 16 << 32, 16 << 32, 1).is_dummy());
    assert!(!sample(0, 0, 16 << 32, 0).is_dummy());
    assert!(!sample(0, 16 << 32, 0, 0).is_dummy());
}

#[test]
fn measurement_from_packet() {
    let packet = response(-30, 1_000, 3_000_000, 3_000_100);
    let tuple = FilterTuple::from_packet_default(&packet, units(7), instant(2_001_000), instant(99));

    // offset: ((3_000_000 - 1_000) + (2_001_000 - 3_000_100)) / 2
    assert_eq!(tuple.offset, units(999_950));
    // delay: (2_001_000 - 1_000) - (3_000_100 - 3_000_000)
    assert_eq!(tuple.delay, units(1_999_900));
    // dispersion: 2^-30 s + 7 + 15 ppm of 2_000_000
    assert_eq!(tuple.dispersion, units(4 + 7 + 30));
    assert_eq!(tuple.time, instant(99));
}

#[test]
fn measurement_delay_is_at_least_the_precision() {
    // the server seems to have held the request longer than the client waited
    let packet = response(-32, 100, 160, 190);
    let tuple = FilterTuple::from_packet_default(&packet, units(5), instant(120), instant(1));

    assert_eq!(tuple.delay, units(5));
    // offset: (60 + (120 - 190)) / 2, rounded toward zero
    assert_eq!(tuple.offset, units(-5));
    assert_eq!(tuple.dispersion, units(1 + 5));

    let packet = response(-32, 0, 0, 3);
    let tuple = FilterTuple::from_packet_default(&packet, units(5), instant(0), instant(1));
    assert_eq!(tuple.offset, units(-1));
}

#[test]
fn measurement_across_the_end_of_the_era() {
    let packet = response(0, u64::MAX - 9, 20, 30);
    let tuple = FilterTuple::from_packet_default(&packet, units(1), instant(10), instant(10));

    // offset: ((20 - (-10)) + (10 - 30)) / 2
    assert_eq!(tuple.offset, units(5));
    // delay: (10 - (-10)) - (30 - 20)
    assert_eq!(tuple.delay, units(10));
    assert_eq!(tuple.dispersion, units((1 << 32) + 1));
}

#[test]
fn shift_and_insert_ages_what_was_measured() {
    let mut measurements = LastMeasurements::new();
    let first = sample(1, 2, 3, 4);
    let second = sample(5, 6, 7, 8);

    measurements.shift_and_insert(first, units(100));
    assert_eq!(measurements.register[0], first);
    for slot in 1..8 {
        assert!(measurements.register[slot].is_dummy());
    }

    measurements.shift_and_insert(second, units(100));
    assert_eq!(measurements.register[0], second);
    assert_eq!(measurements.register[1], sample(1, 2, 103, 4));
    for slot in 2..8 {
        assert!(measurements.register[slot].is_dummy());
    }
}

#[test]
fn shift_and_insert_drops_the_oldest() {
    let mut measurements = LastMeasurements::new();
    for round in 0..9 {
        measurements.shift_and_insert(sample(round, 1, 0, 1), units(1));
    }
    for slot in 0..8 {
        let age = slot as i64;
        assert_eq!(measurements.register[slot], sample(8 - age, 1, age, 1));
    }
}

#[test]
fn shift_and_insert_saturates_the_dispersion() {
    let mut measurements = LastMeasurements::new();
    measurements.shift_and_insert(sample(1, 1, i64::MAX - 1, 1), units(0));
    measurements.shift_and_insert(sample(2, 1, 0, 1), units(5));
    assert_eq!(measurements.register[1], sample(1, 1, i64::MAX, 1));
}

#[test]
fn temporary_list_is_ordered_by_delay() {
    let mut measurements = LastMeasurements::new();
    measurements.shift_and_insert(sample(1, 30, 0, 1), units(0));
    measurements.shift_and_insert(sample(2, 10, 0, 2), units(0));
    measurements.shift_and_insert(sample(3, (16 << 32) + 1, 0, 3), units(0));
    measurements.shift_and_insert(sample(4, 10, 0, 4), units(0));
    measurements.shift_and_insert(sample(5, 20, 0, 5), units(0));

    let temporary = TemporaryList::from_clock_filter_contents(&measurements);

    // equal delays keep the order of the register, in which the newest is first
    assert_eq!(temporary.register[0], sample(4, 10, 0, 4));
    assert_eq!(temporary.register[1], sample(2, 10, 0, 2));
    assert_eq!(temporary.register[2], sample(5, 20, 0, 5));
    assert_eq!(temporary.register[3], sample(1, 30, 0, 1));
    assert!(temporary.register[4].is_dummy());
    assert!(temporary.register[5].is_dummy());
    assert!(temporary.register[6].is_dummy());
    assert_eq!(temporary.register[7], sample(3, (16 << 32) + 1, 0, 3));
    assert_eq!(*temporary.smallest_delay(), sample(4, 10, 0, 4));

    // the valid tuples reach up to the last one that is no dummy
    assert_eq!(temporary.valid_tuples().len(), 8);
}

#[test]
fn valid_tuples_end_with_the_last_measurement() {
    let mut measurements = LastMeasurements::new();
    measurements.shift_and_insert(sample(1, 30, 0, 1), units(0));
    measurements.shift_and_insert(sample(2, 10, 0, 2), units(0));
    let temporary = TemporaryList::from_clock_filter_contents(&measurements);
    assert_eq!(
        temporary.valid_tuples(),
        &[sample(2, 10, 0, 2), sample(1, 30, 0, 1)]
    );
}

#[test]
fn dispersion_of_dummys_is_exact() {
    // 16 s * (1/2 + 1/4 + ... + 1/256)
    assert_eq!(
        TemporaryList::new().dispersion().to_fixed_int(),
        (16 << 32) - (1 << 28)
    );
}

#[test]
fn dispersion_weighs_by_place() {
    let mut list = TemporaryList::new();
    for slot in 0..8 {
        list.register[slot].dispersion = units(0);
    }
    list.register[0].dispersion = units(1000);
    list.register[1].dispersion = units(1000);
    list.register[7].dispersion = units(-1000);
    // 1000 / 2 + 1000 / 4 + (-1000) / 256, each rounded toward zero
    assert_eq!(list.dispersion().to_fixed_int(), 500 + 250 - 3);
}

#[test]
fn dispersion_of_the_largest_values() {
    let mut list = TemporaryList::new();
    for slot in 0..8 {
        list.register[slot].dispersion = units(i64::MAX);
    }
    let mut expected = 0;
    for place in 1..=8 {
        expected += i64::MAX >> place;
    }
    assert_eq!(list.dispersion().to_fixed_int(), expected);
    assert_eq!(expected, 9_187_343_239_835_811_832);
}

#[test]
fn jitter_is_exact() {
    let mut list = TemporaryList::new();
    list.register[0].offset = units(0);
    list.register[1].offset = units(3);
    list.register[2].offset = units(-4);
    // the first tuple has the offset of a dummy, but the third is the last valid one
    let first = list.register[0];
    // sqrt(0 + 9 + 16) / 2
    assert_eq!(list.jitter(first, units(0)).to_fixed_int(), 2);
    assert_eq!(
        TemporaryList::jitter_help(&list.register[..3], first, units(0)).to_fixed_int(),
        2
    );
    assert_eq!(
        TemporaryList::jitter_help(&list.register[..2], first, units(0)).to_fixed_int(),
        3
    );
    // sqrt(1 + 4 + 25) / 2 = 2.73..
    assert_eq!(
        TemporaryList::jitter_help(&list.register[..3], sample(1, 0, 0, 0), units(0))
            .to_fixed_int(),
        2
    );
}

#[test]
fn jitter_is_never_below_the_precision() {
    let mut list = TemporaryList::new();
    list.register[0].offset = units(20);
    list.register[1].offset = units(30);
    let first = list.register[0];

    assert_eq!(list.jitter(first, units(9)).to_fixed_int(), 10);
    assert_eq!(list.jitter(first, units(10)).to_fixed_int(), 10);
    assert_eq!(list.jitter(first, units(11)).to_fixed_int(), 11);
    assert_eq!(list.jitter(first, units(i64::MAX)).to_fixed_int(), i64::MAX);
    assert_eq!(list.jitter(first, units(-5)).to_fixed_int(), 10);

    // without any valid tuple the precision is all there is
    assert_eq!(
        TemporaryList::new()
            .jitter(FilterTuple::dummy(), units(7))
            .to_fixed_int(),
        7
    );
    assert_eq!(
        TemporaryList::new()
            .jitter(FilterTuple::dummy(), units(-7))
            .to_fixed_int(),
        0
    );
}

#[test]
fn jitter_of_one_tuple_elsewhere_is_unbounded() {
    let tuple = sample(5, 1, 1, 1);
    assert_eq!(
        TemporaryList::jitter_help(&[tuple], sample(6, 1, 1, 1), units(0)).to_fixed_int(),
        i64::MAX
    );
    assert_eq!(
        TemporaryList::jitter_help(&[tuple], tuple, units(0)).to_fixed_int(),
        0
    );
}

#[test]
fn jitter_of_far_offsets() {
    let far = [
        sample(i64::MAX, 1, 1, 1),
        sample(i64::MIN, 1, 1, 1),
        sample(i64::MIN, 1, 1, 1),
    ];
    // sqrt((2^63 - 1)^2 + 2 * 2^126) / 2, rounded down
    let value = TemporaryList::jitter_help(&far, sample(0, 1, 1, 1), units(0)).to_fixed_int();
    assert_eq!(value, 7_987_674_492_471_257_550);

    // the sum of the squares has more than 128 bits
    let farther = [sample(i64::MIN, 1, 1, 1); 6];
    // sqrt(6 * 2^126) / 5, rounded down
    let value = TemporaryList::jitter_help(&farther, sample(0, 1, 1, 1), units(0)).to_fixed_int();
    assert_eq!(value, 4_518_511_039_629_792_451);

    let farthest = [sample(i64::MIN, 1, 1, 1); 8];
    // sqrt(8 * 2^126) / 7, rounded down
    let value = TemporaryList::jitter_help(&farthest, sample(0, 1, 1, 1), units(0)).to_fixed_int();
    assert_eq!(value, 3_726_805_092_952_223_489);

    // the distances themselves are limited to what a duration can hold
    let apart = [sample(i64::MIN, 1, 1, 1), sample(i64::MIN, 1, 1, 1)];
    let value =
        TemporaryList::jitter_help(&apart, sample(i64::MAX, 1, 1, 1), units(0)).to_fixed_int();
    // sqrt(2 * 2^126), which is more than the largest duration
    assert_eq!(value, i64::MAX);
}

#[test]
fn step_on_a_new_register_at_peer_time_reports_nothing() {
    for leap in [
        NtpLeapIndicator::NoWarning,
        NtpLeapIndicator::Leap61,
        NtpLeapIndicator::Leap59,
    ] {
        let mut measurements = LastMeasurements::new();
        let update = measurements.step(sample(3, 4, 5, 1000), instant(1000), leap, units(0));
        assert!(update.is_none());
        // the measurement is remembered all the same
        assert_eq!(measurements.register[0], sample(3, 4, 5, 1000));
    }
}

#[test]
fn step_on_a_new_register_after_peer_time_reports_the_tuple() {
    let mut measurements = LastMeasurements::new();
    let tuple = sample(3, 4, 1000, 1001);
    let (statistics, time) = measurements
        .step(tuple, instant(1000), NtpLeapIndicator::NoWarning, units(0))
        .unwrap();

    assert_eq!(time, tuple.time);
    assert_eq!(statistics.offset, tuple.offset);
    assert_eq!(statistics.delay, tuple.delay);
    assert_eq!(statistics.jitter, units(0));
    // 1000 / 2 and the share of seven dummies
    assert_eq!(
        statistics.dispersion,
        units(500 + (8 << 32) - (1 << 28))
    );

    let mut measurements = LastMeasurements::new();
    let (statistics, _) = measurements
        .step(tuple, instant(1000), NtpLeapIndicator::NoWarning, units(77))
        .unwrap();
    assert_eq!(statistics.jitter, units(77));
}

#[test]
fn step_before_synchronization_reports_anything() {
    let mut measurements = LastMeasurements::new();
    let tuple = sample(3, 4, 5, 1000);
    let update = measurements.step(tuple, instant(2000), NtpLeapIndicator::Unknown, units(0));
    let (statistics, time) = update.unwrap();
    assert_eq!(time, tuple.time);
    assert_eq!(statistics.offset, tuple.offset);
}

#[test]
fn step_ages_by_the_time_since_peer_time() {
    let mut measurements = LastMeasurements::new();
    measurements.step(sample(1, 50, 0, 1_000_000), instant(0), NtpLeapIndicator::NoWarning, units(0));
    // 4_000_000 units after the last sample that was used: 60 units of drift
    let update = measurements.step(
        sample(2, 40, 0, 5_000_000),
        instant(1_000_000),
        NtpLeapIndicator::NoWarning,
        units(0),
    );
    assert_eq!(measurements.register[1], sample(1, 50, 60, 1_000_000));

    let (statistics, time) = update.unwrap();
    assert_eq!(time, instant(5_000_000));
    assert_eq!(statistics.offset, units(2));
    assert_eq!(statistics.delay, units(40));
    // sqrt((1 - 2)^2) / 1
    assert_eq!(statistics.jitter, units(1));
    // 0 / 2 + 60 / 4 and the share of six dummies
    assert_eq!(statistics.dispersion, units(15 + (4 << 32) - (1 << 28)));
}

#[test]
fn step_prefers_the_smallest_delay_and_uses_it_once() {
    let mut measurements = LastMeasurements::new();
    measurements.step(sample(1, 10, 0, 100), instant(0), NtpLeapIndicator::NoWarning, units(0));
    // the new sample has a larger delay, so the old one is still the best,
    // and it is not newer than itself
    let update = measurements.step(
        sample(2, 20, 0, 200),
        instant(100),
        NtpLeapIndicator::NoWarning,
        units(0),
    );
    assert!(update.is_none());
}

#[test]
fn step_with_a_delay_beyond_a_dummy_reports_the_dummy() {
    // a first measurement whose delay is larger than that of a dummy stands
    // behind the dummies
    let mut measurements = LastMeasurements::new();
    let tuple = sample(3, (16 << 32) + 1, 5, 1000);
    let update = measurements.step(tuple, instant(999), NtpLeapIndicator::NoWarning, units(0));
    assert!(update.is_none());

    let mut measurements = LastMeasurements::new();
    let update = measurements.step(tuple, instant(999), NtpLeapIndicator::Unknown, units(0));
    let (statistics, time) = update.unwrap();
    assert_eq!(time, instant(0));
    assert_eq!(statistics.offset, units(0));
    assert_eq!(statistics.delay, units(16 << 32));
}
