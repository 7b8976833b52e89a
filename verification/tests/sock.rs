use ntp_proto::packet::NtpLeapIndicator;
use ntp_proto::sock::{
    deserialize_sample, leap_indicator, sock_measurement, sock_update, Measurement, SampleError,
    SockSample, SOCK_MAGIC, SOCK_SAMPLE_SIZE,
};
use ntp_proto::source::{MsgForSystem, SockSourceUpdate, SourceId};
use ntp_proto::time_types::{NtpDuration, NtpTimestamp};

fn datagram(offset: f64, pulse: i32, leap: i32, magic: i32) -> [u8; 40] {
    let mut buf = [0xAAu8; 40];
    buf[16..24].copy_from_slice(&offset.to_le_bytes());
    buf[24..28].copy_from_slice(&pulse.to_le_bytes());
    buf[28..32].copy_from_slice(&leap.to_le_bytes());
    buf[36..40].copy_from_slice(&magic.to_le_bytes());
    buf
}

#[test]
fn sample_constants() {
    assert_eq!(SOCK_SAMPLE_SIZE, 40);
    assert_eq!(SOCK_MAGIC.to_be_bytes(), [b'S', b'O', b'C', b'K']);
}

#[test]
fn a_sample_is_read() {
    let buf = datagram(1.5, 0, 2, SOCK_MAGIC);
    let sample = deserialize_sample(Ok(40), buf).unwrap();
    assert_eq!(f64::from_bits(sample.offset_bits), 1.5);
    assert_eq!(
        sample,
        SockSample {
            offset_bits: 1.5f64.to_bits(),
            pulse: 0,
            leap: 2,
            magic: 0x534f434b
        }
    );

    let buf = datagram(-0.000123, 0, -7, SOCK_MAGIC);
    let sample = deserialize_sample(Ok(40), buf).unwrap();
    assert_eq!(f64::from_bits(sample.offset_bits), -0.000123);
    assert_eq!(sample.leap, -7);

    let buf = datagram(0.0, 0, i32::MIN, SOCK_MAGIC);
    let sample = deserialize_sample(Ok(40), buf).unwrap();
    assert_eq!(sample.offset_bits, 0);
    assert_eq!(sample.leap, i32::MIN);

    let buf = datagram(f64::from_bits(u64::MAX), 0, i32::MAX, SOCK_MAGIC);
    let sample = deserialize_sample(Ok(40), buf).unwrap();
    assert_eq!(sample.offset_bits, u64::MAX);
    assert_eq!(sample.leap, i32::MAX);
}

#[test]
fn a_sample_of_the_wrong_size_is_refused() {
    let buf = datagram(1.5, 0, 0, SOCK_MAGIC);
    for size in [0, 39, 41, usize::MAX] {
        match deserialize_sample(Ok(size), buf) {
            Err(SampleError::WrongSize(found)) => assert_eq!(found, size),
            other => panic!("unexpected: {:?}", other),
        }
    }
    // the size is looked at first
    let buf = datagram(1.5, 1, 0, 0);
    assert!(matches!(
        deserialize_sample(Ok(39), buf),
        Err(SampleError::WrongSize(39))
    ));
}

#[test]
fn a_sample_with_the_wrong_magic_is_refused() {
    for magic in [0, -1, 0x4b434f53, SOCK_MAGIC + 1] {
        let buf = datagram(1.5, 0, 0, magic);
        match deserialize_sample(Ok(40), buf) {
            Err(SampleError::WrongMagic(found)) => assert_eq!(found, magic),
            other => panic!("unexpected: {:?}", other),
        }
    }
    // the magic is looked at before the pulse
    let buf = datagram(1.5, 1, 0, 0);
    assert!(matches!(
        deserialize_sample(Ok(40), buf),
        Err(SampleError::WrongMagic(0))
    ));
}

#[test]
fn a_sample_of_a_pulse_is_refused() {
    for pulse in [1, -1, i32::MIN, i32::MAX] {
        let buf = datagram(1.5, pulse, 0, SOCK_MAGIC);
        match deserialize_sample(Ok(40), buf) {
            Err(SampleError::WrongPulse(found)) => assert_eq!(found, pulse),
            other => panic!("unexpected: {:?}", other),
        }
    }
}

#[test]
fn a_failure_to_read_is_handed_on() {
    let buf = datagram(1.5, 0, 0, SOCK_MAGIC);
    let error = std::io::Error::from_raw_os_error(libc::ECONNREFUSED);
    match deserialize_sample(Err(error), buf) {
        Err(SampleError::IOError(found)) => {
            assert_eq!(found.raw_os_error(), Some(libc::ECONNREFUSED))
        }
        other => panic!("unexpected: {:?}", other),
    }
}

#[test]
fn errors_say_what_was_wrong() {
    assert_eq!(SampleError::WrongSize(39).message(), "Invalid size 39");
    assert_eq!(SampleError::WrongSize(0).message(), "Invalid size 0");
    assert_eq!(
        SampleError::WrongMagic(-12345).message(),
        "Invalid magic -12345"
    );
    assert_eq!(SampleError::WrongPulse(1).message(), "Invalid pulse 1");
    let error = std::io::Error::new(std::io::ErrorKind::Other, "the socket is closed");
    assert_eq!(
        SampleError::IOError(error).message(),
        "the socket is closed"
    );
}

#[test]
fn leap_of_a_sample() {
    assert_eq!(leap_indicator(0), NtpLeapIndicator::NoWarning);
    assert_eq!(leap_indicator(1), NtpLeapIndicator::Leap61);
    assert_eq!(leap_indicator(2), NtpLeapIndicator::Leap59);
    assert_eq!(leap_indicator(3), NtpLeapIndicator::Unknown);
    assert_eq!(leap_indicator(-1), NtpLeapIndicator::Unknown);
    assert_eq!(leap_indicator(i32::MAX), NtpLeapIndicator::Unknown);

    assert!(NtpLeapIndicator::NoWarning.is_synchronized());
    assert!(NtpLeapIndicator::Leap61.is_synchronized());
    assert!(NtpLeapIndicator::Leap59.is_synchronized());
    assert!(!NtpLeapIndicator::Unknown.is_synchronized());
}

#[test]
fn offset_of_a_sample() {
    let sample = deserialize_sample(Ok(40), datagram(0.25, 0, 1, SOCK_MAGIC)).unwrap();
    assert_eq!(sample.offset(), Some(NtpDuration::from_fixed_int(1 << 30)));
    let sample = deserialize_sample(Ok(40), datagram(-1.5, 0, 1, SOCK_MAGIC)).unwrap();
    assert_eq!(sample.offset(), Some(NtpDuration::from_fixed_int(-3 << 31)));
    let sample = deserialize_sample(Ok(40), datagram(f64::NAN, 0, 1, SOCK_MAGIC)).unwrap();
    assert_eq!(sample.offset(), None);
    let sample = deserialize_sample(Ok(40), datagram(f64::INFINITY, 0, 1, SOCK_MAGIC)).unwrap();
    assert_eq!(sample.offset(), None);
}

#[test]
fn measurement_of_a_sample() {
    let sample = deserialize_sample(Ok(40), datagram(0.25, 0, 1, SOCK_MAGIC)).unwrap();
    let now = NtpTimestamp::from_fixed_int(12345);
    let instant = std::time::Instant::now();
    assert_eq!(
        sock_measurement(&sample, now, instant),
        Some(Measurement {
            delay: (),
            offset: NtpDuration::from_fixed_int(1 << 30),
            localtime: now,
            monotime: instant,
            stratum: 0,
            root_delay: NtpDuration::zero(),
            root_dispersion: NtpDuration::zero(),
            leap: NtpLeapIndicator::Leap61,
            precision: 0,
        })
    );

    let sample = deserialize_sample(Ok(40), datagram(f64::NAN, 0, 1, SOCK_MAGIC)).unwrap();
    assert_eq!(sock_measurement(&sample, now, instant), None);
    let sample =
        deserialize_sample(Ok(40), datagram(f64::NEG_INFINITY, 0, 1, SOCK_MAGIC)).unwrap();
    assert_eq!(sock_measurement(&sample, now, instant), None);
}

#[test]
fn update_of_a_local_clock() {
    assert_eq!(
        sock_update(SourceId::from_raw(2), Some(9u8)),
        MsgForSystem::SockSourceUpdate(SourceId { id: 2 }, SockSourceUpdate { message: Some(9u8) })
    );
}
