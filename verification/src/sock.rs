//! Samples of a reference clock that arrive as datagrams on a local socket.
//!
//! A sample is forty bytes in the byte order of the host, which is taken to
//! be little-endian: two fields of the time of the sample, which are not
//! read, then the offset as the eight bytes of a double-precision number,
//! then `pulse`, `leap`, four bytes of padding and `magic`, of four bytes
//! each.

use crate::packet::NtpLeapIndicator;
use crate::source::{MsgForSystem, SockSourceUpdate, SourceId};
use crate::decimal::{append_decimal, decimal_text};
use crate::system::error_text;
use crate::seconds::{is_finite, units_of_seconds};
use crate::time_types::{saturate, NtpDuration, NtpTimestamp};
use std::time::Instant;
use vstd::prelude::*;
use vstd::string::StringExecFns;

verus! {

/// What the last four bytes of a sample hold: the letters `SOCK`.
pub const SOCK_MAGIC: i32 = 0x534f434b;

/// The length of a sample.
pub const SOCK_SAMPLE_SIZE: usize = 40;

/// The fields of a sample that are read.
#[derive(Clone, Copy, Debug, PartialEq, Eq, Structural)]
pub struct SockSample {
    /// The offset in seconds, as the bits of a double-precision number.
    pub offset_bits: u64,
    pub pulse: i32,
    pub leap: i32,
    pub magic: i32,
}

/// Why a sample was not taken.
#[derive(Debug)]
pub enum SampleError {
    /// The socket could not be read.
    IOError(std::io::Error),
    /// The datagram had this length, and not that of a sample.
    WrongSize(usize),
    /// The last field held this, and not `SOCK`.
    WrongMagic(i32),
    /// The sample is of this pulse, and not of a time of day.
    WrongPulse(i32),
}

impl SampleError {
    /// The reason in words. What a failure to read the socket says is the
    /// operating system's, and nothing is known of it here.
    pub fn message(&self) -> (r: String)
        ensures
            match self {
                SampleError::IOError(_) => true,
                SampleError::WrongSize(size) => r@ == "Invalid size "@ + decimal_text(
                    *size as int,
                ),
                SampleError::WrongMagic(magic) => r@ == "Invalid magic "@ + decimal_text(
                    *magic as int,
                ),
                SampleError::WrongPulse(pulse) => r@ == "Invalid pulse "@ + decimal_text(
                    *pulse as int,
                ),
            },
    {
        match self {
            SampleError::IOError(error) => error_text(error),
            SampleError::WrongSize(size) => {
                let mut text = String::from_str("Invalid size ");
                append_decimal(&mut text, *size as i128);
                text
            },
            SampleError::WrongMagic(magic) => {
                let mut text = String::from_str("Invalid magic ");
                append_decimal(&mut text, *magic as i128);
                text
            },
            SampleError::WrongPulse(pulse) => {
                let mut text = String::from_str("Invalid pulse ");
                append_decimal(&mut text, *pulse as i128);
                text
            },
        }
    }
}

/// The number that `width` bytes of `bytes` from the place `at` on stand
/// for, the least significant byte first.
pub open spec fn little_endian(bytes: Seq<u8>, at: int, width: nat) -> int
    decreases width,
{
    if width == 0 {
        0
    } else {
        bytes[at] + 0x100 * little_endian(bytes, at + 1, (width - 1) as nat)
    }
}

/// The number that the 32 bits of `value` stand for when the highest bit
/// counts as the sign.
pub open spec fn signed_32(value: int) -> int {
    if value >= 0x8000_0000 {
        value - 0x1_0000_0000
    } else {
        value
    }
}

/// The sample that the bytes hold, before anything is checked.
pub open spec fn sample_fields(bytes: Seq<u8>) -> SockSample {
    SockSample {
        offset_bits: little_endian(bytes, 16, 8) as u64,
        pulse: signed_32(little_endian(bytes, 24, 4)) as i32,
        leap: signed_32(little_endian(bytes, 28, 4)) as i32,
        magic: signed_32(little_endian(bytes, 36, 4)) as i32,
    }
}

/// What is made of a datagram of `size` bytes that was received into
/// `bytes`: the sample, if the size is that of a sample, the last field
/// holds `SOCK` and the pulse is zero.
pub open spec fn checked_sample(size: usize, bytes: Seq<u8>) -> Result<SockSample, SampleError> {
    let sample = sample_fields(bytes);
    if size != SOCK_SAMPLE_SIZE {
        Err(SampleError::WrongSize(size))
    } else if sample.magic != SOCK_MAGIC {
        Err(SampleError::WrongMagic(sample.magic))
    } else if sample.pulse != 0 {
        Err(SampleError::WrongPulse(sample.pulse))
    } else {
        Ok(sample)
    }
}

/// The four bytes from `at` on, as an unsigned number.
fn read_u32(buf: &[u8; 40], at: usize) -> (r: u32)
    requires
        at + 4 <= 40,
    ensures
        r == little_endian(buf@, at as int, 4),
{
    proof {
        reveal_with_fuel(little_endian, 5);
    }
    buf[at] as u32 + 0x100 * (buf[at + 1] as u32 + 0x100 * (buf[at + 2] as u32 + 0x100 * (buf[at
        + 3] as u32)))
}

/// The four bytes from `at` on, as a signed number.
fn read_i32(buf: &[u8; 40], at: usize) -> (r: i32)
    requires
        at + 4 <= 40,
    ensures
        r == signed_32(little_endian(buf@, at as int, 4)),
{
    let value = read_u32(buf, at);
    if value >= 0x8000_0000 {
        ((value - 0x8000_0000) as i32) + i32::MIN
    } else {
        value as i32
    }
}

/// The eight bytes from `at` on, as an unsigned number.
fn read_u64(buf: &[u8; 40], at: usize) -> (r: u64)
    requires
        at + 8 <= 40,
    ensures
        r == little_endian(buf@, at as int, 8),
{
    let low = read_u32(buf, at);
    let high = read_u32(buf, at + 4);
    proof {
        reveal_with_fuel(little_endian, 9);
    }
    low as u64 + 0x1_0000_0000 * (high as u64)
}

/// The sample in `buf`, or why there is none, see [`checked_sample`].
/// `result` is the outcome of reading the socket: the size of the datagram,
/// or the error, which is handed on.
pub fn deserialize_sample(result: Result<usize, std::io::Error>, buf: [u8; 40]) -> (r: Result<
    SockSample,
    SampleError,
>)
    ensures
        match result {
            Ok(size) => r == checked_sample(size, buf@),
            Err(error) => r == Err::<SockSample, SampleError>(SampleError::IOError(error)),
        },
{
    let size = match result {
        Ok(size) => size,
        Err(error) => {
            return Err(SampleError::IOError(error));
        },
    };
    if size != SOCK_SAMPLE_SIZE {
        return Err(SampleError::WrongSize(size));
    }
    let sample = SockSample {
        offset_bits: read_u64(&buf, 16),
        pulse: read_i32(&buf, 24),
        leap: read_i32(&buf, 28),
        magic: read_i32(&buf, 36),
    };

    if sample.magic != SOCK_MAGIC {
        return Err(SampleError::WrongMagic(sample.magic));
    }
    if sample.pulse != 0 {
        return Err(SampleError::WrongPulse(sample.pulse));
    }
    Ok(sample)
}

/// What a sample says of leap seconds, see
/// [`NtpLeapIndicator::spec_from_code`].
pub fn leap_indicator(leap: i32) -> (r: NtpLeapIndicator)
    ensures
        r == NtpLeapIndicator::spec_from_code(leap as int),
{
    NtpLeapIndicator::from_code(leap)
}

/// A measurement as the controller of a source takes it. `delay` is the
/// round-trip delay, where the source has one.
#[derive(Debug, PartialEq, Eq)]
pub struct Measurement<Delay> {
    pub delay: Delay,
    pub offset: NtpDuration,
    /// The time of the local clock at the measurement.
    pub localtime: NtpTimestamp,
    /// The instant of the measurement on a clock that never goes back.
    pub monotime: Instant,
    pub stratum: u8,
    pub root_delay: NtpDuration,
    pub root_dispersion: NtpDuration,
    pub leap: NtpLeapIndicator,
    pub precision: i8,
}

impl SockSample {
    /// The offset of the sample: as many seconds as its double-precision
    /// number says, if that is a number.
    pub fn offset(&self) -> (r: Option<NtpDuration>)
        ensures
            is_finite(self.offset_bits) ==> (r matches Some(duration) && duration@ == saturate(
                units_of_seconds(self.offset_bits),
            )),
            !is_finite(self.offset_bits) ==> r is None,
    {
        NtpDuration::from_seconds_bits(self.offset_bits)
    }
}

/// The measurement that a sample gives, at the time `localtime` of the
/// local clock and the instant `monotime`; none if the offset of the sample
/// is not a number. A local clock has no delay, and it stands at the root.
pub fn sock_measurement(sample: &SockSample, localtime: NtpTimestamp, monotime: Instant) -> (r:
    Option<Measurement<()>>)
    ensures
        is_finite(sample.offset_bits) ==> (r matches Some(measurement) && measurement == (
        Measurement {
            delay: (),
            offset: NtpDuration {
                duration: saturate(units_of_seconds(sample.offset_bits)) as i64,
            },
            localtime,
            monotime,
            stratum: 0,
            root_delay: NtpDuration { duration: 0 },
            root_dispersion: NtpDuration { duration: 0 },
            leap: NtpLeapIndicator::spec_from_code(sample.leap as int),
            precision: 0,
        })),
        !is_finite(sample.offset_bits) ==> r is None,
{
    match sample.offset() {
        Some(offset) => Some(
            Measurement {
                delay: (),
                offset,
                localtime,
                monotime,
                stratum: 0,
                root_delay: NtpDuration::zero(),
                root_dispersion: NtpDuration::zero(),
                leap: leap_indicator(sample.leap),
                precision: 0,
            },
        ),
        None => None,
    }
}

/// The message by which the task of a local clock hands on what its
/// controller made of a measurement.
pub fn sock_update<SourceMessage>(index: SourceId, message: Option<SourceMessage>) -> (r:
    MsgForSystem<SourceMessage>)
    ensures
        r == MsgForSystem::SockSourceUpdate(index, SockSourceUpdate { message }),
{
    MsgForSystem::SockSourceUpdate(index, SockSourceUpdate { message })
}

} // verus!
