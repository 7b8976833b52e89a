//! The fields of a received packet that the measurement code reads.

use crate::time_types::{big_endian_value, NtpTimestamp};
use vstd::prelude::*;

verus! {

/// The announcement of a leap second that a clock carries, or the mark of a
/// clock that is not synchronized.
#[derive(Clone, Copy, Debug, PartialEq, Eq, Hash, Structural)]
pub enum NtpLeapIndicator {
    NoWarning,
    Leap61,
    Leap59,
    Unknown,
}

impl NtpLeapIndicator {
    /// What a number says of leap seconds: 0 is no warning, 1 a minute of 61
    /// seconds, 2 a minute of 59 seconds, and anything else is unknown.
    pub open spec fn spec_from_code(code: int) -> NtpLeapIndicator {
        if code == 0 {
            NtpLeapIndicator::NoWarning
        } else if code == 1 {
            NtpLeapIndicator::Leap61
        } else if code == 2 {
            NtpLeapIndicator::Leap59
        } else {
            NtpLeapIndicator::Unknown
        }
    }

    pub fn from_code(code: i32) -> (r: NtpLeapIndicator)
        ensures
            r == Self::spec_from_code(code as int),
    {
        match code {
            0 => NtpLeapIndicator::NoWarning,
            1 => NtpLeapIndicator::Leap61,
            2 => NtpLeapIndicator::Leap59,
            _ => NtpLeapIndicator::Unknown,
        }
    }

    /// A clock is synchronized unless its indicator is `Unknown`.
    pub open spec fn spec_is_synchronized(&self) -> bool {
        !(*self is Unknown)
    }

    #[verifier::when_used_as_spec(spec_is_synchronized)]
    pub fn is_synchronized(&self) -> (r: bool)
        ensures
            r == self.spec_is_synchronized(),
    {
        match self {
            NtpLeapIndicator::Unknown => false,
            _ => true,
        }
    }
}

/// The relation between the sender of a packet and its receiver.
#[derive(Clone, Copy, Debug, PartialEq, Eq, Hash, Structural)]
pub enum NtpAssociationMode {
    Reserved,
    SymmetricActive,
    SymmetricPassive,
    Client,
    Server,
    Broadcast,
    Control,
    Private,
}

impl NtpAssociationMode {
    /// The mode that stands under `code` in a packet; `code` counts modulo 8.
    pub open spec fn spec_from_code(code: int) -> NtpAssociationMode {
        let low = code % 8;
        if low == 0 {
            NtpAssociationMode::Reserved
        } else if low == 1 {
            NtpAssociationMode::SymmetricActive
        } else if low == 2 {
            NtpAssociationMode::SymmetricPassive
        } else if low == 3 {
            NtpAssociationMode::Client
        } else if low == 4 {
            NtpAssociationMode::Server
        } else if low == 5 {
            NtpAssociationMode::Broadcast
        } else if low == 6 {
            NtpAssociationMode::Control
        } else {
            NtpAssociationMode::Private
        }
    }

    pub fn from_code(code: u8) -> (r: NtpAssociationMode)
        ensures
            r == Self::spec_from_code(code as int),
    {
        match code % 8 {
            0 => NtpAssociationMode::Reserved,
            1 => NtpAssociationMode::SymmetricActive,
            2 => NtpAssociationMode::SymmetricPassive,
            3 => NtpAssociationMode::Client,
            4 => NtpAssociationMode::Server,
            5 => NtpAssociationMode::Broadcast,
            6 => NtpAssociationMode::Control,
            _ => NtpAssociationMode::Private,
        }
    }
}

/// The length of the header of a packet.
pub const HEADER_SIZE: usize = 48;

/// What a measurement needs from the header of a server's response.
#[derive(Clone, Copy, Debug, PartialEq, Eq, Structural)]
pub struct NtpHeader {
    pub leap: NtpLeapIndicator,
    pub mode: NtpAssociationMode,
    /// How many servers stand between the sender and a reference clock.
    pub stratum: u8,
    /// The precision of the server's clock as an exponent of two, in seconds.
    pub precision: i8,
    /// When the request left the client, by the client's clock.
    pub origin_timestamp: NtpTimestamp,
    /// When the request reached the server, by the server's clock.
    pub receive_timestamp: NtpTimestamp,
    /// When the response left the server, by the server's clock.
    pub transmit_timestamp: NtpTimestamp,
}

/// The number that the 8 bits of `byte` stand for when the highest bit
/// counts as the sign.
pub open spec fn signed_8(byte: int) -> int {
    if byte >= 0x80 {
        byte - 0x100
    } else {
        byte
    }
}

/// The header that stands in the first 48 bytes of a packet: the leap
/// indicator in the two highest bits of the first byte and the mode in its
/// three lowest, the stratum in the second byte, the precision in the
/// fourth, and the three timestamps of the exchange in the last 24 bytes,
/// each the most significant byte first.
pub open spec fn header_of(bytes: Seq<u8>) -> NtpHeader {
    NtpHeader {
        leap: NtpLeapIndicator::spec_from_code(bytes[0] as int / 64),
        mode: NtpAssociationMode::spec_from_code(bytes[0] as int),
        stratum: bytes[1],
        precision: signed_8(bytes[3] as int) as i8,
        origin_timestamp: NtpTimestamp {
            timestamp: big_endian_value(bytes.subrange(24, 32)) as u64,
        },
        receive_timestamp: NtpTimestamp {
            timestamp: big_endian_value(bytes.subrange(32, 40)) as u64,
        },
        transmit_timestamp: NtpTimestamp {
            timestamp: big_endian_value(bytes.subrange(40, 48)) as u64,
        },
    }
}

/// The timestamp in the eight bytes of `data` from `at` on.
fn timestamp_at(data: &[u8], at: usize) -> (r: NtpTimestamp)
    requires
        at + 8 <= data@.len(),
    ensures
        r@ == big_endian_value(data@.subrange(at as int, at + 8)),
{
    let bits: [u8; 8] = [
        data[at],
        data[at + 1],
        data[at + 2],
        data[at + 3],
        data[at + 4],
        data[at + 5],
        data[at + 6],
        data[at + 7],
    ];
    assert(bits@ =~= data@.subrange(at as int, at + 8));
    NtpTimestamp::from_bits(bits)
}

impl NtpHeader {
    /// The header of the packet `data`, see [`header_of`]; none if the
    /// packet is shorter than a header.
    pub fn deserialize(data: &[u8]) -> (r: Option<NtpHeader>)
        ensures
            r == if data@.len() < HEADER_SIZE {
                None
            } else {
                Some(header_of(data@))
            },
    {
        if data.len() < HEADER_SIZE {
            return None;
        }
        let first = data[0];
        let precision: i8 = if data[3] >= 0x80 {
            ((data[3] - 0x80) as i8) + i8::MIN
        } else {
            data[3] as i8
        };
        Some(
            NtpHeader {
                leap: NtpLeapIndicator::from_code((first / 64) as i32),
                mode: NtpAssociationMode::from_code(first),
                stratum: data[1],
                precision,
                origin_timestamp: timestamp_at(data, 24),
                receive_timestamp: timestamp_at(data, 32),
                transmit_timestamp: timestamp_at(data, 40),
            },
        )
    }
}

} // verus!
