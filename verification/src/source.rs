//! The decisions of the task that polls one server.
//!
//! The task waits for its timer, for a packet and for news of the system. It
//! hands what comes to the controller of the source, which answers with
//! actions: send a packet, tell the system, set the timer, give up. What
//! the task does with a received packet, with each action and with the
//! outcome of each operation on the socket is decided here; the waiting and
//! the operations themselves are the caller's.

use crate::system::{is_network_gone, raw_os_error, NetworkErrnos};
use crate::time_types::{era_units, NtpTimestamp};
use core::time::Duration;
use vstd::prelude::*;
use vstd::slice::slice_subrange;

verus! {

/// The seconds from the start of the first era of network time, in 1900,
/// to the start of the time of the operating system, in 1970.
pub const EPOCH_OFFSET: u32 = 2_208_988_800;

/// The length of the shortest packet that is looked at.
pub const MIN_PACKET_SIZE: usize = 48;

/// The name under which the system knows a source.
#[derive(Clone, Copy, Debug, PartialEq, Eq, PartialOrd, Ord, Hash, Structural)]
pub struct SourceId {
    pub id: u64,
}

impl SourceId {
    pub fn from_raw(id: u64) -> (r: Self)
        ensures
            r.id == id,
    {
        SourceId { id }
    }
}

/// What a source has learned from a packet, for the clock controller.
#[derive(Debug, Clone, PartialEq, Eq)]
pub struct NtpSourceUpdate<SourceMessage> {
    pub message: Option<SourceMessage>,
}

/// What a source without a return path has learned.
#[derive(Debug, Clone, PartialEq, Eq)]
pub struct OneWaySourceUpdate<SourceMessage> {
    pub message: Option<SourceMessage>,
}

/// What a reference clock on a local socket has learned.
#[derive(Debug, Clone, PartialEq, Eq)]
pub struct SockSourceUpdate<SourceMessage> {
    pub message: Option<SourceMessage>,
}

/// What a task tells the system.
#[derive(Debug, Clone, PartialEq, Eq)]
pub enum MsgForSystem<SourceMessage> {
    /// The server has asked not to be polled any more.
    MustDemobilize(SourceId),
    /// The network is gone; the source must be started again.
    NetworkIssue(SourceId),
    /// The server does not answer; the source should be started again at
    /// an address that is resolved anew.
    Unreachable(SourceId),
    /// News of a source.
    SourceUpdate(SourceId, NtpSourceUpdate<SourceMessage>),
    /// News of a source without a return path.
    OneWaySourceUpdate(SourceId, OneWaySourceUpdate<SourceMessage>),
    /// News of a reference clock on a local socket.
    SockSourceUpdate(SourceId, SockSourceUpdate<SourceMessage>),
}

/// What the controller of a source asks the task to do.
#[derive(Debug, PartialEq, Eq)]
pub enum NtpSourceAction<SourceMessage> {
    /// Send these bytes to the server.
    Send(Vec<u8>),
    /// Hand this on to the system.
    UpdateSystem(NtpSourceUpdate<SourceMessage>),
    /// Wake the controller after this time.
    SetTimer(Duration),
    /// Give the source up as unreachable.
    Reset,
    /// Give the source up for good.
    Demobilize,
}

/// A time as the operating system stamps it on a packet: seconds and
/// nanoseconds since 1970.
#[derive(Clone, Copy, Debug, PartialEq, Eq, Structural)]
pub struct NetTimestamp {
    pub seconds: i64,
    pub nanos: u32,
}

/// The second of its era in which the operating system's second `seconds`
/// lies.
pub open spec fn era_seconds(seconds: int) -> int {
    (seconds + EPOCH_OFFSET as int) % 0x1_0000_0000
}

/// The timestamp of the instant that the operating system calls `timestamp`.
pub fn convert_net_timestamp(timestamp: NetTimestamp) -> (r: NtpTimestamp)
    requires
        timestamp.nanos < 1_000_000_000,
    ensures
        r@ == era_units(era_seconds(timestamp.seconds as int), timestamp.nanos as int),
{
    let shifted: i128 = timestamp.seconds as i128 + EPOCH_OFFSET as i128;
    let remainder: i128 = shifted % 0x1_0000_0000;
    let seconds: i128 = if remainder < 0 {
        remainder + 0x1_0000_0000
    } else {
        remainder
    };
    assert(seconds == era_seconds(timestamp.seconds as int));
    NtpTimestamp::from_seconds_nanos_since_ntp_era(seconds as u32, timestamp.nanos)
}

/// What came of waiting for a packet: how many bytes, and when the
/// operating system saw them arrive, if it has said so.
#[derive(Clone, Copy, Debug, PartialEq, Eq, Structural)]
pub struct Received {
    pub bytes_read: usize,
    pub timestamp: Option<NetTimestamp>,
}

/// What the task makes of a packet, or of the failure to receive one.
#[derive(Debug, PartialEq, Eq)]
pub enum AcceptResult<'a> {
    /// The packet and the time of its arrival.
    Accept(&'a [u8], NtpTimestamp),
    Ignore,
    NetworkGone,
}

/// The time at which a packet arrived: as the operating system stamped it,
/// or else `substitute`.
pub open spec fn arrival_units(received: Received, substitute: Option<NtpTimestamp>) -> int {
    match received.timestamp {
        Some(timestamp) => era_units(
            era_seconds(timestamp.seconds as int),
            timestamp.nanos as int,
        ),
        None => substitute->0@,
    }
}

/// What the task makes of a packet that was received into the front of
/// `buf`. One of fewer than 48 bytes is ignored. Else the packet is accepted
/// with the time at which it arrived, see [`arrival_units`].
///
/// `substitute` is the time of the local clock, which the caller must have
/// if the operating system gave no time.
pub fn accept_received<'a>(
    received: Received,
    buf: &'a [u8],
    substitute: Option<NtpTimestamp>,
) -> (r: AcceptResult<'a>)
    requires
        received.bytes_read <= buf@.len(),
        received.timestamp is None ==> substitute is Some,
        received.timestamp matches Some(timestamp) ==> timestamp.nanos < 1_000_000_000,
    ensures
        received.bytes_read < MIN_PACKET_SIZE ==> r is Ignore,
        received.bytes_read >= MIN_PACKET_SIZE ==> (r matches AcceptResult::Accept(packet, time)
            && packet@ == buf@.subrange(0, received.bytes_read as int) && time@ == arrival_units(
            received,
            substitute,
        )),
{
    let recv_timestamp = match received.timestamp {
        Some(timestamp) => convert_net_timestamp(timestamp),
        None => match substitute {
            Some(now) => now,
            None => NtpTimestamp::zero(),
        },
    };
    if received.bytes_read < MIN_PACKET_SIZE {
        AcceptResult::Ignore
    } else {
        AcceptResult::Accept(slice_subrange(buf, 0, received.bytes_read), recv_timestamp)
    }
}

/// What the task makes of a failure with the error number `code`: the
/// network is gone if the number says so, else the failure is ignored.
pub fn accept_failure<'a>(code: Option<i32>, errnos: NetworkErrnos) -> (r: AcceptResult<'a>)
    ensures
        is_network_gone(code, errnos) ==> r is NetworkGone,
        !is_network_gone(code, errnos) ==> r is Ignore,
{
    if is_network_gone(code, errnos) {
        AcceptResult::NetworkGone
    } else {
        AcceptResult::Ignore
    }
}

/// What the task makes of the outcome of waiting for a packet, see
/// [`accept_received`] and [`accept_failure`].
///
/// Of a failure this function itself asks the error for its number and the
/// platform for the numbers that count, so all that is known here of a
/// failure is that no packet is accepted.
pub fn accept_packet<'a>(
    result: Result<Received, std::io::Error>,
    buf: &'a [u8],
    substitute: Option<NtpTimestamp>,
) -> (r: AcceptResult<'a>)
    requires
        result matches Ok(received) ==> received.bytes_read <= buf@.len() && (
        received.timestamp is None ==> substitute is Some) && (received.timestamp matches Some(
            timestamp,
        ) ==> timestamp.nanos < 1_000_000_000),
    ensures
        result matches Ok(received) ==> (received.bytes_read < MIN_PACKET_SIZE ==> r is Ignore)
            && (received.bytes_read >= MIN_PACKET_SIZE ==> (r matches AcceptResult::Accept(
            packet,
            time,
        ) && packet@ == buf@.subrange(0, received.bytes_read as int) && time@ == arrival_units(
            received,
            substitute,
        ))),
        result is Err ==> r is Ignore || r is NetworkGone,
{
    match result {
        Ok(received) => accept_received(received, buf, substitute),
        Err(receive_error) => accept_failure(
            raw_os_error(&receive_error),
            NetworkErrnos::platform(),
        ),
    }
}

/// Whether a socket could be opened.
#[derive(Clone, Copy, Debug, PartialEq, Eq, Structural)]
pub enum SocketResult {
    Open,
    Abort,
}

/// What the task does next.
#[derive(Debug, PartialEq, Eq)]
pub enum Step<SourceMessage> {
    /// Go on with the next action, or wait again if there is none.
    Continue,
    /// Open the socket if there is none, note the time, and send these bytes.
    Transmit(Vec<u8>),
    /// Tell the system and go on. A message that cannot be delivered is
    /// dropped.
    Notify(MsgForSystem<SourceMessage>),
    /// Set the timer to go off after this time; leave it alone if that
    /// instant cannot be told.
    ArmTimer(Duration),
    /// Tell the system, take the snapshot of the source away, and end.
    Stop(MsgForSystem<SourceMessage>),
    /// End the whole process with this exit code.
    Exit(i32),
}

/// What the task does with a packet it was handed.
#[derive(Debug, PartialEq, Eq)]
pub enum Incoming<'a> {
    /// Hand the packet to the controller, with the time at which the
    /// request was sent and the time at which the answer came.
    Handle { packet: &'a [u8], send_timestamp: NtpTimestamp, recv_timestamp: NtpTimestamp },
    /// Do nothing.
    Discard,
    /// The network is gone: report it and end.
    NetworkGone,
}

/// What the task of one source remembers between its steps.
#[derive(Clone, Copy, Debug, PartialEq, Eq, Structural)]
pub struct SourceTask {
    pub index: SourceId,
    /// When the last request was sent. The packet itself does not carry
    /// that time, so that the network does not learn the local clock.
    pub last_send_timestamp: Option<NtpTimestamp>,
}

impl SourceTask {
    /// A task that has sent nothing yet.
    pub fn new(index: SourceId) -> (r: Self)
        ensures
            r.index == index,
            r.last_send_timestamp is None,
    {
        SourceTask { index, last_send_timestamp: None }
    }

    /// What to do with what [`accept_packet`] made of a packet: an accepted
    /// packet goes to the controller if a request is outstanding, and is
    /// dropped if none was ever sent.
    pub fn incoming<'a>(&self, accepted: AcceptResult<'a>) -> (r: Incoming<'a>)
        ensures
            match accepted {
                AcceptResult::Accept(packet, recv_timestamp) => match self.last_send_timestamp {
                    Some(send_timestamp) => r == (Incoming::Handle {
                        packet,
                        send_timestamp,
                        recv_timestamp,
                    }),
                    None => r is Discard,
                },
                AcceptResult::Ignore => r is Discard,
                AcceptResult::NetworkGone => r is NetworkGone,
            },
    {
        match accepted {
            AcceptResult::Accept(packet, recv_timestamp) => match self.last_send_timestamp {
                Some(send_timestamp) => Incoming::Handle { packet, send_timestamp, recv_timestamp },
                None => Incoming::Discard,
            },
            AcceptResult::Ignore => Incoming::Discard,
            AcceptResult::NetworkGone => Incoming::NetworkGone,
        }
    }

    /// The message by which the task reports that the network is gone.
    pub fn network_issue<SourceMessage>(&self) -> (r: MsgForSystem<SourceMessage>)
        ensures
            r == MsgForSystem::<SourceMessage>::NetworkIssue(self.index),
    {
        MsgForSystem::NetworkIssue(self.index)
    }

    /// What to do with an action of the controller.
    pub fn plan<SourceMessage>(&self, action: NtpSourceAction<SourceMessage>) -> (r: Step<
        SourceMessage,
    >)
        ensures
            r == match action {
                NtpSourceAction::Send(packet) => Step::Transmit(packet),
                NtpSourceAction::UpdateSystem(update) => Step::Notify(
                    MsgForSystem::SourceUpdate(self.index, update),
                ),
                NtpSourceAction::SetTimer(timeout) => Step::ArmTimer(timeout),
                NtpSourceAction::Reset => Step::Stop(MsgForSystem::Unreachable(self.index)),
                NtpSourceAction::Demobilize => Step::Stop(
                    MsgForSystem::MustDemobilize(self.index),
                ),
            },
    {
        match action {
            NtpSourceAction::Send(packet) => Step::Transmit(packet),
            NtpSourceAction::UpdateSystem(update) => Step::Notify(
                MsgForSystem::SourceUpdate(self.index, update),
            ),
            NtpSourceAction::SetTimer(timeout) => Step::ArmTimer(timeout),
            NtpSourceAction::Reset => Step::Stop(MsgForSystem::Unreachable(self.index)),
            NtpSourceAction::Demobilize => Step::Stop(MsgForSystem::MustDemobilize(self.index)),
        }
    }

    /// What to do once the socket was asked for: without one the network
    /// counts as gone.
    pub fn socket_ready<SourceMessage>(&self, result: SocketResult) -> (r: Step<SourceMessage>)
        ensures
            r == match result {
                SocketResult::Open => Step::<SourceMessage>::Continue,
                SocketResult::Abort => Step::Stop(MsgForSystem::NetworkIssue(self.index)),
            },
    {
        match result {
            SocketResult::Open => Step::Continue,
            SocketResult::Abort => Step::Stop(MsgForSystem::NetworkIssue(self.index)),
        }
    }

    /// Notes the time of the local clock, `now`, as the time of the request
    /// that is about to be sent. Without that time no answer could be
    /// used, and the process ends.
    pub fn stamp_request<SourceMessage>(&mut self, now: Option<NtpTimestamp>) -> (r: Step<
        SourceMessage,
    >)
        ensures
            final(self).index == old(self).index,
            match now {
                Some(time) => final(self).last_send_timestamp == Some(time) && r
                    == Step::<SourceMessage>::Continue,
                None => *final(self) == *old(self) && r == Step::<SourceMessage>::Exit(
                    crate::system::NOPERM,
                ),
            },
    {
        match now {
            Some(time) => {
                self.last_send_timestamp = Some(time);
                Step::Continue
            },
            None => Step::Exit(crate::system::NOPERM),
        }
    }

    /// Takes note that the request was sent. If the operating system says
    /// when, that time replaces the one that was noted before.
    pub fn sent(&mut self, send_timestamp: Option<NetTimestamp>)
        requires
            send_timestamp matches Some(timestamp) ==> timestamp.nanos < 1_000_000_000,
        ensures
            final(self).index == old(self).index,
            match send_timestamp {
                Some(timestamp) => final(self).last_send_timestamp matches Some(time) && time@
                    == era_units(era_seconds(timestamp.seconds as int), timestamp.nanos as int),
                None => *final(self) == *old(self),
            },
    {
        match send_timestamp {
            Some(timestamp) => {
                self.last_send_timestamp = Some(convert_net_timestamp(timestamp));
            },
            None => {},
        }
    }

    /// What to do when the request could not be sent, with the error
    /// number `code`: end if the network is gone, else go on.
    pub fn send_failed<SourceMessage>(&self, code: Option<i32>, errnos: NetworkErrnos) -> (r: Step<
        SourceMessage,
    >)
        ensures
            r == if is_network_gone(code, errnos) {
                Step::<SourceMessage>::Stop(MsgForSystem::NetworkIssue(self.index))
            } else {
                Step::Continue
            },
    {
        if is_network_gone(code, errnos) {
            Step::Stop(MsgForSystem::NetworkIssue(self.index))
        } else {
            Step::Continue
        }
    }

    /// Takes note of the outcome of sending a request, see
    /// [`SourceTask::sent`] and [`SourceTask::send_failed`].
    ///
    /// Of a failure this function itself asks the error for its number and
    /// the platform for the numbers that count, so all that is known here
    /// of a failure is that the task goes on or reports the network as gone.
    pub fn after_send<SourceMessage>(
        &mut self,
        result: Result<Option<NetTimestamp>, std::io::Error>,
    ) -> (r: Step<SourceMessage>)
        requires
            result matches Ok(Some(timestamp)) ==> timestamp.nanos < 1_000_000_000,
        ensures
            final(self).index == old(self).index,
            match result {
                Ok(Some(timestamp)) => r == Step::<SourceMessage>::Continue && (final(self)
                    .last_send_timestamp matches Some(time) && time@ == era_units(
                    era_seconds(timestamp.seconds as int),
                    timestamp.nanos as int,
                )),
                Ok(None) => r == Step::<SourceMessage>::Continue && *final(self) == *old(self),
                Err(_) => *final(self) == *old(self) && (r == Step::<SourceMessage>::Continue || r
                    == Step::<SourceMessage>::Stop(MsgForSystem::NetworkIssue(old(self).index))),
            },
    {
        match result {
            Ok(send_timestamp) => {
                self.sent(send_timestamp);
                Step::Continue
            },
            Err(error) => self.send_failed(raw_os_error(&error), NetworkErrnos::platform()),
        }
    }
}

/// The time that the controller asks for when a task starts, if the action
/// is to set the timer. A controller asks for nothing else then.
pub fn startup_timeout<SourceMessage>(action: NtpSourceAction<SourceMessage>) -> (r: Option<
    Duration,
>)
    ensures
        r == match action {
            NtpSourceAction::SetTimer(timeout) => Some(timeout),
            _ => None,
        },
{
    match action {
        NtpSourceAction::SetTimer(timeout) => Some(timeout),
        _ => None,
    }
}

} // verus!
