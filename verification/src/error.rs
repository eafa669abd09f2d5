//! Errors of the transport.

use crate::addr::SocketAddr;
use vstd::prelude::*;

verus! {

/// The broad class of an [`IoError`], in the terms of `std::io::ErrorKind`.
#[derive(Debug, Clone, Copy, PartialEq, Eq, Structural)]
pub enum ErrorKind {
    InvalidData,
    ConnectionReset,
    Other,
}

/// What went wrong at the edge between the transport and the bytes it was handed.
#[derive(Debug, Clone, Copy, PartialEq, Eq, Structural)]
pub enum IoError {
    /// A datagram without a known type byte.
    EmptyPacket,
    /// A SYN shorter than its conversation id.
    TruncatedSyn,
    /// A SYN_ACK shorter than its conversation id.
    TruncatedSynAck,
    /// A RESET shorter than its conversation id.
    TruncatedReset,
    /// A read or write on a closed session.
    SessionClosed,
    /// KCP refused a read.
    Kcp(KcpError),
}

impl IoError {
    /// The class that `IoError::kind` reports.
    pub open spec fn spec_kind(self) -> ErrorKind {
        match self {
            IoError::SessionClosed => ErrorKind::ConnectionReset,
            IoError::Kcp(_) => ErrorKind::Other,
            _ => ErrorKind::InvalidData,
        }
    }

    /// Malformed packets are invalid data, a closed session is a reset connection.
    pub fn kind(&self) -> (kind: ErrorKind)
        ensures
            kind == self.spec_kind(),
    {
        match self {
            IoError::EmptyPacket => ErrorKind::InvalidData,
            IoError::TruncatedSyn => ErrorKind::InvalidData,
            IoError::TruncatedSynAck => ErrorKind::InvalidData,
            IoError::TruncatedReset => ErrorKind::InvalidData,
            IoError::SessionClosed => ErrorKind::ConnectionReset,
            IoError::Kcp(_) => ErrorKind::Other,
        }
    }

    /// The text that goes with the error; an error of KCP has its own.
    pub fn message(&self) -> (text: Option<&'static str>)
        ensures
            text is None <==> *self is Kcp,
            *self == IoError::EmptyPacket ==> text->0@ == "empty packet"@,
            *self == IoError::TruncatedSyn ==> text->0@ == "truncated SYN"@,
            *self == IoError::TruncatedSynAck ==> text->0@ == "truncated SYN_ACK"@,
            *self == IoError::TruncatedReset ==> text->0@ == "truncated RESET"@,
            *self == IoError::SessionClosed ==> text->0@ == "session closed"@,
    {
        match self {
            IoError::EmptyPacket => Some("empty packet"),
            IoError::TruncatedSyn => Some("truncated SYN"),
            IoError::TruncatedSynAck => Some("truncated SYN_ACK"),
            IoError::TruncatedReset => Some("truncated RESET"),
            IoError::SessionClosed => Some("session closed"),
            IoError::Kcp(_) => None,
        }
    }
}

/// KCP protocol errors.
#[derive(Debug, Clone, Copy, PartialEq, Eq, Structural)]
pub enum KcpError {
    /// A segment of another conversation: expected, found.
    ConvInconsistent(u32, u32),
    InvalidMtu(usize),
    InvalidSegmentSize(usize),
    /// A segment whose payload is cut short: expected, found.
    InvalidSegmentDataSize(usize, usize),
    /// The output refused a frame.
    Output,
    NeedUpdate,
    RecvQueueEmpty,
    ExpectingFragment,
    UnsupportedCmd(u8),
    UserBufTooBig,
    UserBufTooSmall,
}

/// Errors returned by transport operations.
#[derive(Debug, Clone, Copy, PartialEq, Eq, Structural)]
pub enum Error {
    /// A datagram or a stream operation failed.
    Io(IoError),
    /// KCP protocol error.
    Kcp(KcpError),
    /// No session found for the requested peer address.
    SessionNotFound(SocketAddr),
    /// KCP retransmission limit reached: the peer is unreachable.
    DeadLink,
    /// The transport is shutting down and cannot accept new work.
    ShuttingDown,
    /// Event channel consumer is too slow; events were dropped.
    EventChannelLagged(u64),
    /// The session has been closed and cannot send data.
    SessionClosed,
}

pub type Result<T> = std::result::Result<T, Error>;

/// Malformed packets are invalid data, a closed session is a reset connection, and what KCP
/// refuses is neither.
pub proof fn law_error_kinds(err: IoError)
    ensures
        err.spec_kind() == ErrorKind::InvalidData <==> err == IoError::EmptyPacket || err
            == IoError::TruncatedSyn || err == IoError::TruncatedSynAck || err
            == IoError::TruncatedReset,
        err.spec_kind() == ErrorKind::ConnectionReset <==> err == IoError::SessionClosed,
        err.spec_kind() == ErrorKind::Other <==> err is Kcp,
{
}

} // verus!
