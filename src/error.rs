//! The kinds of failure that operations report.
use vstd::prelude::*;

verus! {

#[derive(Clone, Copy, Debug, PartialEq, Eq, Structural)]
pub enum TcpError {
    /// No local address could be configured.
    ConfigMissing,
    /// The raw transport could not be opened.
    ChannelUnavailable,
    /// The connection identifier names no connection.
    UnknownStream,
    /// The connection is not in the `Established` state.
    NotEstablished,
    /// The peer did not complete the handshake within the retry ceiling.
    HandshakeTimeout,
    /// The close did not reach `TimeWait` within the retry ceiling.
    TeardownTimeout,
    /// A chunk of data was not acknowledged within the retry ceiling.
    SendTimeout,
    /// An inbound segment's checksum field does not match its contents.
    ChecksumMismatch,
    /// An inbound segment's sequence number fails the acceptance policy.
    InvalidSequence,
    /// Inbound bytes that do not hold a TCP segment.
    MalformedSegment,
}

impl TcpError {
    /// A short description of the failure.
    pub fn message(&self) -> &'static str {
        match self {
            TcpError::ConfigMissing => "missing local IP address",
            TcpError::ChannelUnavailable => "raw TCP channel unavailable",
            TcpError::UnknownStream => "stream was not found",
            TcpError::NotEstablished => "connection has not been established",
            TcpError::HandshakeTimeout => "tcp syn retry count exceeded",
            TcpError::TeardownTimeout => "fin retry limit exceeded",
            TcpError::SendTimeout => "senddata retry limit exceeded",
            TcpError::ChecksumMismatch => "checksum was not matched",
            TcpError::InvalidSequence => "unacceptable sequence number",
            TcpError::MalformedSegment => "malformed segment",
        }
    }
}

} // verus!
