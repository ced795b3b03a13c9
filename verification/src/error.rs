//! The ways in which a connection fails.

use crate::varint::VarintFault;
use vstd::prelude::*;

verus! {

/// Why a connection was given up.
#[derive(Clone, Copy, Debug, PartialEq, Eq, Structural)]
pub enum ProxyError {
    /// A varint of the handshake is cut short or too long.
    MalformedVarint(VarintFault),
    /// The first message is not a handshake: its packet id is not zero.
    UnexpectedPacketType,
    /// The hostname is declared longer than what is left of the message.
    TruncatedHostname,
    /// Reading from or writing to a socket failed.
    IoError,
    /// The backend could not be connected to.
    BackendUnreachable,
}

impl ProxyError {
    /// The text that describes the error in a log line.
    pub open spec fn spec_message(self) -> Seq<char> {
        match self {
            ProxyError::MalformedVarint(VarintFault::UnexpectedEof) => "Varint EOF"@,
            ProxyError::MalformedVarint(VarintFault::TooLong) => "VarInt too big"@,
            ProxyError::UnexpectedPacketType => "Not handshake"@,
            ProxyError::TruncatedHostname => "Invalid hostname length"@,
            ProxyError::IoError => "I/O error"@,
            ProxyError::BackendUnreachable => "Backend unreachable"@,
        }
    }

    /// The text that describes the error in a log line.
    pub fn message(&self) -> (text: &'static str)
        ensures
            text@ == self.spec_message(),
    {
        match self {
            ProxyError::MalformedVarint(VarintFault::UnexpectedEof) => "Varint EOF",
            ProxyError::MalformedVarint(VarintFault::TooLong) => "VarInt too big",
            ProxyError::UnexpectedPacketType => "Not handshake",
            ProxyError::TruncatedHostname => "Invalid hostname length",
            ProxyError::IoError => "I/O error",
            ProxyError::BackendUnreachable => "Backend unreachable",
        }
    }
}

} // verus!
