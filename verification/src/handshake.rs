//! The first message of a client: a length prefix, then a body that holds
//! the packet id, the protocol version and the hostname asked for.

use crate::error::ProxyError;
use crate::varint::{decode, read_varint_from_slice, VarintFault};
use vstd::prelude::*;
use vstd::slice::slice_subrange;
use vstd::utf8::{decode_utf8, valid_utf8};

verus! {

/// The packet id of a handshake.
pub const HANDSHAKE_PACKET_ID: i32 = 0;

/// The text that lossy UTF-8 decoding makes of `bytes` where they are not
/// valid UTF-8: each invalid sequence gives way to a replacement character.
pub uninterp spec fn lossy_utf8(bytes: Seq<u8>) -> Seq<char>;

/// The hostname that `bytes` spell: their UTF-8 decoding where they are
/// valid UTF-8, the lossy one where they are not.
pub open spec fn hostname_text(bytes: Seq<u8>) -> Seq<char> {
    if valid_utf8(bytes) {
        decode_utf8(bytes)
    } else {
        lossy_utf8(bytes)
    }
}

/// Calls `String::from_utf8_lossy` and takes the text as an owned string.
/// Not proved: that the text is a function of the bytes, and that for valid
/// UTF-8 it is the decoding of the bytes with nothing replaced.
#[verifier::external_body]
fn decode_lossy(bytes: &[u8]) -> (text: String)
    ensures
        !valid_utf8(bytes@) ==> text@ == lossy_utf8(bytes@),
        valid_utf8(bytes@) ==> text@ == decode_utf8(bytes@),
{
    String::from_utf8_lossy(bytes).into_owned()
}

/// A parsed handshake, with the bytes it was parsed from.
#[derive(Debug)]
pub struct HandshakeMessage {
    /// The length prefix and the body, as the client sent them.
    pub raw_bytes: Vec<u8>,
    pub packet_id: i32,
    pub protocol_version: i32,
    pub hostname: String,
}

/// What a `HandshakeMessage` holds.
pub struct HandshakeView {
    pub raw_bytes: Seq<u8>,
    pub packet_id: i32,
    pub protocol_version: i32,
    pub hostname: Seq<char>,
}

impl View for HandshakeMessage {
    type V = HandshakeView;

    open spec fn view(&self) -> HandshakeView {
        HandshakeView {
            raw_bytes: self.raw_bytes@,
            packet_id: self.packet_id,
            protocol_version: self.protocol_version,
            hostname: self.hostname@,
        }
    }
}

/// The length of the body that the length prefix `prefix` announces. A
/// length that does not fit in 31 bits is too long.
pub open spec fn frame_length(prefix: Seq<u8>) -> Result<usize, ProxyError> {
    match decode(prefix) {
        Err(fault) => Err(ProxyError::MalformedVarint(fault)),
        Ok((length, _)) => if length < 0 {
            Err(ProxyError::MalformedVarint(VarintFault::TooLong))
        } else {
            Ok(length as usize)
        },
    }
}

/// The handshake that the length prefix `prefix` and the body `body` hold.
/// The body is read front to back: the packet id, which must be zero; the
/// protocol version; the hostname's length; the hostname. What follows the
/// hostname is not looked at.
pub open spec fn parse_message(prefix: Seq<u8>, body: Seq<u8>) -> Result<
    HandshakeView,
    ProxyError,
> {
    match decode(body) {
        Err(fault) => Err(ProxyError::MalformedVarint(fault)),
        Ok((packet_id, n1)) => if packet_id != HANDSHAKE_PACKET_ID {
            Err(ProxyError::UnexpectedPacketType)
        } else {
            let after_id = body.skip(n1);
            match decode(after_id) {
                Err(fault) => Err(ProxyError::MalformedVarint(fault)),
                Ok((protocol_version, n2)) => {
                    let after_version = after_id.skip(n2);
                    match decode(after_version) {
                        Err(fault) => Err(ProxyError::MalformedVarint(fault)),
                        Ok((length, n3)) => {
                            let rest = after_version.skip(n3);
                            if length < 0 || length > rest.len() {
                                Err(ProxyError::TruncatedHostname)
                            } else {
                                Ok(
                                    HandshakeView {
                                        raw_bytes: prefix + body,
                                        packet_id,
                                        protocol_version,
                                        hostname: hostname_text(rest.take(length as int)),
                                    },
                                )
                            }
                        },
                    }
                },
            }
        },
    }
}

/// Decodes the length prefix of a message.
pub fn body_length(prefix: &[u8]) -> (r: Result<usize, ProxyError>)
    ensures
        r == frame_length(prefix@),
{
    match read_varint_from_slice(prefix) {
        Err(fault) => Err(ProxyError::MalformedVarint(fault)),
        Ok((length, _)) => {
            if length < 0 {
                Err(ProxyError::MalformedVarint(VarintFault::TooLong))
            } else {
                Ok(length as usize)
            }
        },
    }
}

impl HandshakeMessage {
    /// Parses the body of a handshake and keeps, unchanged, the bytes of the
    /// length prefix and of the body.
    pub fn parse(prefix: &[u8], body: &[u8]) -> (r: Result<HandshakeMessage, ProxyError>)
        ensures
            match parse_message(prefix@, body@) {
                Ok(view) => r matches Ok(message) && message@ == view,
                Err(e) => r matches Err(got) && got == e,
            },
    {
        let (packet_id, n1) = match read_varint_from_slice(body) {
            Ok(pair) => pair,
            Err(fault) => {
                return Err(ProxyError::MalformedVarint(fault));
            },
        };
        if packet_id != HANDSHAKE_PACKET_ID {
            return Err(ProxyError::UnexpectedPacketType);
        }
        let after_id = slice_subrange(body, n1, body.len());
        let (protocol_version, n2) = match read_varint_from_slice(after_id) {
            Ok(pair) => pair,
            Err(fault) => {
                return Err(ProxyError::MalformedVarint(fault));
            },
        };
        let after_version = slice_subrange(after_id, n2, after_id.len());
        let (length, n3) = match read_varint_from_slice(after_version) {
            Ok(pair) => pair,
            Err(fault) => {
                return Err(ProxyError::MalformedVarint(fault));
            },
        };
        let rest = slice_subrange(after_version, n3, after_version.len());
        if length < 0 || length as usize > rest.len() {
            return Err(ProxyError::TruncatedHostname);
        }
        let hostname = decode_lossy(slice_subrange(rest, 0, length as usize));
        let mut raw_bytes: Vec<u8> = Vec::new();
        raw_bytes.extend_from_slice(prefix);
        raw_bytes.extend_from_slice(body);
        assert(raw_bytes@ =~= prefix@ + body@);
        Ok(HandshakeMessage { raw_bytes, packet_id, protocol_version, hostname })
    }
}

/// A body whose packet id is not zero is no handshake, whatever follows the
/// packet id.
pub proof fn lemma_nonzero_packet_id_is_refused(prefix: Seq<u8>, body: Seq<u8>)
    requires
        decode(body) matches Ok((packet_id, _)) && packet_id != HANDSHAKE_PACKET_ID,
    ensures
        parse_message(prefix, body) == Err::<HandshakeView, ProxyError>(
            ProxyError::UnexpectedPacketType,
        ),
{
}

/// A parsed handshake keeps the bytes it was parsed from: the length prefix,
/// then the body, none changed.
pub proof fn lemma_raw_bytes_are_verbatim(prefix: Seq<u8>, body: Seq<u8>)
    ensures
        parse_message(prefix, body) matches Ok(view) ==> view.raw_bytes == prefix + body,
{
}

} // verus!
