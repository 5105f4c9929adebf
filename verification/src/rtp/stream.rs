//! The stream of packets that a media socket yields.

use vstd::prelude::*;

use crate::rtp::buffer;
use crate::rtp::packet::{parse_packet, RtpPacket, RtpPacketParseError};

verus! {

/// What kept a socket from receiving, as far as the stream tells it apart.
#[derive(Debug, Clone, Copy, PartialEq, Eq, Structural)]
pub enum RecvErrorKind {
    NotConnected,
    ConnectionAborted,
    Other,
}

/// An error in a stream of packets; `E` is the error type of the socket.
#[derive(Debug)]
pub enum RtpStreamError<E> {
    /// A datagram was received that is no RTP packet.
    ParseError(RtpPacketParseError),
    /// The socket failed.
    Io(E),
}

/// The next item of a packet stream, given what the socket received: a packet or the reason why
/// the datagram is none, the end of the stream where the connection is gone, or the socket's
/// error.
pub fn stream_item<E>(received: Result<&[u8], (RecvErrorKind, E)>) -> (r: Option<
    Result<RtpPacket, RtpStreamError<E>>,
>)
    ensures
        match received {
            Ok(data) => match parse_packet(data@) {
                Ok(packet) => r matches Some(Ok(p)) && p@ == packet,
                Err(error) => r == Some(
                    Err::<RtpPacket, _>(RtpStreamError::<E>::ParseError(error)),
                ),
            },
            Err((RecvErrorKind::Other, error)) => r == Some(
                Err::<RtpPacket, _>(RtpStreamError::Io(error)),
            ),
            Err((_, _)) => r is None,
        },
{
    match received {
        Ok(data) => match RtpPacket::try_from(buffer::copy_from_slice(data)) {
            Ok(packet) => Some(Ok(packet)),
            Err(error) => Some(Err(RtpStreamError::ParseError(error))),
        },
        Err((kind, error)) => match kind {
            RecvErrorKind::NotConnected => None,
            RecvErrorKind::ConnectionAborted => None,
            RecvErrorKind::Other => Some(Err(RtpStreamError::Io(error))),
        },
    }
}

} // verus!
