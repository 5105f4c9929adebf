//! RTP packets and their parser.

use bytes::Bytes;
use vstd::prelude::*;

use crate::rtp::buffer;
use crate::rtp::buffer::{be16, be32, contents};

verus! {

/// An RTP packet.
#[derive(Debug)]
pub struct RtpPacket {
    /// The size of padding at the end of the packet. If `None`, there is no padding.
    pub padding: Option<u8>,
    /// An extension header.
    pub extension_header: Option<ExtensionHeader>,
    pub has_marker: bool,
    /// How many entries of `csrc_list` the packet carries.
    pub csrc_count: usize,
    pub payload_type: RtpPayloadType,
    pub sequence_number: u16,
    pub timestamp: u32,
    pub ssrc: u32,
    /// The contributing sources. Entries from `csrc_count` on are zero.
    pub csrc_list: [u32; 15],
    pub payload: Bytes,
}

/// The extension header of an RTP packet.
#[derive(Debug)]
pub struct ExtensionHeader {
    pub id: u16,
    pub contents: Bytes,
}

/// The format of a packet's payload.
#[derive(Debug, Clone, Copy, PartialEq, Eq, Structural)]
pub enum RtpPayloadType {
    Unknown(u8),
}

impl From<u8> for RtpPayloadType {
    fn from(ty: u8) -> (r: Self) {
        RtpPayloadType::Unknown(ty)
    }
}

impl vstd::std_specs::convert::FromSpecImpl<u8> for RtpPayloadType {
    open spec fn obeys_from_spec() -> bool {
        true
    }

    open spec fn from_spec(ty: u8) -> Self {
        RtpPayloadType::Unknown(ty)
    }
}

/// Why a datagram is no RTP packet.
#[derive(Debug, Clone, Copy, PartialEq, Eq, Structural)]
pub enum RtpPacketParseError {
    /// The version bits, in place, are not those of version 2.
    InvalidVersion(u8),
    /// The datagram, of the given size, is shorter than the fixed header.
    InsufficientHeaderSize(u8),
    /// The datagram ends before the announced number of contributing sources.
    InvalidCsrcIdCount(u8),
    /// Padding is announced, and there is no byte to hold its size.
    NoPaddingSize,
    /// The datagram ends inside the extension header.
    InvalidExtensionHeader,
}

/// An RTP packet as plain values.
#[verifier::ext_equal]
pub struct PacketView {
    pub padding: Option<u8>,
    /// The identifier and the contents of the extension header.
    pub extension_header: Option<(u16, Seq<u8>)>,
    pub has_marker: bool,
    pub csrc_count: int,
    pub payload_type: RtpPayloadType,
    pub sequence_number: u16,
    pub timestamp: u32,
    pub ssrc: u32,
    pub csrc_list: Seq<u32>,
    pub payload: Seq<u8>,
}

impl View for RtpPacket {
    type V = PacketView;

    open spec fn view(&self) -> PacketView {
        PacketView {
            padding: self.padding,
            extension_header: match self.extension_header {
                Some(header) => Some((header.id, contents(header.contents))),
                None => None,
            },
            has_marker: self.has_marker,
            csrc_count: self.csrc_count as int,
            payload_type: self.payload_type,
            sequence_number: self.sequence_number,
            timestamp: self.timestamp,
            ssrc: self.ssrc,
            csrc_list: self.csrc_list@,
            payload: contents(self.payload),
        }
    }
}

/// The bits of the first byte that hold the version.
pub const VERSION_MASK: u8 = 0b1100_0000u8;

/// The bit of the first byte that announces padding.
pub const PADDING_BIT: u8 = 0b0010_0000u8;

/// The bit of the first byte that announces an extension header.
pub const EXTENSION_BIT: u8 = 0b0001_0000u8;

/// The bits of the first byte that hold the number of contributing sources.
pub const CSRC_COUNT_MASK: u8 = 0b0000_1111u8;

/// The marker bit of the second byte.
pub const MARKER_BIT: u8 = 0b1000_0000u8;

/// The bits of the second byte that hold the payload type.
pub const PAYLOAD_TYPE_MASK: u8 = 0b0111_1111u8;

/// Version 2, in place.
pub const RTP_VERSION: u8 = 0b1000_0000u8;

/// The size of the fixed header.
pub const MIN_SIZE: usize = 12;

/// The contributing sources that the datagram `b` carries, filled up with zeros.
pub open spec fn csrc_list(b: Seq<u8>, count: int) -> Seq<u32> {
    Seq::new(
        15,
        |i: int|
            if i < count {
                be32(b, 12 + 4 * i) as u32
            } else {
                0u32
            },
    )
}

/// What a datagram means. Where there is an extension header, its length field counts the bytes
/// of the payload, which come first, and the contents of the header are all that follows.
pub open spec fn parse_packet(b: Seq<u8>) -> Result<PacketView, RtpPacketParseError> {
    let count = (b[0] & CSRC_COUNT_MASK) as int;
    let body = b.skip(12 + 4 * count);
    let has_padding = b[0] & PADDING_BIT == PADDING_BIT;
    let has_extension_header = b[0] & EXTENSION_BIT == EXTENSION_BIT;
    let length = be16(body, 2);
    if b.len() < 12 {
        Err(RtpPacketParseError::InsufficientHeaderSize(b.len() as u8))
    } else if b[0] & VERSION_MASK != RTP_VERSION {
        Err(RtpPacketParseError::InvalidVersion(b[0] & VERSION_MASK))
    } else if b.len() < 12 + 4 * count {
        Err(RtpPacketParseError::InvalidCsrcIdCount(b[0] & CSRC_COUNT_MASK))
    } else if has_padding && body.len() == 0 {
        Err(RtpPacketParseError::NoPaddingSize)
    } else if has_extension_header && (body.len() < 4 || body.len() < 4 + length) {
        Err(RtpPacketParseError::InvalidExtensionHeader)
    } else {
        Ok(
            PacketView {
                padding: if has_padding {
                    Some(b.last())
                } else {
                    None
                },
                extension_header: if has_extension_header {
                    Some((be16(body, 0) as u16, body.skip(4 + length)))
                } else {
                    None
                },
                has_marker: b[1] & MARKER_BIT == MARKER_BIT,
                csrc_count: count,
                payload_type: RtpPayloadType::Unknown(b[1] & PAYLOAD_TYPE_MASK),
                sequence_number: be16(b, 2) as u16,
                timestamp: be32(b, 4) as u32,
                ssrc: be32(b, 8) as u32,
                csrc_list: csrc_list(b, count),
                payload: if has_extension_header {
                    body.subrange(4, 4 + length)
                } else {
                    body
                },
            },
        )
    }
}

impl vstd::std_specs::convert::TryFromSpecImpl<Bytes> for RtpPacket {
    open spec fn obeys_try_from_spec() -> bool {
        false
    }

    open spec fn try_from_spec(bytes: Bytes) -> Result<Self, RtpPacketParseError> {
        arbitrary()
    }
}

impl TryFrom<Bytes> for RtpPacket {
    type Error = RtpPacketParseError;

    fn try_from(bytes: Bytes) -> (r: Result<Self, RtpPacketParseError>)
        ensures
            match r {
                Ok(packet) => parse_packet(contents(bytes)) == Ok::<_, RtpPacketParseError>(
                    packet@,
                ),
                Err(error) => parse_packet(contents(bytes)) == Err::<PacketView, _>(error),
            },
    {
        let mut bytes = bytes;
        let ghost b = contents(bytes);
        if buffer::len(&bytes) < MIN_SIZE {
            return Err(RtpPacketParseError::InsufficientHeaderSize(buffer::len(&bytes) as u8));
        }
        let first_byte = buffer::get_u8(&mut bytes);
        let version = first_byte & VERSION_MASK;
        if version != RTP_VERSION {
            return Err(RtpPacketParseError::InvalidVersion(version));
        }
        let has_padding = first_byte & PADDING_BIT == PADDING_BIT;
        let has_extension_header = first_byte & EXTENSION_BIT == EXTENSION_BIT;
        let csrc_count: usize = (first_byte & CSRC_COUNT_MASK) as usize;
        assert(first_byte & 0b0000_1111u8 <= 15) by (bit_vector);

        let second_byte = buffer::get_u8(&mut bytes);
        let has_marker = second_byte & MARKER_BIT == MARKER_BIT;
        let payload_type = RtpPayloadType::from(second_byte & PAYLOAD_TYPE_MASK);

        let sequence_number = buffer::get_u16(&mut bytes);
        let timestamp = buffer::get_u32(&mut bytes);
        let ssrc = buffer::get_u32(&mut bytes);
        assert(contents(bytes) =~= b.skip(12));

        let mut sources: [u32; 15] = [0u32; 15];
        if buffer::len(&bytes) < csrc_count * 4 {
            return Err(RtpPacketParseError::InvalidCsrcIdCount(csrc_count as u8));
        }
        let mut i: usize = 0;
        while i < csrc_count
            invariant
                i <= csrc_count <= 15,
                b.len() >= 12 + 4 * csrc_count,
                contents(bytes) == b.skip(12 + 4 * i),
                sources@ == csrc_list(b, i as int),
            decreases csrc_count - i,
        {
            sources[i] = buffer::get_u32(&mut bytes);
            i += 1;
            assert(contents(bytes) =~= b.skip(12 + 4 * i));
            assert(sources@ =~= csrc_list(b, i as int));
        }
        let ghost body = contents(bytes);

        let padding = if has_padding {
            match buffer::last(&bytes) {
                Some(size) => Some(size),
                None => return Err(RtpPacketParseError::NoPaddingSize),
            }
        } else {
            None
        };
        let (extension_header, payload) = if has_extension_header {
            if buffer::len(&bytes) < 4 {
                return Err(RtpPacketParseError::InvalidExtensionHeader);
            }
            let id = buffer::get_u16(&mut bytes);
            let length: usize = buffer::get_u16(&mut bytes) as usize;
            assert(contents(bytes) =~= body.skip(4));
            if buffer::len(&bytes) < length {
                return Err(RtpPacketParseError::InvalidExtensionHeader);
            }
            let payload = buffer::split_to(&mut bytes, length);
            assert(contents(payload) =~= body.subrange(4, 4 + length));
            assert(contents(bytes) =~= body.skip(4 + length));
            (Some(ExtensionHeader { id, contents: bytes }), payload)
        } else {
            (None, bytes)
        };

        Ok(
            RtpPacket {
                padding,
                extension_header,
                has_marker,
                csrc_count,
                payload_type,
                sequence_number,
                timestamp,
                ssrc,
                csrc_list: sources,
                payload,
            },
        )
    }
}

} // verus!
