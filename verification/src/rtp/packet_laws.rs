//! Where each field of an RTP packet stands in its datagram, and which datagrams are none.

use vstd::prelude::*;

use crate::rtp::buffer::{be16, be32, contents};
use crate::rtp::packet::{
    parse_packet, RtpPacket, RtpPacketParseError, RtpPayloadType, CSRC_COUNT_MASK, EXTENSION_BIT,
    MARKER_BIT, PADDING_BIT, PAYLOAD_TYPE_MASK, RTP_VERSION, VERSION_MASK,
};

verus! {

proof fn lemma_bits(b: u8)
    ensures
        b & VERSION_MASK == b - b % 64,
        (b & VERSION_MASK == RTP_VERSION) == (b / 64 == 2),
        (b & PADDING_BIT == PADDING_BIT) == ((b / 32) % 2 == 1),
        (b & EXTENSION_BIT == EXTENSION_BIT) == ((b / 16) % 2 == 1),
        b & CSRC_COUNT_MASK == b % 16,
        (b & MARKER_BIT == MARKER_BIT) == (b >= 128),
        b & PAYLOAD_TYPE_MASK == b % 128,
{
    assert(b & 0xc0u8 == b - b % 64) by (bit_vector);
    assert((b & 0xc0u8 == 0x80u8) == (b / 64 == 2)) by (bit_vector);
    assert((b & 0x20u8 == 0x20u8) == ((b / 32) % 2 == 1)) by (bit_vector);
    assert((b & 0x10u8 == 0x10u8) == ((b / 16) % 2 == 1)) by (bit_vector);
    assert(b & 0x0fu8 == b % 16) by (bit_vector);
    assert((b & 0x80u8 == 0x80u8) == (b >= 128)) by (bit_vector);
    assert(b & 0x7fu8 == b % 128) by (bit_vector);
}

/// The fixed header: from the first byte the padding and extension flags and the number of sources,
/// from the second the marker and the payload type, and behind them sequence number, timestamp and
/// source, each most significant byte first.
pub proof fn lemma_fixed_header(b: Seq<u8>)
    ensures
        parse_packet(b) matches Ok(p) ==> {
            &&& b.len() >= 12
            &&& b[0] / 64 == 2
            &&& (p.padding is Some) == ((b[0] / 32) % 2 == 1)
            &&& (p.extension_header is Some) == ((b[0] / 16) % 2 == 1)
            &&& p.csrc_count == b[0] % 16
            &&& p.has_marker == (b[1] >= 128)
            &&& p.payload_type == RtpPayloadType::Unknown((b[1] % 128) as u8)
            &&& p.sequence_number == 256 * b[2] + b[3]
            &&& p.timestamp == 0x100_0000 * b[4] + 0x1_0000 * b[5] + 0x100 * b[6] + b[7]
            &&& p.ssrc == 0x100_0000 * b[8] + 0x1_0000 * b[9] + 0x100 * b[10] + b[11]
        },
{
    if b.len() >= 12 {
        lemma_bits(b[0]);
        lemma_bits(b[1]);
        assert(be16(b, 2) == 256 * b[2] + b[3]);
        assert(be32(b, 4) == 0x100_0000 * b[4] + 0x1_0000 * b[5] + 0x100 * b[6] + b[7]);
        assert(be32(b, 8) == 0x100_0000 * b[8] + 0x1_0000 * b[9] + 0x100 * b[10] + b[11]);
    }
}

/// The contributing sources follow the fixed header, four bytes each; the list has fifteen entries,
/// and those that the packet does not carry are zero.
pub proof fn lemma_sources(b: Seq<u8>, i: int)
    requires
        0 <= i < 15,
    ensures
        parse_packet(b) matches Ok(p) ==> {
            let at = 12 + 4 * i;
            &&& p.csrc_list.len() == 15
            &&& i < b[0] % 16 ==> at + 4 <= b.len() && p.csrc_list[i] == 0x100_0000 * b[at]
                + 0x1_0000 * b[at + 1] + 0x100 * b[at + 2] + b[at + 3]
            &&& i >= b[0] % 16 ==> p.csrc_list[i] == 0
        },
{
    if b.len() >= 12 {
        lemma_bits(b[0]);
        let at = 12 + 4 * i;
        assert(be32(b, at) == 0x100_0000 * b[at] + 0x1_0000 * b[at + 1] + 0x100 * b[at + 2] + b[at
            + 3]);
    }
}

/// What follows the sources is the payload. With an extension header it is an identifier, a length,
/// as many bytes of payload, and the contents of the header. The padding size is the last byte.
pub proof fn lemma_rest_of_the_packet(b: Seq<u8>)
    ensures
        parse_packet(b) matches Ok(p) ==> {
            let at = 12 + 4 * (b[0] % 16);
            let length = 256 * b[at + 2] + b[at + 3];
            &&& at <= b.len()
            &&& (p.padding matches Some(size) ==> at < b.len() && size == b[b.len() - 1])
            &&& (p.extension_header is None ==> p.payload == b.skip(at))
            &&& (p.extension_header matches Some((id, header)) ==> {
                &&& at + 4 + length <= b.len()
                &&& id == 256 * b[at] + b[at + 1]
                &&& p.payload == b.subrange(at + 4, at + 4 + length)
                &&& header == b.skip(at + 4 + length)
            })
        },
{
    if b.len() >= 12 {
        lemma_bits(b[0]);
        let at = 12 + 4 * (b[0] % 16);
        if at <= b.len() {
            let body = b.skip(at);
            if body.len() >= 4 {
                let length = 256 * b[at + 2] + b[at + 3];
                assert(be16(body, 0) == 256 * b[at] + b[at + 1]);
                assert(be16(body, 2) == length);
                if body.len() >= 4 + length {
                    assert(body.subrange(4, 4 + length) =~= b.subrange(at + 4, at + 4 + length));
                    assert(body.skip(4 + length) =~= b.skip(at + 4 + length));
                }
            }
        }
    }
}

/// Which datagrams are no packets, and why: too short for the fixed header, of another version, too
/// short for the sources, without a byte for the padding size, or too short for the extension
/// header. Every other datagram is a packet.
pub proof fn lemma_packet_errors(b: Seq<u8>)
    ensures
        ({
            let at = 12 + 4 * (b[0] % 16);
            let padded = (b[0] / 32) % 2 == 1;
            let extended = (b[0] / 16) % 2 == 1;
            let cut = b.len() < at + 4 || b.len() < at + 4 + 256 * b[at + 2] + b[at + 3];
            match parse_packet(b) {
                Err(RtpPacketParseError::InsufficientHeaderSize(size)) => b.len() < 12 && size
                    == b.len(),
                Err(RtpPacketParseError::InvalidVersion(version)) => b.len() >= 12 && b[0] / 64 != 2
                    && version == b[0] - b[0] % 64,
                Err(RtpPacketParseError::InvalidCsrcIdCount(count)) => b.len() >= 12 && b[0] / 64
                    == 2 && b.len() < at && count == b[0] % 16,
                Err(RtpPacketParseError::NoPaddingSize) => b.len() >= 12 && b[0] / 64 == 2
                    && b.len() == at && padded,
                Err(RtpPacketParseError::InvalidExtensionHeader) => b.len() >= 12 && b[0] / 64 == 2
                    && b.len() >= at && !(padded && b.len() == at) && extended && cut,
                Ok(_) => b.len() >= 12 && b[0] / 64 == 2 && b.len() >= at && !(padded && b.len()
                    == at) && !(extended && cut),
            }
        }),
{
    if b.len() >= 12 {
        lemma_bits(b[0]);
        let at = 12 + 4 * (b[0] % 16);
        if at <= b.len() {
            let body = b.skip(at);
            if body.len() >= 4 {
                assert(be16(body, 2) == 256 * b[at + 2] + b[at + 3]);
            }
        }
    }
}

/// A packet is seen with all that it holds.
pub proof fn lemma_packet_view(p: RtpPacket)
    ensures
        p@.padding == p.padding,
        p.extension_header matches Some(header) ==> p@.extension_header == Some(
            (header.id, contents(header.contents)),
        ),
        p.extension_header is None ==> p@.extension_header is None,
        p@.has_marker == p.has_marker,
        p@.csrc_count == p.csrc_count,
        p@.payload_type == p.payload_type,
        p@.sequence_number == p.sequence_number,
        p@.timestamp == p.timestamp,
        p@.ssrc == p.ssrc,
        p@.csrc_list == p.csrc_list@,
        p@.payload == contents(p.payload),
{
}

} // verus!
