//! The layout of an RTP packet, and that the parser reads it without loss.

use vstd::prelude::*;

use crate::rtp::buffer::{be16, be32};
use crate::rtp::packet::{
    csrc_list, parse_packet, PacketView, RtpPacketParseError, RtpPayloadType, CSRC_COUNT_MASK,
    EXTENSION_BIT, MARKER_BIT, PADDING_BIT, PAYLOAD_TYPE_MASK, RTP_VERSION, VERSION_MASK,
};

verus! {

/// A 16-bit integer, most significant byte first.
pub open spec fn u16_bytes(v: int) -> Seq<u8> {
    seq![(v / 256) as u8, (v % 256) as u8]
}

/// A 32-bit integer, most significant byte first.
pub open spec fn u32_bytes(v: int) -> Seq<u8> {
    u16_bytes(v / 65536) + u16_bytes(v % 65536)
}

/// The first byte of a packet: version, flags and number of contributing sources.
pub open spec fn first_byte(p: PacketView) -> u8 {
    let padding = if p.padding is Some {
        PADDING_BIT
    } else {
        0u8
    };
    let extension = if p.extension_header is Some {
        EXTENSION_BIT
    } else {
        0u8
    };
    RTP_VERSION | padding | extension | (p.csrc_count as u8)
}

/// The second byte of a packet: marker and payload type.
pub open spec fn second_byte(p: PacketView) -> u8 {
    let marker = if p.has_marker {
        MARKER_BIT
    } else {
        0u8
    };
    marker | p.payload_type->Unknown_0
}

/// What follows the contributing sources.
pub open spec fn body_bytes(p: PacketView) -> Seq<u8> {
    match p.extension_header {
        Some((id, header)) => u16_bytes(id as int) + u16_bytes(p.payload.len() as int) + p.payload
            + header,
        None => p.payload,
    }
}

/// The contributing sources that the packet carries.
pub open spec fn csrc_bytes(p: PacketView) -> Seq<u8> {
    Seq::new((4 * p.csrc_count) as nat, |i: int| u32_bytes(p.csrc_list[i / 4] as int)[i % 4])
}

/// The datagram of a packet.
pub open spec fn packet_bytes(p: PacketView) -> Seq<u8> {
    seq![first_byte(p), second_byte(p)] + u16_bytes(p.sequence_number as int) + u32_bytes(
        p.timestamp as int,
    ) + u32_bytes(p.ssrc as int) + csrc_bytes(p) + body_bytes(p)
}

/// A packet that a datagram can carry: every field fits, the unused entries of the source list
/// are zero, and the padding size is the last byte.
pub open spec fn well_formed(p: PacketView) -> bool {
    &&& 0 <= p.csrc_count <= 15
    &&& p.csrc_list.len() == 15
    &&& forall|i: int| p.csrc_count <= i < 15 ==> p.csrc_list[i] == 0
    &&& p.payload_type->Unknown_0 < 128
    &&& p.extension_header is Some ==> p.payload.len() < 65536
    &&& p.padding matches Some(size) ==> body_bytes(p).len() > 0 && body_bytes(p).last() == size
}

proof fn lemma_u16_bytes(s: Seq<u8>, i: int)
    requires
        0 <= i,
        i + 2 <= s.len(),
    ensures
        u16_bytes(be16(s, i)) == s.subrange(i, i + 2),
        0 <= be16(s, i) < 65536,
{
    assert(u16_bytes(be16(s, i)) =~= s.subrange(i, i + 2));
}

proof fn lemma_u32_bytes(s: Seq<u8>, i: int)
    requires
        0 <= i,
        i + 4 <= s.len(),
    ensures
        u32_bytes(be32(s, i)) == s.subrange(i, i + 4),
        0 <= be32(s, i) < 0x1_0000_0000,
{
    lemma_u16_bytes(s, i);
    lemma_u16_bytes(s, i + 2);
    assert(u32_bytes(be32(s, i)) =~= s.subrange(i, i + 4));
}

proof fn lemma_first_byte_bits(b: u8)
    requires
        b & VERSION_MASK == RTP_VERSION,
    ensures
        b & CSRC_COUNT_MASK <= 15,
        b == RTP_VERSION | (if b & PADDING_BIT == PADDING_BIT {
            PADDING_BIT
        } else {
            0u8
        }) | (if b & EXTENSION_BIT == EXTENSION_BIT {
            EXTENSION_BIT
        } else {
            0u8
        }) | (b & CSRC_COUNT_MASK),
{
    assert(b & 0xc0u8 == 0x80u8 ==> b & 0x0fu8 <= 15 && b == 0x80u8 | (if b & 0x20u8 == 0x20u8 {
        0x20u8
    } else {
        0u8
    }) | (if b & 0x10u8 == 0x10u8 {
        0x10u8
    } else {
        0u8
    }) | (b & 0x0fu8)) by (bit_vector);
}

proof fn lemma_second_byte_bits(b: u8)
    ensures
        b & PAYLOAD_TYPE_MASK < 128,
        b == (if b & MARKER_BIT == MARKER_BIT {
            MARKER_BIT
        } else {
            0u8
        }) | (b & PAYLOAD_TYPE_MASK),
{
    assert(b & 0x7fu8 < 128 && b == (if b & 0x80u8 == 0x80u8 {
        0x80u8
    } else {
        0u8
    }) | (b & 0x7fu8)) by (bit_vector);
}

proof fn lemma_first_byte_fields(padding: bool, extension: bool, count: u8)
    requires
        count <= 15,
    ensures
        ({
            let b = RTP_VERSION | (if padding {
                PADDING_BIT
            } else {
                0u8
            }) | (if extension {
                EXTENSION_BIT
            } else {
                0u8
            }) | count;
            &&& b & VERSION_MASK == RTP_VERSION
            &&& (b & PADDING_BIT == PADDING_BIT) == padding
            &&& (b & EXTENSION_BIT == EXTENSION_BIT) == extension
            &&& b & CSRC_COUNT_MASK == count
        }),
{
    assert(forall|p: u8, e: u8, c: u8|
        (p == 0x20u8 || p == 0u8) && (e == 0x10u8 || e == 0u8) && c <= 15 ==> {
            let b = #[trigger] (0x80u8 | p | e | c);
            &&& b & 0xc0u8 == 0x80u8
            &&& (b & 0x20u8 == 0x20u8) == (p == 0x20u8)
            &&& (b & 0x10u8 == 0x10u8) == (e == 0x10u8)
            &&& b & 0x0fu8 == c
        }) by (bit_vector);
}

proof fn lemma_second_byte_fields(marker: bool, payload_type: u8)
    requires
        payload_type < 128,
    ensures
        ({
            let b = (if marker {
                MARKER_BIT
            } else {
                0u8
            }) | payload_type;
            &&& (b & MARKER_BIT == MARKER_BIT) == marker
            &&& b & PAYLOAD_TYPE_MASK == payload_type
        }),
{
    assert(forall|m: u8, t: u8|
        (m == 0x80u8 || m == 0u8) && t < 128 ==> {
            let b = #[trigger] (m | t);
            &&& (b & 0x80u8 == 0x80u8) == (m == 0x80u8)
            &&& b & 0x7fu8 == t
        }) by (bit_vector);
}

/// Parsing loses nothing: a datagram that parses is the datagram of the packet it parses to.
pub proof fn lemma_parsed_packet_is_its_datagram(b: Seq<u8>)
    ensures
        parse_packet(b) matches Ok(p) ==> packet_bytes(p) == b && well_formed(p),
{
    if let Ok(p) = parse_packet(b) {
        let count = p.csrc_count;
        let body = b.skip(12 + 4 * count);
        lemma_first_byte_bits(b[0]);
        lemma_second_byte_bits(b[1]);
        lemma_u16_bytes(b, 2);
        lemma_u32_bytes(b, 4);
        lemma_u32_bytes(b, 8);
        assert(csrc_bytes(p) =~= b.subrange(12, 12 + 4 * count)) by {
            assert forall|i: int| 0 <= i < 4 * count implies csrc_bytes(p)[i] == b[12 + i] by {
                lemma_u32_bytes(b, 12 + 4 * (i / 4));
                assert(b[12 + i] == b.subrange(12 + 4 * (i / 4), 12 + 4 * (i / 4) + 4)[i % 4]);
            }
        }
        if p.extension_header is Some {
            lemma_u16_bytes(body, 0);
            lemma_u16_bytes(body, 2);
        }
        assert(body_bytes(p) =~= body);
        assert(packet_bytes(p) =~= b);
    }
}

/// Nothing is misread: the datagram of a well-formed packet parses to that packet.
pub proof fn lemma_datagram_parses_to_its_packet(p: PacketView)
    requires
        well_formed(p),
    ensures
        parse_packet(packet_bytes(p)) == Ok::<PacketView, RtpPacketParseError>(p),
{
    let b = packet_bytes(p);
    let count = p.csrc_count;
    lemma_first_byte_fields(p.padding is Some, p.extension_header is Some, count as u8);
    lemma_second_byte_fields(p.has_marker, p.payload_type->Unknown_0);
    assert(b.skip(12 + 4 * count) =~= body_bytes(p));
    assert(be16(b, 2) == p.sequence_number);
    assert(be32(b, 4) == p.timestamp);
    assert(be32(b, 8) == p.ssrc);
    assert(csrc_list(b, count) =~= p.csrc_list) by {
        assert forall|i: int| 0 <= i < count implies be32(b, 12 + 4 * i) == p.csrc_list[i] by {
            assert(forall|k: int|
                0 <= k < 4 ==> #[trigger] b[12 + 4 * i + k] == csrc_bytes(p)[4 * i + k]);
            assert(b[12 + 4 * i + 0] == u32_bytes(p.csrc_list[i] as int)[0]);
            assert(b[12 + 4 * i + 1] == u32_bytes(p.csrc_list[i] as int)[1]);
            assert(b[12 + 4 * i + 2] == u32_bytes(p.csrc_list[i] as int)[2]);
            assert(b[12 + 4 * i + 3] == u32_bytes(p.csrc_list[i] as int)[3]);
        }
    }
    if let Some((id, header)) = p.extension_header {
        let body = body_bytes(p);
        assert(be16(body, 0) == id);
        assert(be16(body, 2) == p.payload.len());
        assert(body.subrange(4, 4 + p.payload.len() as int) =~= p.payload);
        assert(body.skip(4 + p.payload.len() as int) =~= header);
    }
    assert(p.payload_type == RtpPayloadType::Unknown(p.payload_type->Unknown_0));
}

} // verus!
