//! RTP packets.

use bytes::Bytes;
use rtsp_client::rtp::packet::{RtpPacket, RtpPacketParseError, RtpPayloadType};
use rtsp_client::rtp::stream::{stream_item, RecvErrorKind, RtpStreamError};
use rtsp_client::rtsp::data_stream::{dummy_rtcp, dummy_rtp};

const HEADER: [u8; 12] = [0x80, 0xe0, 0x12, 0x34, 1, 2, 3, 4, 0xaa, 0xbb, 0xcc, 0xdd];

fn datagram(first: u8, rest: &[u8]) -> Bytes {
    let mut data = HEADER.to_vec();
    data[0] = first;
    data.extend_from_slice(rest);
    Bytes::from(data)
}

#[test]
fn plain_packet() {
    let packet = RtpPacket::try_from(datagram(0x80, &[9, 8, 7])).unwrap();
    assert_eq!(packet.padding, None);
    assert!(packet.extension_header.is_none());
    assert!(packet.has_marker);
    assert_eq!(packet.csrc_count, 0);
    assert_eq!(packet.payload_type, RtpPayloadType::Unknown(0x60));
    assert_eq!(packet.sequence_number, 0x1234);
    assert_eq!(packet.timestamp, 0x0102_0304);
    assert_eq!(packet.ssrc, 0xaabb_ccdd);
    assert_eq!(packet.csrc_list, [0; 15]);
    assert_eq!(&packet.payload[..], &[9, 8, 7]);
}

#[test]
fn packet_with_sources_padding_and_extension_header() {
    let rest = [
        0, 0, 0, 1, 0, 0, 1, 0, // two sources
        0xbe, 0xde, 0, 2, // identifier and length
        5, 6, 7, 8, 3,
    ];
    let packet = RtpPacket::try_from(datagram(0b1011_0010, &rest)).unwrap();
    assert_eq!(packet.csrc_count, 2);
    assert_eq!(packet.csrc_list[..3], [1, 256, 0]);
    assert_eq!(packet.padding, Some(3));
    let header = packet.extension_header.unwrap();
    assert_eq!(header.id, 0xbede);
    assert_eq!(&packet.payload[..], &[5, 6]);
    assert_eq!(&header.contents[..], &[7, 8, 3]);
}

#[test]
fn marker_is_one_bit() {
    let mut data = HEADER.to_vec();
    data[1] = 0x7f;
    data.push(0);
    let packet = RtpPacket::try_from(Bytes::from(data)).unwrap();
    assert!(!packet.has_marker);
    assert_eq!(packet.payload_type, RtpPayloadType::from(0x7f));
}

#[test]
fn each_packet_error_has_an_input() {
    let error = |data: Bytes| RtpPacket::try_from(data).unwrap_err();
    assert_eq!(
        error(Bytes::from_static(&[0x80; 5])),
        RtpPacketParseError::InsufficientHeaderSize(5)
    );
    assert_eq!(
        error(datagram(0x80, &[]).slice(..11)),
        RtpPacketParseError::InsufficientHeaderSize(11)
    );
    assert_eq!(error(datagram(0x40, &[1])), RtpPacketParseError::InvalidVersion(0x40));
    assert_eq!(error(datagram(0x81, &[1, 2, 3])), RtpPacketParseError::InvalidCsrcIdCount(1));
    assert_eq!(error(datagram(0xa1, &[0; 4])), RtpPacketParseError::NoPaddingSize);
    assert_eq!(error(datagram(0x90, &[0; 3])), RtpPacketParseError::InvalidExtensionHeader);
    assert_eq!(
        error(datagram(0x90, &[0, 0, 0, 2, 1])),
        RtpPacketParseError::InvalidExtensionHeader
    );
}

#[test]
fn stream_yields_packets_errors_and_its_end() {
    let data = datagram(0x80, &[1]);
    match stream_item::<u8>(Ok(&data[..])) {
        Some(Ok(packet)) => assert_eq!(&packet.payload[..], &[1]),
        other => panic!("{:?}", other),
    }
    assert!(matches!(
        stream_item::<u8>(Ok(&data[..3])),
        Some(Err(RtpStreamError::ParseError(RtpPacketParseError::InsufficientHeaderSize(3))))
    ));
    assert!(stream_item(Err((RecvErrorKind::NotConnected, 1u8))).is_none());
    assert!(stream_item(Err((RecvErrorKind::ConnectionAborted, 1u8))).is_none());
    assert!(matches!(
        stream_item(Err((RecvErrorKind::Other, 1u8))),
        Some(Err(RtpStreamError::Io(1)))
    ));
}

#[test]
fn packets_that_punch_holes() {
    assert_eq!(dummy_rtp(), [2 << 6, 0, 0, 0, 0, 0, 0, 0, 0, 0, 0, 0]);
    assert_eq!(dummy_rtcp(), [2 << 6, 200, 0, 1, 0, 0, 0, 0]);
}

#[test]
fn header_without_payload_is_a_packet() {
    let packet = RtpPacket::try_from(Bytes::copy_from_slice(&dummy_rtp())).unwrap();
    assert_eq!(packet.padding, None);
    assert!(packet.extension_header.is_none());
    assert!(!packet.has_marker);
    assert_eq!(packet.csrc_count, 0);
    assert_eq!(packet.payload_type, RtpPayloadType::Unknown(0));
    assert_eq!(packet.sequence_number, 0);
    assert_eq!(packet.timestamp, 0);
    assert_eq!(packet.ssrc, 0);
    assert!(packet.payload.is_empty());
    let packet = RtpPacket::try_from(datagram(0x80, &[])).unwrap();
    assert_eq!(packet.ssrc, 0xaabb_ccdd);
    assert!(packet.payload.is_empty());
    assert_eq!(
        RtpPacket::try_from(datagram(0xa0, &[])).unwrap_err(),
        RtpPacketParseError::NoPaddingSize
    );
    assert_eq!(
        RtpPacket::try_from(datagram(0x90, &[])).unwrap_err(),
        RtpPacketParseError::InvalidExtensionHeader
    );
}
