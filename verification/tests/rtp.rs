use yamama::rtp::RtpPacket;

/// V=2, X=1, one-byte extensions: id 1 with one byte, id 2 with two bytes.
fn packet_with_one_byte_extensions() -> Vec<u8> {
    let mut p = vec![0x90, 111, 0x12, 0x34, 0, 0, 0, 1, 0xde, 0xad, 0xbe, 0xef];
    p.extend_from_slice(&[0xbe, 0xde, 0x00, 0x02]);
    p.extend_from_slice(&[0x10, 0xaa, 0x21, 0xbb, 0xcc, 0x00, 0x00, 0x00]);
    p.extend_from_slice(b"payload");
    p
}

#[test]
fn rtp_header_fields() {
    let bytes = packet_with_one_byte_extensions();
    let rtp = RtpPacket::new(&bytes);
    assert_eq!(rtp.header.version, 2);
    assert!(!rtp.header.has_padding);
    assert!(rtp.header.has_extension);
    assert_eq!(rtp.header.csrc_count, 0);
    assert_eq!(rtp.header.payload_type, 111);
    assert_eq!(rtp.payload_type(), 111);
    assert_eq!(rtp.header.sequence_number, 0x1234);
    assert_eq!(rtp.header.ssrc, 0xdead_beef);
}

#[test]
fn rtp_one_byte_extensions() {
    let bytes = packet_with_one_byte_extensions();
    let rtp = RtpPacket::new(&bytes);
    let extensions = rtp.extensions.as_ref().unwrap();
    assert_eq!(extensions.len(), 2);
    assert_eq!(rtp.extension(1), Some(&[0xaa][..]));
    assert_eq!(rtp.extension(2), Some(&[0xbb, 0xcc][..]));
    assert_eq!(rtp.extension(3), None);
    assert_eq!(rtp.payload_start, 24);
    assert_eq!(rtp.payload(), b"payload");
}

#[test]
fn rtp_two_byte_extensions() {
    let mut p = vec![0x90, 96, 0, 1, 0, 0, 0, 0, 0, 0, 0, 7];
    p.extend_from_slice(&[0x10, 0x00, 0x00, 0x02]);
    p.extend_from_slice(&[0x05, 0x00, 0x03, 1, 2, 3, 0x00, 0x00]);
    p.extend_from_slice(&[9, 9]);
    let rtp = RtpPacket::new(&p);
    assert_eq!(rtp.extension(5), Some(&[1, 2, 3][..]));
    assert_eq!(rtp.payload(), &[9, 9]);
}

#[test]
fn rtp_unknown_profile_has_no_elements() {
    let mut p = vec![0x90, 96, 0, 1, 0, 0, 0, 0, 0, 0, 0, 7];
    p.extend_from_slice(&[0x12, 0x34, 0x00, 0x01, 1, 2, 3, 4, 42]);
    let rtp = RtpPacket::new(&p);
    assert_eq!(rtp.extensions.as_ref().unwrap().len(), 0);
    assert_eq!(rtp.payload(), &[42]);
}

#[test]
fn rtp_without_extension_and_with_padding() {
    let p = vec![0xa2, 0x60, 0, 5, 0, 0, 0, 0, 0, 0, 0, 1, 1, 1, 1, 1, 2, 2, 2, 2, 7, 8, 0, 2];
    let rtp = RtpPacket::new(&p);
    assert_eq!(rtp.header.csrc_count, 2);
    assert!(rtp.header.has_padding);
    assert!(rtp.extensions.is_none());
    assert_eq!(rtp.extension(1), None);
    assert_eq!(rtp.payload_start, 20);
    assert_eq!(rtp.payload_end, 22);
    assert_eq!(rtp.payload(), &[7, 8]);
}

#[test]
fn rtp_header_size_matches_payload_start() {
    let bytes = packet_with_one_byte_extensions();
    assert_eq!(RtpPacket::header_size(&bytes), Some(24));
    assert_eq!(RtpPacket::header_size(&bytes), Some(RtpPacket::new(&bytes).payload_start));
    let plain = vec![0x81, 0, 0, 0, 0, 0, 0, 0, 0, 0, 0, 0, 1, 2, 3, 4];
    assert_eq!(RtpPacket::header_size(&plain), Some(16));
}

#[test]
fn rtp_parse_refuses_truncated_packets() {
    assert!(RtpPacket::parse(&[0x80, 0, 0]).is_none());
    // extension header announced but missing
    assert!(RtpPacket::parse(&[0x90, 0, 0, 0, 0, 0, 0, 0, 0, 0, 0, 0, 0xbe]).is_none());
    // one-byte element that runs past the end of the packet
    let p = vec![0x90, 0, 0, 0, 0, 0, 0, 0, 0, 0, 0, 0, 0xbe, 0xde, 0x00, 0x05, 0x10];
    assert!(RtpPacket::parse(&p).is_none());
    // padding longer than the packet
    let mut padded = vec![0xa0, 0, 0, 0, 0, 0, 0, 0, 0, 0, 0, 0];
    padded.push(200);
    assert!(RtpPacket::parse(&padded).is_none());
    let good = packet_with_one_byte_extensions();
    assert_eq!(RtpPacket::parse(&good).unwrap().payload(), b"payload");
}
