use yamama::association::Association;
use yamama::chunk::{Chunk, CookieEcho, Data, Init, Sack};
use yamama::sctp::{Sctp, SctpPacket};

fn common_header(tag: u32) -> Vec<u8> {
    let mut p = Vec::new();
    p.extend_from_slice(&5000u16.to_be_bytes());
    p.extend_from_slice(&5001u16.to_be_bytes());
    p.extend_from_slice(&tag.to_be_bytes());
    p.extend_from_slice(&[0, 0, 0, 0]);
    p
}

fn init_packet(initiate_tag: u32, initial_tsn: u32) -> Vec<u8> {
    let mut p = common_header(0);
    p.extend_from_slice(&[0x01, 0x00, 0x00, 20]);
    p.extend_from_slice(&initiate_tag.to_be_bytes());
    p.extend_from_slice(&131072u32.to_be_bytes());
    p.extend_from_slice(&65535u16.to_be_bytes());
    p.extend_from_slice(&10u16.to_be_bytes());
    p.extend_from_slice(&initial_tsn.to_be_bytes());
    p
}

fn cookie_echo_packet(tag: u32, cookie: &[u8]) -> Vec<u8> {
    let mut p = common_header(tag);
    p.push(0x0a);
    p.push(0);
    p.extend_from_slice(&((4 + cookie.len()) as u16).to_be_bytes());
    p.extend_from_slice(cookie);
    p
}

fn data_packet(tag: u32, tsn: u32, stream: u16, ppid: u32, payload: &[u8]) -> Vec<u8> {
    let mut p = common_header(tag);
    p.push(0x00);
    p.push(0x03);
    p.extend_from_slice(&((16 + payload.len()) as u16).to_be_bytes());
    p.extend_from_slice(&tsn.to_be_bytes());
    p.extend_from_slice(&stream.to_be_bytes());
    p.extend_from_slice(&0u16.to_be_bytes());
    p.extend_from_slice(&ppid.to_be_bytes());
    p.extend_from_slice(payload);
    p
}

fn checksum_ok(packet: &[u8]) -> bool {
    let mut zeroed = packet.to_vec();
    zeroed[8..12].copy_from_slice(&[0, 0, 0, 0]);
    crc32c::crc32c(&zeroed).to_le_bytes() == packet[8..12]
}

#[test]
fn sctp_init_parse_fields() {
    let p = init_packet(0x1122_3344, 77);
    let init = Init::parse(&p[12..]);
    assert_eq!(init.chunk_type, 1);
    assert_eq!(init.length, 20);
    assert_eq!(init.initiate_tag, 0x1122_3344);
    assert_eq!(init.a_rwnd, 131072);
    assert_eq!(init.outbound_streams, 65535);
    assert_eq!(init.inbound_streams, 10);
    assert_eq!(init.initial_tsn, 77);
}

#[test]
fn sctp_packet_new_classifies_chunks() {
    let p = init_packet(9, 1);
    let packet = SctpPacket::new(&p);
    assert_eq!(packet.header.source_port, 5000);
    assert_eq!(packet.header.destination_port, 5001);
    assert!(matches!(packet.chunk, Chunk::Init(_)));
    let d = data_packet(1, 2, 3, 0x33, b"hi");
    match SctpPacket::new(&d).chunk {
        Chunk::Data(data) => {
            assert_eq!(data.tsn, 2);
            assert_eq!(data.stream_id, 3);
            assert_eq!(data.payload_id, 0x33);
            assert!(data.b && data.e && !data.i && !data.u);
            assert_eq!(&d[data.data_start..data.data_end], b"hi");
        },
        _ => panic!("expected data"),
    }
    let unknown = vec![0, 0, 0, 0, 0, 0, 0, 0, 0, 0, 0, 0, 0x42];
    assert!(matches!(SctpPacket::new(&unknown).chunk, Chunk::Unknown(0x42)));
}

#[test]
fn sctp_cookie_echo_cookie_range() {
    let p = cookie_echo_packet(5, &[1, 2, 3, 4]);
    let echo = CookieEcho::parse(&p[12..]);
    assert_eq!(echo.cookie(&p), &[1, 2, 3, 4]);
}

#[test]
fn sctp_sack_bytes() {
    let mut buffer = vec![9];
    Sack::write_to(0x0102_0304, 0x0010_0000, &mut buffer);
    assert_eq!(buffer, vec![9, 3, 0, 0, 16, 1, 2, 3, 4, 0, 0x10, 0, 0, 0, 0, 0, 0]);
}

#[test]
fn sctp_data_write_pads_to_four_bytes() {
    let mut buffer = vec![0u8; 1];
    Data::write_to(7, 2, 0, 0x32, 0x03, &[0x02], &mut buffer);
    assert_eq!(buffer.len(), 1 + 17 + 2);
    assert_eq!(&buffer[1..5], &[0x00, 0x03, 0x00, 17]);
    assert_eq!(&buffer[5..9], &7u32.to_be_bytes());
    assert_eq!(buffer[17], 0x02);
    assert_eq!(&buffer[18..], &[0, 0]);
    let parsed = Data::parse(&buffer[1..]);
    assert_eq!(parsed.tsn, 7);
    assert_eq!(parsed.stream_id, 2);
    assert_eq!(parsed.payload_id, 0x32);
}

#[test]
fn sctp_build_swaps_ports_and_checksums() {
    let p = init_packet(1, 1);
    let header = SctpPacket::new(&p).header;
    let built = SctpPacket::build(&header, 0xabcd_ef01, &[0x0b, 0, 0, 4]);
    assert_eq!(&built[0..2], &5001u16.to_be_bytes());
    assert_eq!(&built[2..4], &5000u16.to_be_bytes());
    assert_eq!(&built[4..8], &0xabcd_ef01u32.to_be_bytes());
    assert!(checksum_ok(&built));
    let mut buffer = Vec::new();
    SctpPacket::build_cookie_ack(&header, 0xabcd_ef01, &mut buffer);
    assert_eq!(buffer, built);
}

#[test]
fn sctp_association_from_init() {
    let p = init_packet(0x5555_aaaa, 0);
    let init = Init::parse(&p[12..]);
    let association = Association::from_init(&init, 42, 1000, 0xc0ff_ee00);
    assert_eq!(association.peer_tag(), 0x5555_aaaa);
    assert_eq!(association.cookie(), 0xc0ff_ee00);
    let mut buffer = vec![1, 2, 3];
    association.build_init_ack(&SctpPacket::new(&p).header, &mut buffer);
    assert_eq!(buffer.len(), 12 + 28);
    assert_eq!(&buffer[4..8], &0x5555_aaaau32.to_be_bytes());
    assert_eq!(&buffer[12..16], &[0x02, 0x00, 0x00, 28]);
    assert_eq!(&buffer[16..20], &42u32.to_be_bytes());
    assert_eq!(&buffer[20..24], &(1024u32 * 1024).to_be_bytes());
    // streams are capped at 1024 outbound and kept at 10 inbound
    assert_eq!(&buffer[24..26], &1024u16.to_be_bytes());
    assert_eq!(&buffer[26..28], &10u16.to_be_bytes());
    assert_eq!(&buffer[28..32], &1000u32.to_be_bytes());
    assert_eq!(&buffer[32..36], &[0x00, 0x07, 0x00, 0x08]);
    assert_eq!(&buffer[36..40], &0xc0ff_ee00u32.to_be_bytes());
    assert!(checksum_ok(&buffer));
}

#[test]
fn sctp_association_new_has_nonzero_tag() {
    let p = init_packet(3, 3);
    let init = Init::parse(&p[12..]);
    let association = Association::new(&init);
    assert_eq!(association.peer_tag(), 3);
    let mut buffer = Vec::new();
    association.build_init_ack(&SctpPacket::new(&p).header, &mut buffer);
    assert_ne!(&buffer[16..20], &[0, 0, 0, 0]);
}

#[test]
fn sctp_handshake_and_channel_open() {
    let mut sctp = Sctp::new();
    let mut buffer = Vec::new();

    // INIT: answered with INIT ACK carrying the cookie
    let init = init_packet(0x0a0b_0c0d, 500);
    assert!(sctp.handle(&init, &mut buffer));
    assert_eq!(buffer[12], 0x02);
    assert!(checksum_ok(&buffer));
    let our_tag = u32::from_be_bytes(buffer[16..20].try_into().unwrap());
    let our_tsn = u32::from_be_bytes(buffer[28..32].try_into().unwrap());
    let cookie = buffer[36..40].to_vec();

    // a wrong cookie is ignored
    let mut untouched = vec![7u8];
    assert!(!sctp.handle(&cookie_echo_packet(our_tag, &[0, 0, 0, 0]), &mut untouched));
    assert_eq!(untouched, vec![7u8]);

    // COOKIE ECHO with the cookie: answered with COOKIE ACK
    assert!(sctp.handle(&cookie_echo_packet(our_tag, &cookie), &mut buffer));
    assert_eq!(buffer.len(), 16);
    assert_eq!(&buffer[4..8], &0x0a0b_0c0du32.to_be_bytes());
    assert_eq!(&buffer[12..16], &[0x0b, 0x00, 0x00, 0x04]);
    assert!(checksum_ok(&buffer));

    // DATA_CHANNEL_OPEN: SACK and DATA_CHANNEL_ACK on the same stream
    let open = data_packet(our_tag, 500, 1, 0x32, &[0x03, 0, 0, 0]);
    assert!(sctp.handle(&open, &mut buffer));
    assert_eq!(&buffer[12..16], &[0x03, 0x00, 0x00, 16]);
    assert_eq!(&buffer[16..20], &500u32.to_be_bytes());
    assert_eq!(&buffer[28..32], &[0x00, 0x03, 0x00, 17]);
    assert_eq!(&buffer[32..36], &our_tsn.to_be_bytes());
    assert_eq!(&buffer[36..38], &1u16.to_be_bytes());
    assert_eq!(&buffer[40..44], &0x32u32.to_be_bytes());
    assert_eq!(buffer[44], 0x02);
    assert_eq!(buffer.len(), 48);
    assert!(checksum_ok(&buffer));

    // a string message is only acknowledged, and the next ACK uses the next TSN
    let text = data_packet(our_tag, 501, 1, 0x33, b"hello");
    assert!(sctp.handle(&text, &mut buffer));
    assert_eq!(buffer.len(), 28);
    assert_eq!(&buffer[16..20], &501u32.to_be_bytes());
    let again = data_packet(our_tag, 502, 2, 0x32, &[0x03]);
    assert!(sctp.handle(&again, &mut buffer));
    assert_eq!(&buffer[32..36], &our_tsn.wrapping_add(1).to_be_bytes());
}

#[test]
fn sctp_repeated_init_keeps_association() {
    let mut sctp = Sctp::new();
    let mut first = Vec::new();
    let mut second = Vec::new();
    let init = init_packet(77, 1);
    assert!(sctp.handle(&init, &mut first));
    assert!(sctp.handle(&init, &mut second));
    assert_eq!(first, second);
}

#[test]
fn sctp_data_without_association_is_ignored() {
    let mut sctp = Sctp::new();
    let mut buffer = vec![1u8, 2];
    assert!(!sctp.handle(&data_packet(1, 1, 1, 0x32, &[3]), &mut buffer));
    assert!(!sctp.handle(&cookie_echo_packet(1, &[1, 2, 3, 4]), &mut buffer));
    assert_eq!(buffer, vec![1u8, 2]);
}

#[test]
fn sctp_can_handle_checks_lengths() {
    let mut sctp = Sctp::new();
    assert!(!sctp.can_handle(&[0u8; 12]));
    let init = init_packet(1, 1);
    assert!(sctp.can_handle(&init));
    assert!(!sctp.can_handle(&init[..31]));
    let data = data_packet(1, 1, 1, 0x32, &[3]);
    assert!(!sctp.can_handle(&data[..27]));
    // without an association a DATA chunk is not read past its header
    let mut lying = data.clone();
    lying[15] = 200;
    assert!(sctp.can_handle(&lying));
    let mut buffer = Vec::new();
    assert!(sctp.handle(&init, &mut buffer));
    assert!(sctp.has_association());
    assert!(!sctp.can_handle(&lying));
    assert!(sctp.can_handle(&data));
}

#[test]
fn sctp_data_length_field_wraps_past_sixteen_bits() {
    let payload = vec![0xabu8; 65537];
    let mut buffer = Vec::new();
    Data::write_to(1, 0, 0, 51, 0x03, &payload, &mut buffer);
    // 16 header bytes plus 65537 modulo 65536 in a 16-bit field
    assert_eq!(&buffer[2..4], &[0x00, 17]);
    assert_eq!(buffer.len() % 4, 0);
    assert_eq!(buffer.len(), 16 + 65537 + 3);
}
