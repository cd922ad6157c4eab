use hmac::{Hmac, Mac};
use sha1::Sha1;
use yamama::net::{IpAddress, SocketAddress};
use yamama::stun::{Message, MessageType};

const TRANSACTION_ID: [u8; 12] = [1, 2, 3, 4, 5, 6, 7, 8, 9, 10, 11, 12];

fn hmac_sha1(key: &[u8], data: &[u8]) -> Vec<u8> {
    let mut mac = <Hmac<Sha1> as Mac>::new_from_slice(key).unwrap();
    mac.update(data);
    mac.finalize().into_bytes().to_vec()
}

fn attribute(kind: u16, value: &[u8]) -> Vec<u8> {
    let mut out = Vec::new();
    out.extend_from_slice(&kind.to_be_bytes());
    out.extend_from_slice(&(value.len() as u16).to_be_bytes());
    out.extend_from_slice(value);
    while out.len() % 4 != 0 {
        out.push(0);
    }
    out
}

/// A binding request with USERNAME and a MESSAGE-INTEGRITY under `password`.
fn binding_request(username: &[u8], password: &str) -> Vec<u8> {
    let mut message = Vec::new();
    message.extend_from_slice(&0x0001u16.to_be_bytes());
    message.extend_from_slice(&0u16.to_be_bytes());
    message.extend_from_slice(&0x2112_a442u32.to_be_bytes());
    message.extend_from_slice(&TRANSACTION_ID);
    message.extend_from_slice(&attribute(0x0006, username));
    let length = (message.len() - 20 + 24) as u16;
    message[2..4].copy_from_slice(&length.to_be_bytes());
    let integrity = hmac_sha1(password.as_bytes(), &message);
    message.extend_from_slice(&attribute(0x0008, &integrity));
    message
}

fn v4(a: u8, b: u8, c: u8, d: u8, port: u16) -> SocketAddress {
    SocketAddress { ip: IpAddress::V4([a, b, c, d]), port }
}

#[test]
fn stun_is_stun_checks_header() {
    let request = binding_request(b"local:remote", "secret");
    assert!(Message::is_stun(&request));
    assert!(!Message::is_stun(&request[..19]));
    let mut bad_cookie = request.clone();
    bad_cookie[4] = 0;
    assert!(!Message::is_stun(&bad_cookie));
    let mut top_bits = request.clone();
    top_bits[0] = 0x40;
    assert!(!Message::is_stun(&top_bits));
    assert!(Message::parse(&bad_cookie).is_none());
}

#[test]
fn stun_parse_reads_fields() {
    let request = binding_request(b"local:remote", "secret");
    let message = Message::parse(&request).unwrap();
    assert_eq!(message.message_type, 0x0001);
    assert!(matches!(message.message_type(), MessageType::BindingRequest));
    assert_eq!(message.transaction_id, TRANSACTION_ID);
    assert_eq!(message.username, "local:remote");
    assert_eq!(message.message_integrity.len(), 20);
    assert_eq!(message.message_integrity_offset, Some(20 + 4 + 12));
}

#[test]
fn stun_invalid_utf8_username_is_replaced() {
    let request = binding_request(&[b'a', 0xff, b'b'], "secret");
    let message = Message::parse(&request).unwrap();
    assert_eq!(message.username, "a\u{fffd}b");
}

#[test]
fn stun_message_integrity_checks_password() {
    let request = binding_request(b"local:remote", "secret");
    let message = Message::parse(&request).unwrap();
    assert!(message.is_valid_message_integrity("secret"));
    assert!(!message.is_valid_message_integrity("wrong"));
}

#[test]
fn stun_message_without_integrity_is_not_valid() {
    let mut message = Vec::new();
    message.extend_from_slice(&0x0001u16.to_be_bytes());
    message.extend_from_slice(&0u16.to_be_bytes());
    message.extend_from_slice(&0x2112_a442u32.to_be_bytes());
    message.extend_from_slice(&TRANSACTION_ID);
    let parsed = Message::parse(&message).unwrap();
    assert_eq!(parsed.message_integrity_offset, None);
    assert!(!parsed.is_valid_message_integrity("secret"));
}

#[test]
fn stun_message_types() {
    let mut request = binding_request(b"u:v", "p");
    request[1] = 0x01;
    request[0] = 0x01;
    assert!(matches!(Message::parse(&request).unwrap().message_type(), MessageType::BindingResponse));
    request[1] = 0x11;
    assert!(matches!(Message::parse(&request).unwrap().message_type(), MessageType::Unknown));
}

#[test]
fn stun_binding_response_bytes() {
    let request = binding_request(b"local:remote", "secret");
    let message = Message::parse(&request).unwrap();
    let response = message.build_binding_response(v4(192, 168, 1, 10, 54321), "secret");
    assert_eq!(response.len(), 64);
    assert_eq!(&response[0..2], &[0x01, 0x01]);
    assert_eq!(&response[2..4], &44u16.to_be_bytes());
    assert_eq!(&response[4..8], &[0x21, 0x12, 0xa4, 0x42]);
    assert_eq!(&response[8..20], &TRANSACTION_ID);
    // XOR-MAPPED-ADDRESS
    assert_eq!(&response[20..24], &[0x00, 0x20, 0x00, 0x08]);
    assert_eq!(&response[24..26], &[0x00, 0x01]);
    assert_eq!(&response[26..28], &(54321u16 ^ 0x2112).to_be_bytes());
    assert_eq!(&response[28..32], &[192 ^ 0x21, 168 ^ 0x12, 1 ^ 0xa4, 10 ^ 0x42]);
    // MESSAGE-INTEGRITY over the header with length 36 and the address
    let mut covered = response[0..32].to_vec();
    covered[2..4].copy_from_slice(&36u16.to_be_bytes());
    assert_eq!(&response[32..36], &[0x00, 0x08, 0x00, 0x14]);
    assert_eq!(&response[36..56], hmac_sha1(b"secret", &covered).as_slice());
    // FINGERPRINT over everything before it
    assert_eq!(&response[56..60], &[0x80, 0x28, 0x00, 0x04]);
    let fingerprint = crc32fast::hash(&response[0..56]) ^ 0x5354_554e;
    assert_eq!(&response[60..64], &fingerprint.to_be_bytes());
}

#[test]
fn stun_binding_response_authenticates_with_same_password() {
    let request = binding_request(b"local:remote", "secret");
    let message = Message::parse(&request).unwrap();
    let response = message.build_binding_response(v4(10, 0, 0, 1, 5000), "secret");
    let parsed = Message::parse(&response).unwrap();
    assert!(matches!(parsed.message_type(), MessageType::BindingResponse));
    assert_eq!(parsed.transaction_id, TRANSACTION_ID);
    assert_eq!(parsed.message_integrity_offset, Some(32));
    assert!(parsed.is_valid_message_integrity("secret"));
    assert!(!parsed.is_valid_message_integrity("other"));
}

#[test]
fn stun_binding_response_for_ipv4_mapped_ipv6() {
    let request = binding_request(b"local:remote", "secret");
    let message = Message::parse(&request).unwrap();
    let mut mapped = [0u8; 16];
    mapped[10] = 0xff;
    mapped[11] = 0xff;
    mapped[12..16].copy_from_slice(&[10, 0, 0, 1]);
    let from_v6 = message.build_binding_response(SocketAddress { ip: IpAddress::V6(mapped), port: 5000 }, "secret");
    let from_v4 = message.build_binding_response(v4(10, 0, 0, 1, 5000), "secret");
    assert_eq!(from_v6, from_v4);
}

#[test]
fn stun_binding_response_empty_for_plain_ipv6() {
    let request = binding_request(b"local:remote", "secret");
    let message = Message::parse(&request).unwrap();
    let mut address = [0u8; 16];
    address[0] = 0x20;
    address[1] = 0x01;
    let response = message.build_binding_response(SocketAddress { ip: IpAddress::V6(address), port: 5000 }, "secret");
    assert!(response.is_empty());
}
