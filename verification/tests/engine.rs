use hmac::{Hmac, Mac};
use sha1::Sha1;
use yamama::engine::{Action, Event, PacketKind, Server};
use yamama::net::{IpAddress, SocketAddress};
use yamama::peer::Peer;

fn binding_request(username: &[u8], password: &str) -> Vec<u8> {
    let mut m = Vec::new();
    m.extend_from_slice(&[0x00, 0x01, 0x00, 0x00, 0x21, 0x12, 0xa4, 0x42]);
    m.extend_from_slice(&[7; 12]);
    m.extend_from_slice(&0x0006u16.to_be_bytes());
    m.extend_from_slice(&(username.len() as u16).to_be_bytes());
    m.extend_from_slice(username);
    while m.len() % 4 != 0 {
        m.push(0);
    }
    let length = (m.len() - 20 + 24) as u16;
    m[2..4].copy_from_slice(&length.to_be_bytes());
    let mut mac = <Hmac<Sha1> as Mac>::new_from_slice(password.as_bytes()).unwrap();
    mac.update(&m);
    let tag = mac.finalize().into_bytes();
    m.extend_from_slice(&[0x00, 0x08, 0x00, 0x14]);
    m.extend_from_slice(&tag);
    m
}

fn from() -> SocketAddress {
    SocketAddress { ip: IpAddress::V4([203, 0, 113, 5]), port: 40000 }
}

fn lookup(user: &str) -> Option<&str> {
    if user == "local" { Some("secret") } else { None }
}

#[test]
fn engine_classify() {
    let stun = binding_request(b"local:remote", "secret");
    assert!(matches!(Server::<()>::classify(&stun), PacketKind::Stun));
    assert!(matches!(Server::<()>::classify(&[]), PacketKind::Unknown));
    assert!(matches!(Server::<()>::classify(&[0x00, 0x01]), PacketKind::Unknown));
    assert!(matches!(Server::<()>::classify(&[22, 254, 253]), PacketKind::Dtls));
    assert!(matches!(Server::<()>::classify(&[0x80, 200, 0, 1]), PacketKind::Srtcp));
    assert!(matches!(Server::<()>::classify(&[0x80, 111, 0, 1]), PacketKind::Srtp));
    assert!(matches!(Server::<()>::classify(&[0x80]), PacketKind::Srtp));
    assert!(matches!(Server::<()>::classify(&[100, 0]), PacketKind::Unknown));
}

#[test]
fn engine_drive_answers_binding_request_and_announces_peer() {
    let mut server = Server::new(());
    let request = binding_request(b"local:remote", "secret");
    let mut buffer = Vec::new();
    let mut actions: Vec<Action<()>> = Vec::new();
    let rtp = server.drive(&request, from(), None, &mut buffer, &mut actions, lookup);
    assert!(rtp.is_none());
    assert_eq!(actions.len(), 2);
    match &actions[0] {
        Action::Event(Event::PeerAuthenticated(peer)) => assert_eq!(peer.address, from()),
        _ => panic!("expected a new peer"),
    }
    match &actions[1] {
        Action::Transmit { destination, payload } => {
            assert_eq!(*destination, from());
            assert_eq!(payload.len(), 64);
            assert_eq!(&payload[0..2], &[0x01, 0x01]);
            assert_eq!(&payload[8..20], &[7; 12]);
        },
        _ => panic!("expected a response"),
    }
}

#[test]
fn engine_known_peer_is_not_announced_again() {
    let mut server = Server::new(());
    let request = binding_request(b"local:remote", "secret");
    let mut peer: Peer<()> = Peer::new(from());
    let mut buffer = Vec::new();
    let mut actions: Vec<Action<()>> = Vec::new();
    server.drive(&request, from(), Some(&mut peer), &mut buffer, &mut actions, lookup);
    assert_eq!(actions.len(), 1);
    assert!(matches!(actions[0], Action::Transmit { .. }));
}

#[test]
fn engine_refuses_wrong_password_and_unknown_user() {
    let mut server = Server::new(());
    let mut buffer = Vec::new();
    let mut actions: Vec<Action<()>> = Vec::new();
    let wrong = binding_request(b"local:remote", "guess");
    server.drive(&wrong, from(), None, &mut buffer, &mut actions, lookup);
    assert!(actions.is_empty());
    let stranger = binding_request(b"someone:remote", "secret");
    server.drive(&stranger, from(), None, &mut buffer, &mut actions, lookup);
    assert!(actions.is_empty());
}

#[test]
fn engine_username_without_colon_is_whole_local_part() {
    let mut server = Server::new(());
    let mut actions: Vec<Action<()>> = Vec::new();
    let request = binding_request(b"local", "secret");
    let reply = server.handle_stun(&request, from(), true, &mut actions, lookup);
    assert!(reply.is_some());
    assert!(actions.is_empty());
}

#[test]
fn engine_binding_response_to_plain_ipv6_is_dropped_after_announcing() {
    let mut server = Server::new(());
    let mut actions: Vec<Action<()>> = Vec::new();
    let request = binding_request(b"local:remote", "secret");
    let mut v6 = [0u8; 16];
    v6[15] = 1;
    let source = SocketAddress { ip: IpAddress::V6(v6), port: 1 };
    let reply = server.handle_stun(&request, source, false, &mut actions, lookup);
    assert!(reply.is_none());
    assert_eq!(actions.len(), 1);
}

#[test]
fn engine_drive_clears_actions_and_ignores_other_packets() {
    let mut server = Server::new(());
    let mut buffer = vec![1, 2, 3];
    let mut actions: Vec<Action<()>> = vec![Action::Event(Event::PeerMediaReady(from()))];
    let mut peer: Peer<()> = Peer::new(from());
    let rtp = server.drive(&[0x80, 111, 0, 1, 0, 0, 0, 0, 0, 0, 0, 1, 0, 0, 0, 0, 0, 0, 0, 0, 0, 0], from(), Some(&mut peer), &mut buffer, &mut actions, lookup);
    assert!(rtp.is_none());
    assert!(actions.is_empty());
    server.drive(&[22, 254, 253], from(), Some(&mut peer), &mut buffer, &mut actions, lookup);
    assert!(actions.is_empty());
}

#[test]
fn peer_without_srtp_does_nothing() {
    let mut peer: Peer<()> = Peer::new(from());
    let mut buffer = vec![0x80, 0, 0, 1, 0, 0, 0, 0, 0, 0, 0, 1, 9, 9, 9, 9, 9, 9, 9, 9, 9, 9, 9, 9];
    let before = buffer.clone();
    assert_eq!(peer.protect(&mut buffer, 12), None);
    assert_eq!(peer.unprotect(&mut buffer), None);
    assert_eq!(peer.protect_rtcp(&mut buffer), None);
    assert_eq!(peer.unprotect_srtcp(&mut buffer), None);
    assert_eq!(buffer, before);
    assert_eq!(peer.address(), from());
    assert!(peer.dtls.is_none());
}

#[test]
fn engine_drive_dtls_transmits_reply_and_drops_failed_session() {
    let server = Server::new(());
    let mut peer: Peer<()> = Peer::new(from());
    let mut actions: Vec<Action<()>> = vec![Action::Event(Event::PeerMediaReady(from()))];

    // a failed session: nothing goes out and the session is not kept
    assert!(!server.drive_dtls(from(), &mut peer, yamama::peer::DtlsOutcome::Failed, None, &mut actions));
    assert!(actions.is_empty());

    // a handshake reply goes back to the sender
    let outcome = yamama::peer::DtlsOutcome::Handled(Some(vec![22, 254, 253]));
    assert!(server.drive_dtls(from(), &mut peer, outcome, None, &mut actions));
    assert_eq!(actions.len(), 1);
    match &actions[0] {
        Action::Transmit { destination, payload } => {
            assert_eq!(*destination, from());
            assert_eq!(payload, &vec![22, 254, 253]);
        },
        _ => panic!("expected a transmit"),
    }

    // nothing written back: nothing sent
    assert!(server.drive_dtls(from(), &mut peer, yamama::peer::DtlsOutcome::Handled(None), None, &mut actions));
    assert!(actions.is_empty());
}
