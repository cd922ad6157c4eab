use std::collections::VecDeque;
use std::io::{self, Read, Write};

use openssl::asn1::Asn1Time;
use openssl::bn::BigNum;
use openssl::ec::{EcGroup, EcKey};
use openssl::hash::MessageDigest;
use openssl::nid::Nid;
use openssl::pkey::{PKey, Private};
use openssl::ssl::{ErrorCode, Ssl, SslAcceptor, SslConnector, SslMethod, SslStream, SslVerifyMode};
use openssl::x509::{X509NameBuilder, X509};

use yamama::engine::{Action, Event};
use yamama::net::{IpAddress, SocketAddress};
use yamama::peer::{DtlsOutcome, Peer};
use yamama::srtp::SrtpContext;

const PROFILES: &str = "SRTP_AES128_CM_SHA1_80";

/// One end of an in-memory datagram link.
struct End {
    inbox: VecDeque<Vec<u8>>,
    outbox: Vec<Vec<u8>>,
}

impl Read for End {
    fn read(&mut self, buffer: &mut [u8]) -> io::Result<usize> {
        match self.inbox.pop_front() {
            Some(d) => {
                let n = d.len().min(buffer.len());
                buffer[..n].copy_from_slice(&d[..n]);
                Ok(n)
            },
            None => Err(io::Error::new(io::ErrorKind::WouldBlock, "empty")),
        }
    }
}

impl Write for End {
    fn write(&mut self, buffer: &[u8]) -> io::Result<usize> {
        self.outbox.push(buffer.to_vec());
        Ok(buffer.len())
    }

    fn flush(&mut self) -> io::Result<()> {
        Ok(())
    }
}

fn certificate() -> (X509, PKey<Private>) {
    let group = EcGroup::from_curve_name(Nid::X9_62_PRIME256V1).unwrap();
    let key = PKey::from_ec_key(EcKey::generate(&group).unwrap()).unwrap();
    let mut name = X509NameBuilder::new().unwrap();
    name.append_entry_by_text("CN", "yamama").unwrap();
    let name = name.build();
    let mut builder = X509::builder().unwrap();
    builder.set_version(2).unwrap();
    builder.set_serial_number(&BigNum::from_u32(1).unwrap().to_asn1_integer().unwrap()).unwrap();
    builder.set_subject_name(&name).unwrap();
    builder.set_issuer_name(&name).unwrap();
    builder.set_pubkey(&key).unwrap();
    builder.set_not_before(&Asn1Time::days_from_now(0).unwrap()).unwrap();
    builder.set_not_after(&Asn1Time::days_from_now(1).unwrap()).unwrap();
    builder.sign(&key, MessageDigest::sha256()).unwrap();
    (builder.build(), key)
}

fn progress(result: Result<(), openssl::ssl::Error>) -> bool {
    match result {
        Ok(()) => true,
        Err(e) if e.code() == ErrorCode::WANT_READ || e.code() == ErrorCode::WANT_WRITE => false,
        Err(e) => panic!("handshake failed: {}", e),
    }
}

fn connected_pair() -> (SslStream<End>, SslStream<End>) {
    let (cert, key) = certificate();
    let mut acceptor = SslAcceptor::mozilla_intermediate_v5(SslMethod::dtls_server()).unwrap();
    acceptor.set_certificate(&cert).unwrap();
    acceptor.set_private_key(&key).unwrap();
    acceptor.set_verify(SslVerifyMode::NONE);
    acceptor.set_tlsext_use_srtp(PROFILES).unwrap();
    let acceptor = acceptor.build();
    let mut connector = SslConnector::builder(SslMethod::dtls_client()).unwrap();
    connector.set_verify(SslVerifyMode::NONE);
    connector.set_tlsext_use_srtp(PROFILES).unwrap();
    let connector = connector.build();

    let mut server_ssl = Ssl::new(acceptor.context()).unwrap();
    server_ssl.set_accept_state();
    server_ssl.set_mtu(1200).unwrap();
    let mut client_ssl = Ssl::new(connector.context()).unwrap();
    client_ssl.set_connect_state();
    client_ssl.set_mtu(1200).unwrap();
    let mut server = SslStream::new(server_ssl, End { inbox: VecDeque::new(), outbox: Vec::new() }).unwrap();
    let mut client = SslStream::new(client_ssl, End { inbox: VecDeque::new(), outbox: Vec::new() }).unwrap();

    let mut client_done = false;
    let mut server_done = false;
    for _ in 0..50 {
        if !client_done {
            client_done = progress(client.connect());
        }
        for d in client.get_mut().outbox.drain(..).collect::<Vec<_>>() {
            server.get_mut().inbox.push_back(d);
        }
        if !server_done {
            server_done = progress(server.accept());
        }
        for d in server.get_mut().outbox.drain(..).collect::<Vec<_>>() {
            client.get_mut().inbox.push_back(d);
        }
        if client_done && server_done {
            return (client, server);
        }
    }
    panic!("handshake did not finish");
}

fn mirrored(m: &[u8; 60]) -> [u8; 60] {
    let mut r = [0u8; 60];
    r[0..16].copy_from_slice(&m[16..32]);
    r[16..32].copy_from_slice(&m[0..16]);
    r[32..46].copy_from_slice(&m[46..60]);
    r[46..60].copy_from_slice(&m[32..46]);
    r
}

fn rtp_packet(seq: u16) -> Vec<u8> {
    let s = seq.to_be_bytes();
    vec![0x80, 111, s[0], s[1], 0, 0, 0, 1, 0, 0, 0, 42, 1, 2, 3, 4, 5]
}

#[test]
fn dtls_keyed_srtp_round_trips_with_the_client() {
    let (client, server) = connected_pair();
    let mut server_context = SrtpContext::from_dtls(server.ssl()).unwrap();
    let mut material = [0u8; 60];
    client.ssl().export_keying_material(&mut material, "EXTRACTOR-dtls_srtp", None).unwrap();
    let mut client_context = SrtpContext::from_keying_material(&mirrored(&material));

    let plain = rtp_packet(1);
    let mut buffer = plain.clone();
    buffer.resize(plain.len() + 10, 0);
    let end = client_context.protect(&mut buffer, plain.len()).unwrap();
    let mut packet = buffer[..end].to_vec();
    assert_ne!(&packet[12..plain.len()], &plain[12..]);
    assert_eq!(server_context.unprotect(&mut packet), Some(plain.len()));
    assert_eq!(&packet[..plain.len()], plain.as_slice());

    let mut reply = plain.clone();
    reply.resize(plain.len() + 10, 0);
    let end = server_context.protect(&mut reply, plain.len()).unwrap();
    let mut packet = reply[..end].to_vec();
    assert_eq!(client_context.unprotect(&mut packet), Some(plain.len()));
    assert_eq!(&packet[..plain.len()], plain.as_slice());
}

#[test]
fn dtls_connected_peer_announces_media() {
    let (_client, server) = connected_pair();
    let address = SocketAddress { ip: IpAddress::V4([127, 0, 0, 1]), port: 9 };
    let mut peer: Peer<()> = Peer::new(address);
    let mut actions: Vec<Action<()>> = Vec::new();
    assert!(peer.handle_dtls_connected(server.ssl(), &mut actions));
    assert_eq!(actions.len(), 1);
    assert!(matches!(actions[0], Action::Event(Event::PeerMediaReady(a)) if a == address));
    // keyed once: a second call announces nothing
    assert!(peer.handle_dtls_connected(server.ssl(), &mut actions));
    assert_eq!(actions.len(), 1);
    let plain = rtp_packet(5);
    let mut buffer = plain.clone();
    buffer.resize(plain.len() + 10, 0);
    assert_eq!(peer.protect(&mut buffer, plain.len()), Some(plain.len() + 10));
}

#[test]
fn dtls_step_drops_failed_session_and_keys_once() {
    let (_client, server) = connected_pair();
    let address = SocketAddress { ip: IpAddress::V4([127, 0, 0, 1]), port: 9 };
    let mut peer: Peer<()> = Peer::new(address);
    let mut actions: Vec<Action<()>> = Vec::new();

    // a failed session is dropped and nothing is sent
    let (keep, reply) = peer.finish_dtls_input(DtlsOutcome::Failed, Some(server.ssl()), &mut actions);
    assert!(!keep);
    assert_eq!(reply, None);
    assert!(actions.is_empty());

    // during the handshake the reply goes out and SRTP is not keyed
    let (keep, reply) = peer.finish_dtls_input(DtlsOutcome::Handled(Some(vec![1, 2, 3])), None, &mut actions);
    assert!(keep);
    assert_eq!(reply, Some(vec![1, 2, 3]));
    assert!(actions.is_empty());
    let mut probe = rtp_packet(5);
    probe.resize(probe.len() + 10, 0);
    assert_eq!(peer.protect(&mut probe, 17), None);

    // once connected SRTP is keyed, media-ready is announced once
    let (keep, reply) = peer.finish_dtls_input(DtlsOutcome::Handled(Some(vec![4])), Some(server.ssl()), &mut actions);
    assert!(keep);
    assert_eq!(reply, Some(vec![4]));
    assert_eq!(actions.len(), 1);
    assert!(matches!(actions[0], Action::Event(Event::PeerMediaReady(a)) if a == address));
    let (keep, reply) = peer.finish_dtls_input(DtlsOutcome::Handled(None), Some(server.ssl()), &mut actions);
    assert!(keep);
    assert_eq!(reply, None);
    assert_eq!(actions.len(), 1);
}

#[test]
fn dtls_drive_keys_peer_and_drops_short_srtp() {
    let (_client, server_end) = connected_pair();
    let address = SocketAddress { ip: IpAddress::V4([127, 0, 0, 1]), port: 9 };
    let server: yamama::engine::Server<()> = yamama::engine::Server::new(());
    let mut peer: Peer<()> = Peer::new(address);
    let mut actions: Vec<Action<()>> = Vec::new();
    let outcome = DtlsOutcome::Handled(Some(vec![1]));
    assert!(server.drive_dtls(address, &mut peer, outcome, Some(server_end.ssl()), &mut actions));
    assert_eq!(actions.len(), 2);
    assert!(matches!(actions[0], Action::Event(Event::PeerMediaReady(a)) if a == address));
    assert!(matches!(&actions[1], Action::Transmit { destination, payload } if *destination == address && payload == &vec![1]));

    // an SRTP packet too short for its header is dropped, not a panic
    let mut server = server;
    let mut buffer = Vec::new();
    let short = [0x80u8; 11];
    let rtp = server.drive(&short, address, Some(&mut peer), &mut buffer, &mut actions, |_: &str| None);
    assert!(rtp.is_none());
    assert!(actions.is_empty());
    assert_eq!(buffer, short.to_vec());
    let mut probe = [0x80u8; 11];
    assert_eq!(peer.unprotect_checked(&mut probe), None);
}
