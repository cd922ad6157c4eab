use yamama::dtls::{next_step, DatagramBio, DtlsState, TlsEvent, TlsStep};

#[test]
fn datagram_bio_reads_back_in_order() {
    let mut bio = DatagramBio::new();
    let mut buffer = [0u8; 4];
    assert_eq!(bio.read(&mut buffer), None);
    bio.push(&[1, 2, 3]);
    bio.push(&[4, 5, 6]);
    assert_eq!(bio.read(&mut buffer), Some(4));
    assert_eq!(buffer, [1, 2, 3, 4]);
    let mut rest = [9u8; 8];
    assert_eq!(bio.read(&mut rest), Some(2));
    assert_eq!(rest, [5, 6, 9, 9, 9, 9, 9, 9]);
    assert_eq!(bio.read(&mut rest), None);
}

#[test]
fn datagram_bio_collects_writes() {
    let mut bio = DatagramBio::new();
    assert_eq!(bio.take_reply(), None);
    assert_eq!(bio.write(&[1, 2]), 2);
    assert_eq!(bio.write(&[3]), 1);
    assert_eq!(bio.take_outgoing(), vec![1, 2, 3]);
    assert_eq!(bio.take_outgoing(), Vec::<u8>::new());
    bio.write(&[4]);
    assert_eq!(bio.take_reply(), Some(vec![4]));
    assert_eq!(bio.take_reply(), None);
}

#[test]
fn dtls_next_step_decisions() {
    assert!(matches!(next_step(DtlsState::Handshaking, TlsEvent::Accepted), (DtlsState::Connected, TlsStep::Stop)));
    assert!(matches!(next_step(DtlsState::Handshaking, TlsEvent::WantRead), (DtlsState::Handshaking, TlsStep::Stop)));
    assert!(matches!(next_step(DtlsState::Handshaking, TlsEvent::WantWrite), (DtlsState::Handshaking, TlsStep::Retry)));
    assert!(matches!(next_step(DtlsState::Connected, TlsEvent::Read(0)), (DtlsState::Connected, TlsStep::Stop)));
    assert!(matches!(next_step(DtlsState::Connected, TlsEvent::Read(5)), (DtlsState::Connected, TlsStep::Deliver(5))));
    assert!(matches!(next_step(DtlsState::Connected, TlsEvent::Failed), (DtlsState::Connected, TlsStep::Fail)));
}
