use yamama::rtp::RtpPacket;
use yamama::track::{Track, TrackKind};

fn packet_with_payload_type(payload_type: u8) -> Vec<u8> {
    vec![0x80, payload_type, 0x00, 0x01, 0, 0, 0, 0, 0x12, 0x34, 0x56, 0x78, 0xaa]
}

#[test]
fn track_audio_from_opus_payload_type() {
    let bytes = packet_with_payload_type(111);
    let rtp = RtpPacket::new(&bytes);
    let track = Track::new(&rtp);
    assert_eq!(track.ssrc, 0x1234_5678);
    assert!(matches!(track.kind, TrackKind::Audio(111)));
}

#[test]
fn track_video_and_unknown_payload_types() {
    let bytes = packet_with_payload_type(96);
    let track = Track::new(&RtpPacket::new(&bytes));
    assert!(matches!(track.kind, TrackKind::Video(96)));
    let bytes = packet_with_payload_type(0x80 | 100);
    let track = Track::new(&RtpPacket::new(&bytes));
    assert!(matches!(track.kind, TrackKind::Unknown));
}
