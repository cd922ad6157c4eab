use yamama::resequencer::Resequencer;
use yamama::rtp::RtpPacket;

fn bytes(seq: u16) -> Vec<u8> {
    let s = seq.to_be_bytes();
    vec![0x80, 96, s[0], s[1], 0, 0, 0, 0, 0, 0, 0, 1, seq as u8]
}

fn seq_of(packet: Option<RtpPacket>) -> Option<u16> {
    packet.map(|p| p.header.sequence_number)
}

#[test]
fn resequencer_in_order() {
    let data: Vec<Vec<u8>> = (100..105).map(bytes).collect();
    let mut r = Resequencer::new(100);
    for d in &data {
        r.add(RtpPacket::new(d));
        assert_eq!(seq_of(r.read()), Some(RtpPacket::new(d).header.sequence_number));
    }
    assert!(r.read().is_none());
}

#[test]
fn resequencer_reorders() {
    let data: Vec<Vec<u8>> = [3u16, 1, 2, 0].iter().map(|s| bytes(*s)).collect();
    let mut r = Resequencer::new(0);
    for d in &data {
        r.add(RtpPacket::new(d));
    }
    let order: Vec<Option<u16>> = (0..5).map(|_| seq_of(r.read())).collect();
    assert_eq!(order, vec![Some(0), Some(1), Some(2), Some(3), None]);
}

#[test]
fn resequencer_waits_within_lookahead() {
    let data: Vec<Vec<u8>> = [1u16, 2, 3].iter().map(|s| bytes(*s)).collect();
    let mut r = Resequencer::new(0);
    for d in &data {
        r.add(RtpPacket::new(d));
    }
    // the newest packet is 3 ahead, which the default lookahead tolerates
    assert!(r.read().is_none());
    let four = bytes(4);
    r.add(RtpPacket::new(&four));
    // now 4 ahead: the gap at 0 is skipped
    assert_eq!(seq_of(r.read()), Some(1));
    assert_eq!(seq_of(r.read()), Some(2));
}

#[test]
fn resequencer_zero_lookahead_skips_gaps() {
    let two = bytes(2);
    let mut r = Resequencer::with_lookahead(0, 0);
    r.add(RtpPacket::new(&two));
    assert_eq!(seq_of(r.read()), Some(2));
}

#[test]
fn resequencer_drops_late_packets() {
    let data: Vec<Vec<u8>> = [10u16, 9].iter().map(|s| bytes(*s)).collect();
    let mut r = Resequencer::new(10);
    r.add(RtpPacket::new(&data[0]));
    assert_eq!(seq_of(r.read()), Some(10));
    r.add(RtpPacket::new(&data[1]));
    assert!(r.read().is_none());
}

#[test]
fn resequencer_jump_resets_window() {
    let far = bytes(500);
    let mut r = Resequencer::new(0);
    r.add(RtpPacket::new(&far));
    assert_eq!(seq_of(r.read()), Some(500));
}

#[test]
fn resequencer_wraps_around() {
    let data: Vec<Vec<u8>> = [65535u16, 0, 1].iter().map(|s| bytes(*s)).collect();
    let mut r = Resequencer::new(65535);
    for d in data.iter().rev() {
        r.add(RtpPacket::new(d));
    }
    assert_eq!(seq_of(r.read()), Some(65535));
    assert_eq!(seq_of(r.read()), Some(0));
    assert_eq!(seq_of(r.read()), Some(1));
}

#[test]
fn resequencer_lookahead_is_capped() {
    let far = bytes(63);
    let mut r = Resequencer::with_lookahead(0, 1000);
    r.add(RtpPacket::new(&far));
    // lookahead is capped at 63, so a packet 63 ahead is still waited for
    assert!(r.read().is_none());
}

#[test]
fn resequencer_run_returns_increasing_offsets_across_wrap() {
    // start near the wrap; every packet is less than 64 ahead of the start
    let start: u16 = 65530;
    let seqs: Vec<u16> = vec![65533, 65530, 2, 65531, 65530, 0, 40, 65535, 1, 41, 42, 43, 44, 45];
    let data: Vec<Vec<u8>> = seqs.iter().map(|s| bytes(*s)).collect();
    let mut r = Resequencer::with_lookahead(start, 2);
    let mut returned: Vec<u16> = Vec::new();
    for (i, d) in data.iter().enumerate() {
        r.add(RtpPacket::new(d));
        if i % 2 == 1 {
            if let Some(s) = seq_of(r.read()) {
                returned.push(s);
            }
        }
    }
    while let Some(s) = seq_of(r.read()) {
        returned.push(s);
    }
    let offsets: Vec<u16> = returned.iter().map(|s| s.wrapping_sub(start)).collect();
    assert!(offsets.windows(2).all(|w| w[0] < w[1]), "{:?}", offsets);
    assert!(returned.iter().all(|s| seqs.contains(s)));
    assert!(!returned.is_empty());
}
