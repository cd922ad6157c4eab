//! Media tracks as announced by the first RTP packet of a source.
use vstd::prelude::*;
use crate::rtp::RtpPacket;

verus! {

pub const AUDIO_PAYLOAD_TYPE: u8 = 111;
pub const VIDEO_PAYLOAD_TYPE: u8 = 96;

pub enum TrackKind {
    Audio(u8),
    Video(u8),
    Unknown,
}

pub struct Track {
    pub ssrc: u32,
    pub kind: TrackKind,
}

/// The kind of media that a payload type stands for in this library's offer.
pub open spec fn spec_track_kind(payload_type: u8) -> TrackKind {
    if payload_type == AUDIO_PAYLOAD_TYPE {
        TrackKind::Audio(AUDIO_PAYLOAD_TYPE)
    } else if payload_type == VIDEO_PAYLOAD_TYPE {
        TrackKind::Video(VIDEO_PAYLOAD_TYPE)
    } else {
        TrackKind::Unknown
    }
}

impl Track {
    pub fn new(rtp: &RtpPacket) -> (r: Self)
        ensures
            r.ssrc == rtp.header.ssrc,
            r.kind == spec_track_kind(rtp.header.payload_type),
    {
        Self { ssrc: rtp.header.ssrc, kind: track_kind(rtp.header.payload_type) }
    }
}

fn track_kind(payload_type: u8) -> (r: TrackKind)
    ensures
        r == spec_track_kind(payload_type),
{
    if payload_type == AUDIO_PAYLOAD_TYPE {
        TrackKind::Audio(AUDIO_PAYLOAD_TYPE)
    } else if payload_type == VIDEO_PAYLOAD_TYPE {
        TrackKind::Video(VIDEO_PAYLOAD_TYPE)
    } else {
        TrackKind::Unknown
    }
}

} // verus!
