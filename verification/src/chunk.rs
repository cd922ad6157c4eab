//! SCTP chunks (RFC 4960) used by WebRTC data channels.
use vstd::prelude::*;
use crate::bytes::{
    be16_at, be16_bytes, be32_at, be32_bytes, lemma_be16_roundtrip, lemma_be32_roundtrip, push_be16, push_be32,
    read_be16, read_be32,
};

verus! {

pub const CHUNK_HEADER_LEN: usize = 4;

pub const DEFAULT_FLAGS: u8 = 0x00;

pub const SACK: u8 = 0x03;
pub const SACK_LEN: u16 = 16;

pub const INIT: u8 = 0x01;
pub const INIT_LEN: u16 = 20;

pub const INIT_ACK: u8 = 0x02;
pub const PARAM_STATE_COOKIE: u16 = 0x0007;
pub const STATE_COOKIE_LEN: u16 = 8;
pub const INIT_ACK_LEN: u16 = 28;

pub const COOKIE_ECHO: u8 = 0x0a;

pub const COOKIE_ACK: u8 = 0x0b;
pub const COOKIE_ACK_LEN: u16 = 0x0004;

pub const DATA: u8 = 0x00;
pub const DATA_HEADER_LEN: usize = 16;
/// Sets the B and E flags: the whole message is in one chunk.
pub const DATA_UNFRAGMENTED_FLAGS: u8 = 0x03;
pub const DATA_CHANNEL_OPEN: u8 = 0x03;
pub const DATA_CHANNEL_ACK: u8 = 0x02;
pub const PPID_DCEP: u32 = 0x0000_0032;
pub const PPID_STRING: u32 = 0x0000_0033;

/// The receiver window that this side offers.
pub const DEFAULT_A_RWND: u32 = 1024 * 1024;

/// Length of the common SCTP header that precedes the chunks.
pub const SCTP_HEADER_LEN: usize = 12;

pub struct Parameter {
    pub parameter_type: u16,
    pub length: u16,
    pub data_start: usize,
    pub data_end: usize,
}

pub enum Chunk {
    Init(Init),
    CookieEcho(CookieEcho),
    Data(Data),
    Unknown(u8),
}

pub struct Sack;

/// A SACK chunk with no gap blocks and no duplicates.
pub open spec fn sack_bytes(cumulative_tsn: u32, a_rwnd: u32) -> Seq<u8> {
    seq![SACK, DEFAULT_FLAGS] + be16_bytes(SACK_LEN) + be32_bytes(cumulative_tsn) + be32_bytes(a_rwnd)
        + be16_bytes(0) + be16_bytes(0)
}

impl Sack {
    pub fn write_to(cumulative_tsn: u32, a_rwnd: u32, buffer: &mut Vec<u8>)
        ensures
            final(buffer)@ == old(buffer)@ + sack_bytes(cumulative_tsn, a_rwnd),
    {
        buffer.push(SACK);
        buffer.push(DEFAULT_FLAGS);
        push_be16(buffer, SACK_LEN);
        push_be32(buffer, cumulative_tsn);
        push_be32(buffer, a_rwnd);
        push_be16(buffer, 0);
        push_be16(buffer, 0);
        assert(final(buffer)@ =~= old(buffer)@ + sack_bytes(cumulative_tsn, a_rwnd));
    }
}

/// An INIT or INIT ACK chunk header and fixed parameters.
pub struct Init {
    pub chunk_type: u8,
    pub flags: u8,
    pub length: u16,
    pub initiate_tag: u32,
    pub a_rwnd: u32,
    pub outbound_streams: u16,
    pub inbound_streams: u16,
    pub initial_tsn: u32,
}

/// The INIT fields at the start of `b`.
pub open spec fn spec_init(b: Seq<u8>) -> Init {
    Init {
        chunk_type: b[0],
        flags: b[1],
        length: be16_at(b, 2) as u16,
        initiate_tag: be32_at(b, 4) as u32,
        a_rwnd: be32_at(b, 8) as u32,
        outbound_streams: be16_at(b, 12) as u16,
        inbound_streams: be16_at(b, 14) as u16,
        initial_tsn: be32_at(b, 16) as u32,
    }
}

/// The wire form of the INIT fields.
pub open spec fn init_bytes(c: Init) -> Seq<u8> {
    seq![c.chunk_type, c.flags] + be16_bytes(c.length) + be32_bytes(c.initiate_tag) + be32_bytes(c.a_rwnd)
        + be16_bytes(c.outbound_streams) + be16_bytes(c.inbound_streams) + be32_bytes(c.initial_tsn)
}

/// An INIT ACK chunk whose only parameter is a four-byte state cookie.
pub open spec fn init_ack_bytes(tag: u32, tsn: u32, outbound_streams: u16, inbound_streams: u16, cookie: u32) -> Seq<u8> {
    init_bytes(
        Init {
            chunk_type: INIT_ACK,
            flags: DEFAULT_FLAGS,
            length: INIT_ACK_LEN,
            initiate_tag: tag,
            a_rwnd: DEFAULT_A_RWND,
            outbound_streams,
            inbound_streams,
            initial_tsn: tsn,
        },
    ) + be16_bytes(PARAM_STATE_COOKIE) + be16_bytes(STATE_COOKIE_LEN) + be32_bytes(cookie)
}

impl Init {
    pub fn parse(buffer: &[u8]) -> (r: Self)
        requires
            buffer@.len() >= INIT_LEN,
        ensures
            r == spec_init(buffer@),
    {
        let chunk_type = buffer[0];
        let flags = buffer[1];
        let length = read_be16(buffer, 2);
        let initiate_tag = read_be32(buffer, 4);
        let a_rwnd = read_be32(buffer, 8);
        let outbound_streams = read_be16(buffer, 12);
        let inbound_streams = read_be16(buffer, 14);
        let initial_tsn = read_be32(buffer, 16);
        Self { chunk_type, flags, length, initiate_tag, a_rwnd, outbound_streams, inbound_streams, initial_tsn }
    }

    pub fn build_init_ack(
        tag: u32,
        tsn: u32,
        outbound_streams: u16,
        inbound_streams: u16,
        cookie: u32,
        buffer: &mut Vec<u8>,
    )
        ensures
            final(buffer)@ == old(buffer)@ + init_ack_bytes(tag, tsn, outbound_streams, inbound_streams, cookie),
    {
        let chunk = Init {
            chunk_type: INIT_ACK,
            flags: DEFAULT_FLAGS,
            length: INIT_ACK_LEN,
            initiate_tag: tag,
            a_rwnd: DEFAULT_A_RWND,
            outbound_streams,
            inbound_streams,
            initial_tsn: tsn,
        };
        chunk.write_to(buffer);
        push_be16(buffer, PARAM_STATE_COOKIE);
        push_be16(buffer, STATE_COOKIE_LEN);
        push_be32(buffer, cookie);
        assert(final(buffer)@ =~= old(buffer)@ + init_ack_bytes(tag, tsn, outbound_streams, inbound_streams, cookie));
    }

    fn write_to(&self, buffer: &mut Vec<u8>)
        ensures
            final(buffer)@ == old(buffer)@ + init_bytes(*self),
    {
        buffer.push(self.chunk_type);
        buffer.push(self.flags);
        push_be16(buffer, self.length);
        push_be32(buffer, self.initiate_tag);
        push_be32(buffer, self.a_rwnd);
        push_be16(buffer, self.outbound_streams);
        push_be16(buffer, self.inbound_streams);
        push_be32(buffer, self.initial_tsn);
        assert(final(buffer)@ =~= old(buffer)@ + init_bytes(*self));
    }
}

/// Reading INIT fields back from their wire form gives them unchanged.
pub proof fn law_init_roundtrip(c: Init)
    ensures
        spec_init(init_bytes(c)) == c,
{
    let b = init_bytes(c);
    let l = be16_bytes(c.length);
    let t = be32_bytes(c.initiate_tag);
    let w = be32_bytes(c.a_rwnd);
    let o = be16_bytes(c.outbound_streams);
    let i = be16_bytes(c.inbound_streams);
    let n = be32_bytes(c.initial_tsn);
    assert(b =~= seq![
        c.chunk_type, c.flags, l[0], l[1], t[0], t[1], t[2], t[3], w[0], w[1], w[2], w[3],
        o[0], o[1], i[0], i[1], n[0], n[1], n[2], n[3]
    ]);
    lemma_be16_roundtrip(c.length);
    lemma_be32_roundtrip(c.initiate_tag);
    lemma_be32_roundtrip(c.a_rwnd);
    lemma_be16_roundtrip(c.outbound_streams);
    lemma_be16_roundtrip(c.inbound_streams);
    lemma_be32_roundtrip(c.initial_tsn);
}

/// A COOKIE ECHO chunk; the cookie lies at `cookie_start..cookie_end` of the packet.
pub struct CookieEcho {
    pub chunk_type: u8,
    pub flags: u8,
    pub cookie_start: usize,
    pub cookie_end: usize,
}

impl CookieEcho {
    pub fn parse(buffer: &[u8]) -> (r: Self)
        requires
            buffer@.len() >= CHUNK_HEADER_LEN,
        ensures
            r == spec_cookie_echo(buffer@),
    {
        let chunk_type = buffer[0];
        let flags = buffer[1];
        let length = read_be16(buffer, 2);
        let cookie_start = SCTP_HEADER_LEN + CHUNK_HEADER_LEN;
        let cookie_end = SCTP_HEADER_LEN + length as usize;
        Self { chunk_type, flags, cookie_start, cookie_end }
    }

    pub fn cookie<'a>(&self, buffer: &'a [u8]) -> (r: &'a [u8])
        requires
            self.cookie_start <= self.cookie_end <= buffer@.len(),
        ensures
            r@ == buffer@.subrange(self.cookie_start as int, self.cookie_end as int),
    {
        &buffer[self.cookie_start..self.cookie_end]
    }

    pub fn build_cookie_ack(buffer: &mut Vec<u8>)
        ensures
            final(buffer)@ == old(buffer)@ + cookie_ack_bytes(),
    {
        buffer.push(COOKIE_ACK);
        buffer.push(DEFAULT_FLAGS);
        push_be16(buffer, COOKIE_ACK_LEN);
        assert(final(buffer)@ =~= old(buffer)@ + cookie_ack_bytes());
    }
}

/// The COOKIE ECHO chunk at the start of `b`, which follows the common header.
pub open spec fn spec_cookie_echo(b: Seq<u8>) -> CookieEcho {
    CookieEcho {
        chunk_type: b[0],
        flags: b[1],
        cookie_start: (SCTP_HEADER_LEN + CHUNK_HEADER_LEN) as usize,
        cookie_end: (SCTP_HEADER_LEN + be16_at(b, 2)) as usize,
    }
}

/// A COOKIE ACK chunk.
pub open spec fn cookie_ack_bytes() -> Seq<u8> {
    seq![COOKIE_ACK, DEFAULT_FLAGS] + be16_bytes(COOKIE_ACK_LEN)
}

/// A DATA chunk; its user data lies at `data_start..data_end` of the packet.
pub struct Data {
    pub chunk_type: u8,
    pub i: bool,
    pub u: bool,
    pub b: bool,
    pub e: bool,
    pub tsn: u32,
    pub stream_id: u16,
    pub stream_seq: u16,
    pub payload_id: u32,
    pub data_start: usize,
    pub data_end: usize,
}

/// The DATA chunk flags (I, U, B, E) in the second byte of a chunk.
pub open spec fn data_flags(flags: u8) -> (bool, bool, bool, bool) {
    (
        (flags & 0x08) >> 3u8 == 1,
        (flags & 0x04) >> 2u8 == 1,
        (flags & 0x02) >> 1u8 == 1,
        (flags & 0x01) == 1,
    )
}

/// The wire form of a DATA chunk, before padding. The length field holds
/// the header length plus the user data length modulo 2^16, as a 16-bit
/// field does.
pub open spec fn data_chunk_bytes(
    tsn: u32,
    stream_id: u16,
    stream_seq: u16,
    payload_id: u32,
    flags: u8,
    payload: Seq<u8>,
) -> Seq<u8> {
    seq![DATA, flags] + be16_bytes((DATA_HEADER_LEN + payload.len() % 0x10000) as u16) + be32_bytes(tsn)
        + be16_bytes(stream_id) + be16_bytes(stream_seq) + be32_bytes(payload_id) + payload
}

/// The zero bytes that bring a buffer of `len` bytes to a multiple of four.
pub open spec fn padding(len: int) -> Seq<u8> {
    Seq::new(((4 - len % 4) % 4) as nat, |i: int| 0u8)
}

/// The DATA chunk at the start of `b`, which follows the common header.
pub open spec fn spec_data(b: Seq<u8>) -> Data {
    let (i, u, bb, e) = data_flags(b[1]);
    Data {
        chunk_type: b[0],
        i,
        u,
        b: bb,
        e,
        tsn: be32_at(b, 4) as u32,
        stream_id: be16_at(b, 8) as u16,
        stream_seq: be16_at(b, 10) as u16,
        payload_id: be32_at(b, 12) as u32,
        data_start: (SCTP_HEADER_LEN + DATA_HEADER_LEN) as usize,
        data_end: (SCTP_HEADER_LEN + be16_at(b, 2)) as usize,
    }
}

/// Reading a DATA chunk back from its wire form gives its fields, and its
/// user data lies where the chunk says it does.
pub proof fn law_data_roundtrip(
    tsn: u32,
    stream_id: u16,
    stream_seq: u16,
    payload_id: u32,
    flags: u8,
    payload: Seq<u8>,
)
    requires
        DATA_HEADER_LEN + payload.len() <= u16::MAX,
    ensures
        ({
            let b = data_chunk_bytes(tsn, stream_id, stream_seq, payload_id, flags, payload);
            let d = spec_data(b);
            &&& d.chunk_type == DATA
            &&& (d.i, d.u, d.b, d.e) == data_flags(flags)
            &&& d.tsn == tsn
            &&& d.stream_id == stream_id
            &&& d.stream_seq == stream_seq
            &&& d.payload_id == payload_id
            &&& b.subrange(d.data_start - SCTP_HEADER_LEN, d.data_end - SCTP_HEADER_LEN) == payload
        }),
{
    let b = data_chunk_bytes(tsn, stream_id, stream_seq, payload_id, flags, payload);
    assert(payload.len() % 0x10000 == payload.len());
    let len = (DATA_HEADER_LEN + payload.len()) as u16;
    let l = be16_bytes(len);
    let t = be32_bytes(tsn);
    let s = be16_bytes(stream_id);
    let q = be16_bytes(stream_seq);
    let p = be32_bytes(payload_id);
    let head = seq![DATA, flags, l[0], l[1], t[0], t[1], t[2], t[3], s[0], s[1], q[0], q[1], p[0], p[1], p[2], p[3]];
    assert(b =~= head + payload);
    assert(b[1] == flags);
    lemma_be16_roundtrip(len);
    lemma_be32_roundtrip(tsn);
    lemma_be16_roundtrip(stream_id);
    lemma_be16_roundtrip(stream_seq);
    lemma_be32_roundtrip(payload_id);
    assert(be16_at(b, 2) == len);
    assert(b.subrange(DATA_HEADER_LEN as int, DATA_HEADER_LEN + payload.len()) =~= payload);
}

impl Data {
    pub fn parse(buffer: &[u8]) -> (r: Self)
        requires
            buffer@.len() >= DATA_HEADER_LEN,
        ensures
            r == spec_data(buffer@),
    {
        let chunk_type = buffer[0];
        let i = (buffer[1] & 0x08) >> 3u8 == 1;
        let u = (buffer[1] & 0x04) >> 2u8 == 1;
        let b = (buffer[1] & 0x02) >> 1u8 == 1;
        let e = (buffer[1] & 0x01) == 1;
        let length = read_be16(buffer, 2);
        let tsn = read_be32(buffer, 4);
        let stream_id = read_be16(buffer, 8);
        let stream_seq = read_be16(buffer, 10);
        let payload_id = read_be32(buffer, 12);
        let data_start = SCTP_HEADER_LEN + DATA_HEADER_LEN;
        let data_end = SCTP_HEADER_LEN + length as usize;
        Self { chunk_type, i, u, b, e, tsn, stream_id, stream_seq, payload_id, data_start, data_end }
    }

    /// Appends a DATA chunk and pads the buffer to a multiple of four bytes.
    pub fn write_to(
        tsn: u32,
        stream_id: u16,
        stream_seq: u16,
        payload_id: u32,
        flags: u8,
        payload: &[u8],
        buffer: &mut Vec<u8>,
    )
        requires
            DATA_HEADER_LEN + payload@.len() % 0x10000 <= u16::MAX,
        ensures
            ({
                let unpadded = old(buffer)@ + data_chunk_bytes(tsn, stream_id, stream_seq, payload_id, flags, payload@);
                final(buffer)@ == unpadded + padding(unpadded.len() as int)
            }),
    {
        buffer.push(DATA);
        buffer.push(flags);
        push_be16(buffer, DATA_HEADER_LEN as u16 + (payload.len() % 0x10000) as u16);
        push_be32(buffer, tsn);
        push_be16(buffer, stream_id);
        push_be16(buffer, stream_seq);
        push_be32(buffer, payload_id);
        buffer.extend_from_slice(payload);
        let ghost unpadded = buffer@;
        assert(unpadded =~= old(buffer)@ + data_chunk_bytes(tsn, stream_id, stream_seq, payload_id, flags, payload@));
        while buffer.len() % 4 != 0
            invariant
                unpadded.len() <= buffer@.len() <= unpadded.len() + 3,
                buffer@.subrange(0, unpadded.len() as int) == unpadded,
                forall|k: int| unpadded.len() <= k < buffer@.len() ==> buffer@[k] == 0,
                (buffer@.len() - unpadded.len()) <= (4 - unpadded.len() % 4) % 4,
            decreases unpadded.len() + 3 - buffer@.len(),
        {
            buffer.push(0);
        }
        assert(buffer@ =~= unpadded + padding(unpadded.len() as int));
    }
}

} // verus!
