//! SCTP packets over DTLS and the association that a WebRTC peer opens.
use vstd::prelude::*;
use crate::association::{data_outcome, init_ack_packet, initial_association, Association, AssociationState};
use crate::bytes::{
    be16_at, be16_bytes, be32_at, be32_bytes, le32_at, le32_bytes, push_be16, push_be32, push_le32, read_be16,
    read_be32, read_le32,
};
use crate::chunk::{
    cookie_ack_bytes, spec_cookie_echo, spec_data, spec_init, Chunk, CookieEcho, Data, Init, CHUNK_HEADER_LEN,
    COOKIE_ECHO, DATA, DATA_HEADER_LEN, INIT, INIT_LEN,
};
use crate::primitives::{crc32c, crc32c_checksum};

verus! {

pub const HEADER_LEN: usize = 12;

/// The common header of an SCTP packet.
pub struct SctpHeader {
    pub source_port: u16,
    pub destination_port: u16,
    pub verification_tag: u32,
    pub checksum: u32,
}

/// The common header at the start of `p`; the checksum is little-endian.
pub open spec fn spec_sctp_header(p: Seq<u8>) -> SctpHeader {
    SctpHeader {
        source_port: be16_at(p, 0) as u16,
        destination_port: be16_at(p, 2) as u16,
        verification_tag: be32_at(p, 4) as u32,
        checksum: le32_at(p, 8) as u32,
    }
}

/// The wire form of a common header.
pub open spec fn sctp_header_bytes(h: SctpHeader) -> Seq<u8> {
    be16_bytes(h.source_port) + be16_bytes(h.destination_port) + be32_bytes(h.verification_tag)
        + le32_bytes(h.checksum)
}

/// The header of a reply to a packet with header `h`: ports swapped, the
/// given verification tag, checksum zero.
pub open spec fn reply_header_bytes(h: SctpHeader, verification_tag: u32) -> Seq<u8> {
    be16_bytes(h.destination_port) + be16_bytes(h.source_port) + be32_bytes(verification_tag) + be32_bytes(0)
}

/// `p` with the CRC-32C of `p` stored little-endian in bytes 8..12.
pub open spec fn with_checksum(p: Seq<u8>) -> Seq<u8> {
    p.subrange(0, 8) + le32_bytes(crc32c(p)) + p.subrange(12, p.len() as int)
}

/// `p` is long enough for the chunk that its type byte announces.
pub open spec fn sctp_parsable(p: Seq<u8>) -> bool {
    &&& p.len() > HEADER_LEN
    &&& p[HEADER_LEN as int] == DATA ==> p.len() >= HEADER_LEN + DATA_HEADER_LEN
    &&& p[HEADER_LEN as int] == INIT ==> p.len() >= HEADER_LEN + INIT_LEN
    &&& p[HEADER_LEN as int] == COOKIE_ECHO ==> p.len() >= HEADER_LEN + CHUNK_HEADER_LEN
}

/// The first chunk of `p`.
pub open spec fn spec_chunk(p: Seq<u8>) -> Chunk {
    let body = p.subrange(HEADER_LEN as int, p.len() as int);
    let chunk_type = p[HEADER_LEN as int];
    if chunk_type == DATA {
        Chunk::Data(spec_data(body))
    } else if chunk_type == INIT {
        Chunk::Init(spec_init(body))
    } else if chunk_type == COOKIE_ECHO {
        Chunk::CookieEcho(spec_cookie_echo(body))
    } else {
        Chunk::Unknown(chunk_type)
    }
}

impl SctpHeader {
    fn parse(packet: &[u8]) -> (h: Self)
        requires
            packet@.len() >= HEADER_LEN,
        ensures
            h == spec_sctp_header(packet@),
    {
        let source_port = read_be16(packet, 0);
        let destination_port = read_be16(packet, 2);
        let verification_tag = read_be32(packet, 4);
        let checksum = read_le32(packet, 8);
        Self { source_port, destination_port, verification_tag, checksum }
    }

    fn write_to(&self, buffer: &mut Vec<u8>)
        ensures
            final(buffer)@ == old(buffer)@ + sctp_header_bytes(*self),
    {
        push_be16(buffer, self.source_port);
        push_be16(buffer, self.destination_port);
        push_be32(buffer, self.verification_tag);
        push_le32(buffer, self.checksum);
        assert(final(buffer)@ =~= old(buffer)@ + sctp_header_bytes(*self));
    }
}

/// A parsed SCTP packet with its first chunk; it borrows its bytes.
pub struct SctpPacket<'a> {
    pub header: SctpHeader,
    pub chunk: Chunk,
    pub raw: &'a [u8],
}

impl<'a> SctpPacket<'a> {
    pub fn new(packet: &'a [u8]) -> (r: Self)
        requires
            sctp_parsable(packet@),
        ensures
            r.header == spec_sctp_header(packet@),
            r.chunk == spec_chunk(packet@),
            r.raw == packet,
    {
        let header = SctpHeader::parse(packet);
        let chunk_type = packet[HEADER_LEN];
        let body = &packet[HEADER_LEN..packet.len()];
        let chunk = if chunk_type == DATA {
            Chunk::Data(Data::parse(body))
        } else if chunk_type == INIT {
            Chunk::Init(Init::parse(body))
        } else if chunk_type == COOKIE_ECHO {
            Chunk::CookieEcho(CookieEcho::parse(body))
        } else {
            Chunk::Unknown(chunk_type)
        };
        Self { header, chunk, raw: packet }
    }

    /// Starts a reply in `buffer`: the header with ports swapped and a zero checksum.
    pub fn begin(header: &SctpHeader, verification_tag: u32, buffer: &mut Vec<u8>)
        ensures
            final(buffer)@ == reply_header_bytes(*header, verification_tag),
    {
        buffer.clear();
        push_be16(buffer, header.destination_port);
        push_be16(buffer, header.source_port);
        push_be32(buffer, verification_tag);
        push_be32(buffer, 0);
        assert(final(buffer)@ =~= reply_header_bytes(*header, verification_tag));
    }

    /// Stores the CRC-32C of the whole packet in its checksum field.
    pub fn finish(buffer: &mut [u8])
        requires
            old(buffer)@.len() >= HEADER_LEN,
        ensures
            final(buffer)@ == with_checksum(old(buffer)@),
    {
        let checksum = crc32c_checksum(buffer);
        buffer[8] = (checksum % 256) as u8;
        buffer[9] = (checksum / 256 % 256) as u8;
        buffer[10] = (checksum / 65536 % 256) as u8;
        buffer[11] = (checksum / 16777216) as u8;
        assert(final(buffer)@ =~= with_checksum(old(buffer)@));
    }

    /// A whole reply packet: the reply header, `chunks`, and the checksum.
    pub fn build(header: &SctpHeader, verification_tag: u32, chunks: &[u8]) -> (r: Vec<u8>)
        ensures
            r@ == with_checksum(reply_header_bytes(*header, verification_tag) + chunks@),
    {
        let mut packet: Vec<u8> = Vec::with_capacity(1024);
        let reply = SctpHeader {
            source_port: header.destination_port,
            destination_port: header.source_port,
            verification_tag: verification_tag,
            checksum: 0,
        };
        reply.write_to(&mut packet);
        packet.extend_from_slice(chunks);
        let ghost unsummed = packet@;
        assert(le32_bytes(0) =~= be32_bytes(0));
        assert(unsummed =~= reply_header_bytes(*header, verification_tag) + chunks@);
        let checksum = crc32c_checksum(packet.as_slice());
        packet.set(8, (checksum % 256) as u8);
        packet.set(9, (checksum / 256 % 256) as u8);
        packet.set(10, (checksum / 65536 % 256) as u8);
        packet.set(11, (checksum / 16777216) as u8);
        assert(packet@ =~= with_checksum(unsummed));
        packet
    }

    pub fn build_cookie_ack(header: &SctpHeader, verification_tag: u32, buffer: &mut Vec<u8>)
        ensures
            final(buffer)@ == with_checksum(reply_header_bytes(*header, verification_tag) + cookie_ack_bytes()),
    {
        Self::begin(header, verification_tag, buffer);
        CookieEcho::build_cookie_ack(buffer);
        SctpPacket::finish(buffer.as_mut_slice());
    }
}

/// The SCTP endpoint of one DTLS session: at most one association.
pub struct Sctp {
    association: Option<Association>,
}

impl View for Sctp {
    type V = Option<AssociationState>;

    closed spec fn view(&self) -> Option<AssociationState> {
        match self.association {
            Some(a) => Some(a@),
            None => None,
        }
    }
}

/// `packet` can be handled without reading past its end, given the current association.
pub open spec fn sctp_handle_ready(association: Option<AssociationState>, packet: Seq<u8>) -> bool {
    &&& sctp_parsable(packet)
    &&& association is Some ==> match spec_chunk(packet) {
        Chunk::CookieEcho(c) => c.cookie_start <= c.cookie_end <= packet.len(),
        Chunk::Data(d) => d.data_start <= d.data_end <= packet.len(),
        _ => true,
    }
}

fn cookie_matches(cookie: &[u8], expected: u32) -> (r: bool)
    ensures
        r == (cookie@ == be32_bytes(expected)),
{
    let e = [(expected / 16777216) as u8, (expected / 65536 % 256) as u8, (expected / 256 % 256) as u8, (expected % 256) as u8];
    assert(e@ =~= be32_bytes(expected));
    if cookie.len() != 4 {
        return false;
    }
    let r = cookie[0] == e[0] && cookie[1] == e[1] && cookie[2] == e[2] && cookie[3] == e[3];
    assert(r ==> cookie@ =~= e@);
    r
}

impl Sctp {
    pub fn new() -> (r: Self)
        ensures
            r@ is None,
    {
        Self { association: None }
    }

    /// Whether `handle` can run on `packet`.
    pub fn can_handle(&self, packet: &[u8]) -> (r: bool)
        ensures
            r == sctp_handle_ready(self@, packet@),
    {
        if packet.len() <= HEADER_LEN {
            return false;
        }
        let chunk_type = packet[HEADER_LEN];
        let need = if chunk_type == DATA {
            HEADER_LEN + DATA_HEADER_LEN
        } else if chunk_type == INIT {
            HEADER_LEN + INIT_LEN as usize
        } else if chunk_type == COOKIE_ECHO {
            HEADER_LEN + CHUNK_HEADER_LEN
        } else {
            HEADER_LEN + 1
        };
        if packet.len() < need {
            return false;
        }
        if self.association.is_none() || (chunk_type != DATA && chunk_type != COOKIE_ECHO) {
            return true;
        }
        let end = HEADER_LEN + read_be16(packet, HEADER_LEN + 2) as usize;
        let start = if chunk_type == DATA { HEADER_LEN + DATA_HEADER_LEN } else { HEADER_LEN + CHUNK_HEADER_LEN };
        proof {
            let body = packet@.subrange(HEADER_LEN as int, packet@.len() as int);
            assert(be16_at(body, 2) == be16_at(packet@, HEADER_LEN + 2));
        }
        start <= end && end <= packet.len()
    }

    /// Whether an association has been opened.
    pub fn has_association(&self) -> (r: bool)
        ensures
            r == self@ is Some,
    {
        self.association.is_some()
    }

    /// Handles one SCTP packet. When a reply is due it is written into
    /// `buffer` and true is returned; otherwise `buffer` is left as it was.
    /// An INIT (re)opens the association, a COOKIE ECHO with the right
    /// cookie establishes it, and DATA is acknowledged.
    pub fn handle(&mut self, packet: &[u8], buffer: &mut Vec<u8>) -> (r: bool)
        requires
            sctp_handle_ready(old(self)@, packet@),
        ensures
            ({
                let header = spec_sctp_header(packet@);
                let unchanged = !r && final(self)@ == old(self)@ && final(buffer)@ == old(buffer)@;
                match spec_chunk(packet@) {
                    Chunk::Init(init) => {
                        let kept = old(self)@ matches Some(o) && o.peer_tag == init.initiate_tag;
                        &&& r
                        &&& final(self)@ matches Some(a)
                        &&& kept ==> final(self)@ == old(self)@
                        &&& !kept ==> final(self)@->0 == initial_association(
                            init,
                            final(self)@->0.tag,
                            final(self)@->0.tsn,
                            final(self)@->0.cookie,
                        ) && final(self)@->0.tag != 0
                        &&& final(buffer)@ == init_ack_packet(final(self)@->0, header)
                    },
                    Chunk::CookieEcho(c) => match old(self)@ {
                        None => unchanged,
                        Some(o) => if packet@.subrange(c.cookie_start as int, c.cookie_end as int) == be32_bytes(o.cookie) {
                            &&& r
                            &&& final(self)@ == Some(AssociationState { established: true, ..o })
                            &&& final(buffer)@ == with_checksum(reply_header_bytes(header, o.peer_tag) + cookie_ack_bytes())
                        } else {
                            unchanged
                        },
                    },
                    Chunk::Data(d) => match old(self)@ {
                        None => unchanged,
                        Some(o) => {
                            let outcome = data_outcome(
                                o,
                                header,
                                d,
                                packet@.subrange(d.data_start as int, d.data_end as int),
                            );
                            &&& r
                            &&& final(self)@ == Some(outcome.0)
                            &&& final(buffer)@ == outcome.1
                        },
                    },
                    Chunk::Unknown(_) => unchanged,
                }
            }),
    {
        let sctp = SctpPacket::new(packet);
        match &sctp.chunk {
            Chunk::Init(init) => {
                let kept = match &self.association {
                    Some(association) => association.peer_tag() == init.initiate_tag,
                    None => false,
                };
                if !kept {
                    self.association = Some(Association::new(init));
                }
                if let Some(association) = &self.association {
                    association.build_init_ack(&sctp.header, buffer);
                }
                true
            },
            Chunk::CookieEcho(cookie_echo) => {
                if let Some(association) = &mut self.association {
                    if cookie_matches(cookie_echo.cookie(packet), association.cookie()) {
                        association.establish();
                        let peer_tag = association.peer_tag();
                        SctpPacket::build_cookie_ack(&sctp.header, peer_tag, buffer);
                        return true;
                    }
                }
                false
            },
            Chunk::Data(_) => {
                if let Some(association) = &mut self.association {
                    association.handle(&sctp, buffer)
                } else {
                    false
                }
            },
            Chunk::Unknown(_) => false,
        }
    }
}

/// A common header is written as 12 bytes, and reading it back from them
/// (what `SctpHeader::write_to` appends and `SctpHeader::parse` reads)
/// gives it unchanged.
pub proof fn law_header_roundtrip(h: SctpHeader)
    ensures
        sctp_header_bytes(h).len() == HEADER_LEN,
        spec_sctp_header(sctp_header_bytes(h)) == h,
{
    let s = be16_bytes(h.source_port);
    let d = be16_bytes(h.destination_port);
    let t = be32_bytes(h.verification_tag);
    let c = le32_bytes(h.checksum);
    assert(sctp_header_bytes(h) =~= seq![s[0], s[1], d[0], d[1], t[0], t[1], t[2], t[3], c[0], c[1], c[2], c[3]]);
    crate::bytes::lemma_be16_roundtrip(h.source_port);
    crate::bytes::lemma_be16_roundtrip(h.destination_port);
    crate::bytes::lemma_be32_roundtrip(h.verification_tag);
    crate::bytes::lemma_le32_roundtrip(h.checksum);
}

} // verus!
