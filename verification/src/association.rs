//! The SCTP association state of one WebRTC peer.
use vstd::prelude::*;
use crate::chunk::{
    data_chunk_bytes, init_ack_bytes, padding, sack_bytes, Chunk, Data, Init, Sack, DATA, DATA_CHANNEL_ACK,
    DATA_CHANNEL_OPEN, SACK, DATA_UNFRAGMENTED_FLAGS, DEFAULT_A_RWND, PPID_DCEP,
};
use crate::primitives::{random_nonzero_u32, random_u32};
use crate::sctp::{reply_header_bytes, with_checksum, SctpHeader, SctpPacket};
use crate::bytes::{be16_at, be16_bytes, be32_at, be32_bytes, lemma_be16_roundtrip, lemma_be32_roundtrip};

verus! {

pub const DEFAULT_OUTBOUND_STREAMS: u16 = 1024;
pub const DEFAULT_INBOUND_STREAMS: u16 = 1024;

/// The abstract state of an association.
pub ghost struct AssociationState {
    pub tag: u32,
    pub peer_tag: u32,
    pub tsn: u32,
    pub cumulative_tsn: u32,
    pub a_rwnd: u32,
    pub outbound_streams: u16,
    pub inbound_streams: u16,
    pub cookie: u32,
    pub established: bool,
}

/// The association that an INIT opens, with our tag, first TSN and cookie.
pub open spec fn initial_association(init: Init, tag: u32, tsn: u32, cookie: u32) -> AssociationState {
    AssociationState {
        tag,
        peer_tag: init.initiate_tag,
        tsn,
        cumulative_tsn: if init.initial_tsn == 0 { u32::MAX } else { (init.initial_tsn - 1) as u32 },
        a_rwnd: init.a_rwnd,
        outbound_streams: if init.outbound_streams < DEFAULT_OUTBOUND_STREAMS { init.outbound_streams } else { DEFAULT_OUTBOUND_STREAMS },
        inbound_streams: if init.inbound_streams < DEFAULT_INBOUND_STREAMS { init.inbound_streams } else { DEFAULT_INBOUND_STREAMS },
        cookie,
        established: false,
    }
}

/// The INIT ACK packet that answers an INIT with header `header`.
pub open spec fn init_ack_packet(a: AssociationState, header: SctpHeader) -> Seq<u8> {
    with_checksum(
        reply_header_bytes(header, a.peer_tag)
            + init_ack_bytes(a.tag, a.tsn, a.outbound_streams, a.inbound_streams, a.cookie),
    )
}

/// The user data is a DCEP DATA_CHANNEL_OPEN message.
pub open spec fn is_channel_open(payload_id: u32, payload: Seq<u8>) -> bool {
    payload_id == PPID_DCEP && payload.len() > 0 && payload[0] == DATA_CHANNEL_OPEN
}

/// What receiving a DATA chunk does: the cumulative TSN follows it, the
/// reply acknowledges it, and a channel open is answered with a
/// DATA_CHANNEL_ACK on the same stream.
pub open spec fn data_outcome(a: AssociationState, header: SctpHeader, data: Data, payload: Seq<u8>) -> (AssociationState, Seq<u8>) {
    let acknowledged = AssociationState { cumulative_tsn: data.tsn, ..a };
    let base = reply_header_bytes(header, a.peer_tag) + sack_bytes(data.tsn, DEFAULT_A_RWND);
    if is_channel_open(data.payload_id, payload) {
        let unpadded = base + data_chunk_bytes(
            a.tsn,
            data.stream_id,
            0,
            PPID_DCEP,
            DATA_UNFRAGMENTED_FLAGS,
            seq![DATA_CHANNEL_ACK],
        );
        (
            AssociationState { tsn: if a.tsn == u32::MAX { 0 } else { (a.tsn + 1) as u32 }, ..acknowledged },
            with_checksum(unpadded + padding(unpadded.len() as int)),
        )
    } else {
        (acknowledged, with_checksum(base))
    }
}

/// Every reply to a DATA chunk goes back where the chunk came from and is
/// addressed with the peer's verification tag (RFC 4960, section 8.5):
/// ports swapped, the peer's tag in bytes 4..8. It opens with a SACK whose
/// cumulative TSN is the chunk's TSN, which the association now holds. A
/// DCEP channel open is also answered with a DATA_CHANNEL_ACK on the same
/// stream under our next TSN, which then advances by one; any other chunk
/// gets the SACK alone. The INIT ACK too is addressed with the peer's tag.
pub proof fn law_replies_carry_peer_tag(a: AssociationState, header: SctpHeader, data: Data, payload: Seq<u8>)
    ensures
        ({
            let (next, reply) = data_outcome(a, header, data, payload);
            &&& reply.subrange(0, 2) == be16_bytes(header.destination_port)
            &&& reply.subrange(2, 4) == be16_bytes(header.source_port)
            &&& reply.subrange(4, 8) == be32_bytes(a.peer_tag)
            &&& reply[12] == SACK
            &&& be32_at(reply, 16) == data.tsn
            &&& next.cumulative_tsn == data.tsn
            &&& next.peer_tag == a.peer_tag && next.tag == a.tag && next.cookie == a.cookie
            &&& is_channel_open(data.payload_id, payload) ==> {
                &&& reply[28] == DATA
                &&& be32_at(reply, 32) == a.tsn
                &&& be16_at(reply, 36) == data.stream_id
                &&& be32_at(reply, 40) == PPID_DCEP
                &&& reply[44] == DATA_CHANNEL_ACK
                &&& next.tsn == (a.tsn as int + 1) % 0x1_0000_0000
            }
            &&& !is_channel_open(data.payload_id, payload) ==> reply.len() == 28 && next.tsn == a.tsn
        }),
        init_ack_packet(a, header).subrange(0, 2) == be16_bytes(header.destination_port),
        init_ack_packet(a, header).subrange(2, 4) == be16_bytes(header.source_port),
        init_ack_packet(a, header).subrange(4, 8) == be32_bytes(a.peer_tag),
{
    let base = reply_header_bytes(header, a.peer_tag) + sack_bytes(data.tsn, DEFAULT_A_RWND);
    let t = be32_bytes(data.tsn);
    lemma_be32_roundtrip(data.tsn);
    assert(base.len() == 28);
    assert(base.subrange(16, 20) =~= t);
    assert(be32_at(base, 16) == be32_at(t, 0));
    let (next, reply) = data_outcome(a, header, data, payload);
    if is_channel_open(data.payload_id, payload) {
        let chunk = data_chunk_bytes(a.tsn, data.stream_id, 0, PPID_DCEP, DATA_UNFRAGMENTED_FLAGS, seq![DATA_CHANNEL_ACK]);
        let unpadded = base + chunk;
        let tt = be32_bytes(a.tsn);
        let st = be16_bytes(data.stream_id);
        let pp = be32_bytes(PPID_DCEP);
        lemma_be32_roundtrip(a.tsn);
        lemma_be16_roundtrip(data.stream_id);
        lemma_be32_roundtrip(PPID_DCEP);
        assert(chunk.subrange(4, 8) =~= tt);
        assert(chunk.subrange(8, 10) =~= st);
        assert(chunk.subrange(12, 16) =~= pp);
        assert(unpadded.len() == 45);
        let padded = unpadded + padding(unpadded.len() as int);
        assert(reply == with_checksum(padded));
        assert(reply.subrange(12, 45) =~= unpadded.subrange(12, 45));
        assert(reply.subrange(0, 8) =~= unpadded.subrange(0, 8));
        assert(reply[32] == tt[0] && reply[33] == tt[1] && reply[34] == tt[2] && reply[35] == tt[3]);
        assert(reply[36] == st[0] && reply[37] == st[1]);
        assert(reply[40] == pp[0] && reply[41] == pp[1] && reply[42] == pp[2] && reply[43] == pp[3]);
        assert(reply[16] == t[0] && reply[17] == t[1] && reply[18] == t[2] && reply[19] == t[3]);
    } else {
        assert(reply[16] == t[0] && reply[17] == t[1] && reply[18] == t[2] && reply[19] == t[3]);
    }
    assert(reply.subrange(0, 2) =~= be16_bytes(header.destination_port));
    assert(reply.subrange(2, 4) =~= be16_bytes(header.source_port));
    assert(reply.subrange(4, 8) =~= be32_bytes(a.peer_tag));
    let ack = init_ack_packet(a, header);
    assert(ack.subrange(0, 2) =~= be16_bytes(header.destination_port));
    assert(ack.subrange(2, 4) =~= be16_bytes(header.source_port));
    assert(ack.subrange(4, 8) =~= be32_bytes(a.peer_tag));
}

enum State {
    CookieWait,
    Established,
}

pub struct Association {
    tag: u32,
    pub peer_tag: u32,
    tsn: u32,
    cumulative_tsn: u32,
    a_rwnd: u32,
    outbound_streams: u16,
    inbound_streams: u16,
    pub cookie: u32,
    state: State,
}

impl View for Association {
    type V = AssociationState;

    closed spec fn view(&self) -> AssociationState {
        AssociationState {
            tag: self.tag,
            peer_tag: self.peer_tag,
            tsn: self.tsn,
            cumulative_tsn: self.cumulative_tsn,
            a_rwnd: self.a_rwnd,
            outbound_streams: self.outbound_streams,
            inbound_streams: self.inbound_streams,
            cookie: self.cookie,
            established: self.state is Established,
        }
    }
}

impl Association {
    /// A new association for `init`, with a random non-zero tag, a random
    /// first TSN and a random cookie.
    pub fn new(init: &Init) -> (r: Self)
        ensures
            r@ == initial_association(*init, r@.tag, r@.tsn, r@.cookie),
            r@.tag != 0,
    {
        let tag = random_nonzero_u32();
        let tsn = random_u32();
        let cookie = random_u32();
        Self::from_init(init, tag, tsn, cookie)
    }

    /// The association for `init` with the given tag, first TSN and cookie.
    pub fn from_init(init: &Init, tag: u32, tsn: u32, cookie: u32) -> (r: Self)
        ensures
            r@ == initial_association(*init, tag, tsn, cookie),
    {
        let outbound_streams = if init.outbound_streams < DEFAULT_OUTBOUND_STREAMS {
            init.outbound_streams
        } else {
            DEFAULT_OUTBOUND_STREAMS
        };
        let inbound_streams = if init.inbound_streams < DEFAULT_INBOUND_STREAMS {
            init.inbound_streams
        } else {
            DEFAULT_INBOUND_STREAMS
        };
        Self {
            tag,
            peer_tag: init.initiate_tag,
            tsn,
            cumulative_tsn: init.initial_tsn.wrapping_sub(1),
            a_rwnd: init.a_rwnd,
            outbound_streams,
            inbound_streams,
            cookie,
            state: State::CookieWait,
        }
    }

    pub fn peer_tag(&self) -> (r: u32)
        ensures
            r == self@.peer_tag,
    {
        self.peer_tag
    }

    pub fn cookie(&self) -> (r: u32)
        ensures
            r == self@.cookie,
    {
        self.cookie
    }

    pub fn establish(&mut self)
        ensures
            final(self)@ == (AssociationState { established: true, ..old(self)@ }),
    {
        self.state = State::Established;
    }

    pub fn build_init_ack(&self, header: &SctpHeader, buffer: &mut Vec<u8>)
        ensures
            final(buffer)@ == init_ack_packet(self@, *header),
    {
        SctpPacket::begin(header, self.peer_tag, buffer);
        Init::build_init_ack(
            self.tag,
            self.tsn,
            self.outbound_streams,
            self.inbound_streams,
            self.cookie,
            buffer,
        );
        SctpPacket::finish(buffer.as_mut_slice());
    }

    /// Answers a DATA chunk: writes the reply into `buffer` and returns true;
    /// a packet with another chunk is left alone and false is returned.
    #[verifier::rlimit(40)]
    pub fn handle(&mut self, sctp: &SctpPacket, buffer: &mut Vec<u8>) -> (r: bool)
        requires
            sctp.chunk matches Chunk::Data(d) ==> d.data_start <= d.data_end <= sctp.raw@.len(),
        ensures
            match sctp.chunk {
                Chunk::Data(d) => {
                    let outcome = data_outcome(
                        old(self)@,
                        sctp.header,
                        d,
                        sctp.raw@.subrange(d.data_start as int, d.data_end as int),
                    );
                    &&& r
                    &&& final(self)@ == outcome.0
                    &&& final(buffer)@ == outcome.1
                },
                _ => !r && final(self)@ == old(self)@ && final(buffer)@ == old(buffer)@,
            },
    {
        let data = match &sctp.chunk {
            Chunk::Data(data) => data,
            _ => return false,
        };

        self.cumulative_tsn = data.tsn;

        SctpPacket::begin(&sctp.header, self.peer_tag, buffer);
        Sack::write_to(self.cumulative_tsn, DEFAULT_A_RWND, buffer);

        let ghost base = buffer@;
        assert(base == reply_header_bytes(sctp.header, old(self)@.peer_tag) + sack_bytes(data.tsn, DEFAULT_A_RWND));
        let payload = &sctp.raw[data.data_start..data.data_end];
        if data.payload_id == PPID_DCEP {
            if payload.len() > 0 && payload[0] == DATA_CHANNEL_OPEN {
                let ack = [DATA_CHANNEL_ACK];
                assert(ack@ =~= seq![DATA_CHANNEL_ACK]);
                Data::write_to(self.tsn, data.stream_id, 0, PPID_DCEP, DATA_UNFRAGMENTED_FLAGS, &ack, buffer);
                self.tsn = self.tsn.wrapping_add(1);
            }
        }
        let ghost unsummed = buffer@;
        SctpPacket::finish(buffer.as_mut_slice());
        assert(buffer@ == with_checksum(unsummed));
        true
    }
}

} // verus!
