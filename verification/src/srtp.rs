//! SRTP (RFC 3711) with AES-128 counter mode and HMAC-SHA1-80, keyed from DTLS.
use vstd::prelude::*;
use openssl::error::ErrorStack;
use openssl::ssl::SslRef;
use crate::bytes::{be16_at, be32_at, be32_bytes, push_be32, read_be16, read_be32};
use crate::primitives::{
    aes128_ctr_apply, aes128_ctr_keystream, first_bytes, hmac_sha1, hmac_sha1_tag,
    hmac_sha1_verify_truncated, xor_bytes,
};
use crate::rtp::{
    spec_fixed_size, spec_has_extension, spec_payload_start, RtpPacket, CSRC_LEN, EXTENSION_HEADER_LEN, FIXED_HEADER_LEN,
};

verus! {

pub const RTP_KEY_LABEL: u8 = 0x00;
pub const RTP_AUTH_LABEL: u8 = 0x01;
pub const RTP_SALT_LABEL: u8 = 0x02;
pub const RTCP_KEY_LABEL: u8 = 0x03;
pub const RTCP_AUTH_LABEL: u8 = 0x04;
pub const RTCP_SALT_LABEL: u8 = 0x05;

/// Length of the authentication tag that SRTP appends.
pub const TAG_LEN: usize = 10;
/// Length of the keying material exported from DTLS.
pub const KEYING_MATERIAL_LEN: usize = 60;

/// The rollover counter of one synchronization source.
struct Stream {
    ssrc: u32,
    roc: u64,
}

/// The keys and per-source counters of one direction.
struct Session {
    rtp_key: [u8; 16],
    rtp_auth: [u8; 20],
    rtp_salt: [u8; 14],
    rtcp_key: [u8; 16],
    rtcp_auth: [u8; 20],
    rtcp_salt: [u8; 14],
    streams: Vec<Stream>,
}

/// The abstract state of one direction: RTP keys and `(ssrc, roc)` pairs.
pub ghost struct SessionState {
    pub rtp_key: Seq<u8>,
    pub rtp_auth: Seq<u8>,
    pub rtp_salt: Seq<u8>,
    pub streams: Seq<(u32, u64)>,
}

/// The abstract state of a context.
pub ghost struct SrtpState {
    pub outbound: SessionState,
    pub inbound: SessionState,
}

/// Index of the first stream of `ssrc` at or after `i`.
pub open spec fn find_stream_from(streams: Seq<(u32, u64)>, ssrc: u32, i: int) -> Option<int>
    decreases streams.len() - i,
{
    if i < 0 || i >= streams.len() {
        None
    } else if streams[i].0 == ssrc {
        Some(i)
    } else {
        find_stream_from(streams, ssrc, i + 1)
    }
}

/// Index of the first stream of `ssrc`.
pub open spec fn find_stream(streams: Seq<(u32, u64)>, ssrc: u32) -> Option<int> {
    find_stream_from(streams, ssrc, 0)
}

/// The rollover counter of `ssrc`; a source not seen yet starts at zero.
pub open spec fn current_roc(streams: Seq<(u32, u64)>, ssrc: u32) -> u64 {
    match find_stream(streams, ssrc) {
        Some(p) => streams[p].1,
        None => 0,
    }
}

/// Sequence number zero starts a new rollover period.
pub open spec fn next_roc(streams: Seq<(u32, u64)>, ssrc: u32, seq: u16) -> u64 {
    if seq == 0 { (current_roc(streams, ssrc) + 1) as u64 } else { current_roc(streams, ssrc) }
}

/// The counter can take the next step without overflowing.
pub open spec fn can_advance(streams: Seq<(u32, u64)>, ssrc: u32, seq: u16) -> bool {
    !(seq == 0 && current_roc(streams, ssrc) == u64::MAX)
}

/// The streams after a packet of `ssrc` with `seq`: its counter updated, or
/// a new stream added at the end.
pub open spec fn advance_streams(streams: Seq<(u32, u64)>, ssrc: u32, seq: u16) -> Seq<(u32, u64)> {
    match find_stream(streams, ssrc) {
        Some(p) => streams.update(p, (ssrc, next_roc(streams, ssrc, seq))),
        None => streams.push((ssrc, next_roc(streams, ssrc, seq))),
    }
}

/// The packet index: rollover counter above the 16-bit sequence number.
pub open spec fn packet_index(roc: u64, seq: u16) -> u64 {
    (roc << 16u64) | (seq as u64)
}

/// The SRTP packet index (RFC 3711, section 3.3.1) is the rollover counter
/// times 2^16 plus the sequence number: its low 16 bits are the sequence
/// number, and above them sits the rollover counter, which is what the
/// authentication tag covers.
pub proof fn law_packet_index(roc: u64, seq: u16)
    requires
        roc < 0x1_0000_0000_0000,
    ensures
        packet_index(roc, seq) == roc * 65536 + seq,
        packet_index(roc, seq) % 65536 == seq,
        packet_index(roc, seq) / 65536 == roc,
        roc < 0x1_0000_0000 ==> (packet_index(roc, seq) >> 16u64) as u32 == roc,
{
    let s = seq as u64;
    assert(((roc << 16u64) | s) == roc * 65536 + s) by (bit_vector)
        requires
            roc < 0x1_0000_0000_0000,
            s < 65536,
    ;
    assert((((roc << 16u64) | s) >> 16u64) == roc) by (bit_vector)
        requires
            roc < 0x1_0000_0000_0000,
            s < 65536,
    ;
}

/// SSRC and sequence number fields of an RTP header.
pub open spec fn rtp_ssrc(p: Seq<u8>) -> u32 {
    be32_at(p, 8) as u32
}

pub open spec fn rtp_seq(p: Seq<u8>) -> u16 {
    be16_at(p, 2) as u16
}

/// The low 48 bits of `v`, big-endian.
pub open spec fn low48_bytes(v: u64) -> Seq<u8> {
    seq![
        (v / 0x100_0000_0000 % 256) as u8,
        (v / 0x1_0000_0000 % 256) as u8,
        (v / 0x100_0000 % 256) as u8,
        (v / 0x1_0000 % 256) as u8,
        (v / 0x100 % 256) as u8,
        (v % 256) as u8
    ]
}

/// The counter block for a packet: the salt with SSRC and index XORed in.
#[verifier::opaque]
pub open spec fn srtp_iv(salt: Seq<u8>, ssrc: u32, index: u64) -> Seq<u8> {
    let s = be32_bytes(ssrc);
    let x = low48_bytes(index);
    Seq::new(
        16,
        |i: int|
            if i < 4 {
                salt[i]
            } else if i < 8 {
                salt[i] ^ s[i - 4]
            } else if i < 14 {
                salt[i] ^ x[i - 8]
            } else {
                0u8
            },
    )
}

/// The counter block of a packet (RFC 3711, section 4.1.1) is the 14-byte
/// salt, with the SSRC XORed into bytes 4..8 and the 48-bit packet index
/// into bytes 8..14, followed by two zero bytes for the block counter.
pub proof fn law_srtp_iv(salt: Seq<u8>, ssrc: u32, index: u64)
    requires
        salt.len() == 14,
    ensures
        ({
            let iv = srtp_iv(salt, ssrc, index);
            &&& iv.len() == 16
            &&& forall|i: int| 0 <= i < 4 ==> iv[i] == salt[i]
            &&& iv[14] == 0 && iv[15] == 0
            &&& (iv[4] ^ salt[4]) as int * 16777216 + (iv[5] ^ salt[5]) as int * 65536
                + (iv[6] ^ salt[6]) as int * 256 + (iv[7] ^ salt[7]) as int == ssrc
            &&& (iv[8] ^ salt[8]) as int * 0x100_0000_0000 + (iv[9] ^ salt[9]) as int * 0x1_0000_0000
                + (iv[10] ^ salt[10]) as int * 0x100_0000 + (iv[11] ^ salt[11]) as int * 0x1_0000
                + (iv[12] ^ salt[12]) as int * 0x100 + (iv[13] ^ salt[13]) as int == index as int % 0x1_0000_0000_0000
        }),
{
    reveal(srtp_iv);
    let iv = srtp_iv(salt, ssrc, index);
    let sb = be32_bytes(ssrc);
    let xb = low48_bytes(index);
    assert forall|i: int| 4 <= i < 8 implies (iv[i] ^ salt[i]) == sb[i - 4] by {
        let a = salt[i];
        let b = sb[i - 4];
        assert((a ^ b) ^ a == b) by (bit_vector);
    }
    assert forall|i: int| 8 <= i < 14 implies (iv[i] ^ salt[i]) == xb[i - 8] by {
        let a = salt[i];
        let b = xb[i - 8];
        assert((a ^ b) ^ a == b) by (bit_vector);
    }
    crate::bytes::lemma_be32_roundtrip(ssrc);
    assert((index / 0x100_0000_0000 % 256) * 0x100_0000_0000 + (index / 0x1_0000_0000 % 256) * 0x1_0000_0000
        + (index / 0x100_0000 % 256) * 0x100_0000 + (index / 0x1_0000 % 256) * 0x1_0000
        + (index / 0x100 % 256) * 0x100 + index % 256 == index % 0x1_0000_0000_0000) by (bit_vector);
}

/// The counter block for key derivation: the salt with `label` XORed into byte 7.
pub open spec fn kdf_iv(salt: Seq<u8>, label: u8) -> Seq<u8> {
    Seq::new(16, |i: int| if i == 7 { salt[i] ^ label } else if i < 14 { salt[i] } else { 0u8 })
}

/// `len` bytes of session key material derived with `label`.
pub open spec fn derived_key(master_key: Seq<u8>, master_salt: Seq<u8>, label: u8, len: nat) -> Seq<u8> {
    first_bytes(aes128_ctr_keystream(master_key, kdf_iv(master_salt, label), len), len as int)
}

/// `p` with `start..end` XORed with the keystream for `key` and `iv`.
#[verifier::opaque]
pub open spec fn crypt_range(key: Seq<u8>, iv: Seq<u8>, p: Seq<u8>, start: int, end: int) -> Seq<u8> {
    p.subrange(0, start) + xor_bytes(p.subrange(start, end), aes128_ctr_keystream(key, iv, (end - start) as nat))
        + p.subrange(end, p.len() as int)
}

/// The authentication tag of packet `p` with index `index`.
#[verifier::opaque]
pub open spec fn srtp_tag(auth_key: Seq<u8>, p: Seq<u8>, index: u64) -> Seq<u8> {
    first_bytes(hmac_sha1(auth_key, p + be32_bytes((index >> 16u64) as u32)), TAG_LEN as int)
}

/// `RtpPacket::header_size` can read the header of `p`.
pub open spec fn header_size_readable(p: Seq<u8>) -> bool {
    &&& p.len() >= 1
    &&& spec_has_extension(p) ==> spec_fixed_size(p) + EXTENSION_HEADER_LEN <= p.len()
}

/// A session built from its keys, with no streams yet.
pub open spec fn keyed_session(master_key: Seq<u8>, master_salt: Seq<u8>) -> SessionState {
    SessionState {
        rtp_key: derived_key(master_key, master_salt, RTP_KEY_LABEL, 16),
        rtp_auth: derived_key(master_key, master_salt, RTP_AUTH_LABEL, 20),
        rtp_salt: derived_key(master_key, master_salt, RTP_SALT_LABEL, 14),
        streams: Seq::empty(),
    }
}

/// The context that 60 bytes of exported keying material give: the first
/// half of keys and salts is the peer's (inbound), the second half ours.
pub open spec fn keyed_context(material: Seq<u8>) -> SrtpState {
    SrtpState {
        outbound: keyed_session(material.subrange(16, 32), material.subrange(46, 60)),
        inbound: keyed_session(material.subrange(0, 16), material.subrange(32, 46)),
    }
}

impl SessionState {
    /// `protect` on `buffer` with `length` bytes of RTP packet can run.
    pub open spec fn protect_ready(self, buffer: Seq<u8>, length: int) -> bool {
        length <= buffer.len() ==> {
            let p = buffer.subrange(0, length);
            &&& header_size_readable(p)
            &&& length + TAG_LEN <= buffer.len() ==> {
                &&& spec_payload_start(p) <= length
                &&& can_advance(self.streams, rtp_ssrc(buffer), rtp_seq(buffer))
            }
        }
    }

    /// What `protect` does: the new session, the new buffer and the result.
    pub open spec fn protect_outcome(self, buffer: Seq<u8>, length: int) -> (SessionState, Seq<u8>, Option<usize>) {
        if length > buffer.len() || length + TAG_LEN > buffer.len() {
            (self, buffer, None)
        } else {
            let start = spec_payload_start(buffer.subrange(0, length));
            let ssrc = rtp_ssrc(buffer);
            let seq = rtp_seq(buffer);
            let index = packet_index(next_roc(self.streams, ssrc, seq), seq);
            let encrypted = crypt_range(self.rtp_key, srtp_iv(self.rtp_salt, ssrc, index), buffer, start, length);
            let tag = srtp_tag(self.rtp_auth, encrypted.subrange(0, length), index);
            (
                SessionState { streams: advance_streams(self.streams, ssrc, seq), ..self },
                encrypted.subrange(0, length) + tag + encrypted.subrange(length + TAG_LEN, buffer.len() as int),
                Some((length + TAG_LEN) as usize),
            )
        }
    }

    /// `unprotect` on `packet` can run: the header can be read, the counter
    /// can advance, and a packet whose tag is accepted has its payload
    /// start within it.
    pub open spec fn unprotect_ready(self, packet: Seq<u8>) -> bool {
        packet.len() >= TAG_LEN ==> {
            let end = packet.len() - TAG_LEN;
            let p = packet.subrange(0, end);
            let ssrc = rtp_ssrc(packet);
            let seq = rtp_seq(packet);
            let index = packet_index(next_roc(self.streams, ssrc, seq), seq);
            &&& header_size_readable(p)
            &&& packet.len() >= 12
            &&& can_advance(self.streams, ssrc, seq)
            &&& packet.subrange(end, packet.len() as int) == srtp_tag(self.rtp_auth, p, index)
                ==> spec_payload_start(p) <= end
        }
    }

    /// What `unprotect` does: the new session, the new packet and the result.
    /// The counter moves even for a packet whose tag is refused.
    pub open spec fn unprotect_outcome(self, packet: Seq<u8>) -> (SessionState, Seq<u8>, Option<usize>) {
        if packet.len() < TAG_LEN {
            (self, packet, None)
        } else {
            let end = packet.len() - TAG_LEN;
            let start = spec_payload_start(packet.subrange(0, end));
            let ssrc = rtp_ssrc(packet);
            let seq = rtp_seq(packet);
            let index = packet_index(next_roc(self.streams, ssrc, seq), seq);
            let advanced = SessionState { streams: advance_streams(self.streams, ssrc, seq), ..self };
            if packet.subrange(end, packet.len() as int) != srtp_tag(self.rtp_auth, packet.subrange(0, end), index) {
                (advanced, packet, None)
            } else {
                (
                    advanced,
                    crypt_range(self.rtp_key, srtp_iv(self.rtp_salt, ssrc, index), packet, start, end),
                    Some(end as usize),
                )
            }
        }
    }
}

/// No two streams share a synchronization source.
pub open spec fn distinct_sources(streams: Seq<(u32, u64)>) -> bool {
    forall|i: int, j: int| 0 <= i < j < streams.len() ==> streams[i].0 != streams[j].0
}

/// The search from `i` finds a stream of `ssrc` at or after `i`, or there is none there.
pub proof fn lemma_find_stream_from(streams: Seq<(u32, u64)>, ssrc: u32, i: int)
    requires
        0 <= i,
    ensures
        match find_stream_from(streams, ssrc, i) {
            Some(p) => i <= p < streams.len() && streams[p].0 == ssrc,
            None => forall|k: int| i <= k < streams.len() ==> streams[k].0 != ssrc,
        },
    decreases streams.len() - i,
{
    if i < streams.len() && streams[i].0 != ssrc {
        lemma_find_stream_from(streams, ssrc, i + 1);
    }
}

/// A packet of `ssrc` touches only the stream of `ssrc`: the stream found
/// keeps its place and takes the next counter, or, when the source is new,
/// a stream for it is appended; streams of distinct sources stay distinct.
pub proof fn law_advance_keeps_sources_distinct(streams: Seq<(u32, u64)>, ssrc: u32, seq: u16)
    requires
        distinct_sources(streams),
    ensures
        distinct_sources(advance_streams(streams, ssrc, seq)),
        match find_stream(streams, ssrc) {
            Some(p) => {
                &&& streams[p].0 == ssrc
                &&& advance_streams(streams, ssrc, seq) == streams.update(p, (ssrc, next_roc(streams, ssrc, seq)))
            },
            None => {
                &&& forall|k: int| 0 <= k < streams.len() ==> streams[k].0 != ssrc
                &&& advance_streams(streams, ssrc, seq) == streams.push((ssrc, next_roc(streams, ssrc, seq)))
                &&& next_roc(streams, ssrc, seq) == if seq == 0 { 1u64 } else { 0u64 }
            },
        },
{
    lemma_find_stream_from(streams, ssrc, 0);
    let after = advance_streams(streams, ssrc, seq);
    assert forall|i: int, j: int| 0 <= i < j < after.len() implies after[i].0 != after[j].0 by {
        if j == streams.len() {
            assert(after[j].0 == ssrc);
        }
    }
}

/// XORing twice with the same keystream gives the data back.
pub proof fn lemma_xor_twice(data: Seq<u8>, stream: Seq<u8>)
    ensures
        xor_bytes(xor_bytes(data, stream), stream) == data,
{
    assert forall|i: int| 0 <= i < data.len() implies #[trigger] xor_bytes(xor_bytes(data, stream), stream)[i] == data[i] by {
        let d = data[i];
        let k = stream[i];
        assert((d ^ k) ^ k == d) by (bit_vector);
    }
    assert(xor_bytes(xor_bytes(data, stream), stream) =~= data);
}

/// Where the payload starts depends only on the bytes before it.
pub proof fn lemma_payload_start_stable(p: Seq<u8>, q: Seq<u8>)
    requires
        p.len() == q.len(),
        header_size_readable(p),
        spec_payload_start(p) <= p.len(),
        forall|i: int| 0 <= i < spec_payload_start(p) ==> p[i] == q[i],
    ensures
        header_size_readable(q),
        spec_payload_start(q) == spec_payload_start(p),
{
    let fixed = spec_fixed_size(p);
    assert(p[0] == q[0]);
    if spec_has_extension(p) {
        assert(p[fixed + 2] == q[fixed + 2]);
        assert(p[fixed + 3] == q[fixed + 3]);
        assert(p.subrange(fixed, p.len() as int)[2] == q.subrange(fixed, q.len() as int)[2]);
        assert(p.subrange(fixed, p.len() as int)[3] == q.subrange(fixed, q.len() as int)[3]);
    }
}

/// The bytes outside `start..end` stay, and the bytes inside are XORed.
pub proof fn lemma_crypt_range(key: Seq<u8>, iv: Seq<u8>, p: Seq<u8>, start: int, end: int)
    requires
        0 <= start <= end <= p.len(),
    ensures
        crypt_range(key, iv, p, start, end).len() == p.len(),
        forall|i: int| 0 <= i < start ==> #[trigger] crypt_range(key, iv, p, start, end)[i] == p[i],
        crypt_range(key, iv, p, start, end).subrange(start, end)
            == xor_bytes(p.subrange(start, end), aes128_ctr_keystream(key, iv, (end - start) as nat)),
        crypt_range(key, iv, p, start, end).subrange(0, start) == p.subrange(0, start),
{
    reveal(crypt_range);
    let r = crypt_range(key, iv, p, start, end);
    assert(r.subrange(start, end) =~= xor_bytes(p.subrange(start, end), aes128_ctr_keystream(key, iv, (end - start) as nat)));
    assert(r.subrange(0, start) =~= p.subrange(0, start));
}

/// What one side protects with a session, the other side unprotects with
/// a session that holds the same keys and the same rollover counter for the
/// packet's source: the tag is accepted and the packet comes back as it was.
#[verifier::rlimit(40)]
pub proof fn law_unprotect_inverts_protect(sender: SessionState, receiver: SessionState, buffer: Seq<u8>, length: int)
    requires
        sender.rtp_key == receiver.rtp_key,
        sender.rtp_auth == receiver.rtp_auth,
        sender.rtp_salt == receiver.rtp_salt,
        current_roc(sender.streams, rtp_ssrc(buffer)) == current_roc(receiver.streams, rtp_ssrc(buffer)),
        0 <= length,
        buffer.len() <= usize::MAX,
        sender.protect_ready(buffer, length),
        sender.protect_outcome(buffer, length).2 is Some,
    ensures
        ({
            let sent = sender.protect_outcome(buffer, length);
            let packet = sent.1.subrange(0, sent.2->0 as int);
            let received = receiver.unprotect_outcome(packet);
            &&& receiver.unprotect_ready(packet)
            &&& received.2 == Some(length as usize)
            &&& received.1.subrange(0, length) == buffer.subrange(0, length)
        }),
{
    let p = buffer.subrange(0, length);
    let start = spec_payload_start(p);
    let ssrc = rtp_ssrc(buffer);
    let seq = rtp_seq(buffer);
    let index = packet_index(next_roc(sender.streams, ssrc, seq), seq);
    let iv = srtp_iv(sender.rtp_salt, ssrc, index);
    let ks = aes128_ctr_keystream(sender.rtp_key, iv, (length - start) as nat);
    let encrypted = crypt_range(sender.rtp_key, iv, buffer, start, length);
    let tag = srtp_tag(sender.rtp_auth, encrypted.subrange(0, length), index);
    let sent = sender.protect_outcome(buffer, length);
    assert(spec_fixed_size(p) >= 12);
    lemma_crypt_range(sender.rtp_key, iv, buffer, start, length);
    let packet = sent.1.subrange(0, length + TAG_LEN);
    assert(tag.len() == TAG_LEN) by {
        reveal(srtp_tag);
    }
    assert(packet =~= encrypted.subrange(0, length) + tag);
    let q = packet.subrange(0, length);
    assert(q =~= encrypted.subrange(0, length));
    assert forall|i: int| 0 <= i < start implies p[i] == q[i] by {
        assert(encrypted[i] == buffer[i]);
    }
    lemma_payload_start_stable(p, q);
    assert(rtp_ssrc(packet) == ssrc) by {
        assert(encrypted[8] == buffer[8] && encrypted[9] == buffer[9]);
        assert(encrypted[10] == buffer[10] && encrypted[11] == buffer[11]);
    }
    assert(rtp_seq(packet) == seq) by {
        assert(encrypted[2] == buffer[2] && encrypted[3] == buffer[3]);
    }
    assert(packet.subrange(length, length + TAG_LEN) =~= srtp_tag(receiver.rtp_auth, q, index));
    assert(receiver.unprotect_ready(packet));
    assert(receiver.unprotect_outcome(packet).2 == Some(length as usize));
    let decrypted = crypt_range(receiver.rtp_key, iv, packet, start, length);
    assert(receiver.unprotect_outcome(packet).1 == decrypted);
    lemma_crypt_range(receiver.rtp_key, iv, packet, start, length);
    assert(packet.subrange(start, length) =~= encrypted.subrange(start, length));
    lemma_xor_twice(buffer.subrange(start, length), ks);
    assert(decrypted.subrange(0, length) =~= decrypted.subrange(0, start) + decrypted.subrange(start, length));
    assert(buffer.subrange(0, length) =~= buffer.subrange(0, start) + buffer.subrange(start, length));
    assert(packet.subrange(0, start) =~= buffer.subrange(0, start));
    assert(decrypted.subrange(0, length) == buffer.subrange(0, length));
}

impl Stream {
    fn new(ssrc: u32) -> (r: Self)
        ensures
            r.ssrc == ssrc,
            r.roc == 0,
    {
        Self { ssrc, roc: 0 }
    }

    fn index_of(&mut self, sequence_number: u16) -> (r: u64)
        requires
            !(sequence_number == 0 && old(self).roc == u64::MAX),
        ensures
            final(self).ssrc == old(self).ssrc,
            final(self).roc == if sequence_number == 0 { (old(self).roc + 1) as u64 } else { old(self).roc },
            r == packet_index(final(self).roc, sequence_number),
    {
        if sequence_number == 0 {
            self.roc += 1;
        }
        (self.roc << 16u64) | sequence_number as u64
    }
}

spec fn stream_view(s: Stream) -> (u32, u64) {
    (s.ssrc, s.roc)
}

impl Session {
    spec fn view(&self) -> SessionState {
        SessionState {
            rtp_key: self.rtp_key@,
            rtp_auth: self.rtp_auth@,
            rtp_salt: self.rtp_salt@,
            streams: self.streams@.map_values(|s: Stream| stream_view(s)),
        }
    }

    /// A session with all keys and salts zero and no streams, as the keys
    /// are derived into it afterwards.
    fn empty() -> (r: Self)
        ensures
            r.view().streams.len() == 0,
            forall|i: int| 0 <= i < 16 ==> r.rtp_key@[i] == 0 && r.rtcp_key@[i] == 0,
            forall|i: int| 0 <= i < 20 ==> r.rtp_auth@[i] == 0 && r.rtcp_auth@[i] == 0,
            forall|i: int| 0 <= i < 14 ==> r.rtp_salt@[i] == 0 && r.rtcp_salt@[i] == 0,
    {
        Self {
            rtp_key: [0u8; 16],
            rtp_auth: [0u8; 20],
            rtp_salt: [0u8; 14],
            rtcp_key: [0u8; 16],
            rtcp_auth: [0u8; 20],
            rtcp_salt: [0u8; 14],
            streams: Vec::new(),
        }
    }

    /// The rollover counter of `ssrc`, zero for a source not seen yet.
    fn roc_of(&self, ssrc: u32) -> (r: u64)
        ensures
            r == current_roc(self.view().streams, ssrc),
    {
        let ghost streams = self.view().streams;
        let mut i: usize = 0;
        while i < self.streams.len()
            invariant
                i <= self.streams@.len(),
                streams == self.view().streams,
                find_stream(streams, ssrc) == find_stream_from(streams, ssrc, i as int),
            decreases self.streams@.len() - i,
        {
            if self.streams[i].ssrc == ssrc {
                assert(find_stream(streams, ssrc) == Some(i as int));
                return self.streams[i].roc;
            }
            i += 1;
        }
        0
    }

    /// Advances the counter of `ssrc` (adding its stream first if needed) and
    /// returns the packet index.
    fn index_of(&mut self, ssrc: u32, sequence_number: u16) -> (r: u64)
        requires
            can_advance(old(self).view().streams, ssrc, sequence_number),
        ensures
            final(self).view() == (SessionState {
                streams: advance_streams(old(self).view().streams, ssrc, sequence_number),
                ..old(self).view()
            }),
            r == packet_index(next_roc(old(self).view().streams, ssrc, sequence_number), sequence_number),
    {
        let ghost streams = self.view().streams;
        let mut i: usize = 0;
        while i < self.streams.len()
            invariant
                i <= self.streams@.len(),
                streams == self.view().streams,
                find_stream(streams, ssrc) == find_stream_from(streams, ssrc, i as int),
            ensures
                i <= self.streams@.len(),
                streams == self.view().streams,
                find_stream(streams, ssrc) == find_stream_from(streams, ssrc, i as int),
                i < self.streams@.len() ==> self.streams@[i as int].ssrc == ssrc,
            decreases self.streams@.len() - i,
        {
            if self.streams[i].ssrc == ssrc {
                break;
            }
            i += 1;
        }
        if i == self.streams.len() {
            self.streams.push(Stream::new(ssrc));
            assert(self.view().streams =~= streams.push((ssrc, 0u64)));
        }
        proof {
            if i < streams.len() {
                assert(find_stream(streams, ssrc) == Some(i as int));
            } else {
                assert(find_stream(streams, ssrc) is None);
            }
            assert(self.streams@[i as int].roc == current_roc(streams, ssrc));
        }
        let r = self.streams[i].index_of(sequence_number);
        assert(self.view().streams =~= advance_streams(streams, ssrc, sequence_number));
        r
    }
}

/// Two SRTP sessions, one for each direction.
pub struct SrtpContext {
    outbound: Session,
    inbound: Session,
}

impl View for SrtpContext {
    type V = SrtpState;

    closed spec fn view(&self) -> SrtpState {
        SrtpState { outbound: self.outbound.view(), inbound: self.inbound.view() }
    }
}

fn header_readable(p: &[u8]) -> (r: bool)
    ensures
        r == header_size_readable(p@),
{
    if p.len() < 1 {
        return false;
    }
    let fixed = FIXED_HEADER_LEN + ((p[0] & 0x0f) as usize) * CSRC_LEN;
    (p[0] & 0x10) >> 4u8 == 0 || fixed + EXTENSION_HEADER_LEN <= p.len()
}

impl SrtpContext {
    fn iv(salt: &[u8; 14], ssrc: u32, index: u64) -> (r: [u8; 16])
        ensures
            r@ == srtp_iv(salt@, ssrc, index),
    {
        let s0 = (ssrc / 16777216) as u8;
        let s1 = (ssrc / 65536 % 256) as u8;
        let s2 = (ssrc / 256 % 256) as u8;
        let s3 = (ssrc % 256) as u8;
        let x0 = (index / 0x100_0000_0000 % 256) as u8;
        let x1 = (index / 0x1_0000_0000 % 256) as u8;
        let x2 = (index / 0x100_0000 % 256) as u8;
        let x3 = (index / 0x1_0000 % 256) as u8;
        let x4 = (index / 0x100 % 256) as u8;
        let x5 = (index % 256) as u8;
        let r = [
            salt[0], salt[1], salt[2], salt[3],
            salt[4] ^ s0, salt[5] ^ s1, salt[6] ^ s2, salt[7] ^ s3,
            salt[8] ^ x0, salt[9] ^ x1, salt[10] ^ x2, salt[11] ^ x3, salt[12] ^ x4, salt[13] ^ x5,
            0, 0,
        ];
        assert(r@ =~= srtp_iv(salt@, ssrc, index)) by {
            reveal(srtp_iv);
        }
        r
    }

    /// Keys a context from the DTLS session: 60 bytes of keying material
    /// exported under the DTLS-SRTP label with no context, split as
    /// `keyed_context` says. An exporter error is handed back.
    pub fn from_dtls(ssl: &SslRef) -> (r: Result<Self, ErrorStack>)
        ensures
            r matches Ok(c) ==> exists|material: Seq<u8>|
                material.len() == KEYING_MATERIAL_LEN && c@ == keyed_context(material),
    {
        let mut material = [0u8; 60];
        match ssl.export_keying_material(&mut material, "EXTRACTOR-dtls_srtp", None) {
            Ok(()) => {},
            Err(e) => return Err(e),
        }
        Ok(Self::from_keying_material(&material))
    }

    /// The context that exported keying material gives.
    pub fn from_keying_material(material: &[u8; 60]) -> (r: Self)
        ensures
            r@ == keyed_context(material@),
    {
        let in_key = [
            material[0], material[1], material[2], material[3], material[4], material[5], material[6], material[7],
            material[8], material[9], material[10], material[11], material[12], material[13], material[14], material[15],
        ];
        let out_key = [
            material[16], material[17], material[18], material[19], material[20], material[21], material[22], material[23],
            material[24], material[25], material[26], material[27], material[28], material[29], material[30], material[31],
        ];
        let in_salt = [
            material[32], material[33], material[34], material[35], material[36], material[37], material[38],
            material[39], material[40], material[41], material[42], material[43], material[44], material[45],
        ];
        let out_salt = [
            material[46], material[47], material[48], material[49], material[50], material[51], material[52],
            material[53], material[54], material[55], material[56], material[57], material[58], material[59],
        ];
        assert(in_key@ =~= material@.subrange(0, 16));
        assert(out_key@ =~= material@.subrange(16, 32));
        assert(in_salt@ =~= material@.subrange(32, 46));
        assert(out_salt@ =~= material@.subrange(46, 60));

        let mut outbound = Session::empty();
        Self::derive(&out_key, &out_salt, RTP_KEY_LABEL, &mut outbound.rtp_key);
        Self::derive(&out_key, &out_salt, RTP_AUTH_LABEL, &mut outbound.rtp_auth);
        Self::derive(&out_key, &out_salt, RTP_SALT_LABEL, &mut outbound.rtp_salt);

        let mut inbound = Session::empty();
        Self::derive(&in_key, &in_salt, RTP_KEY_LABEL, &mut inbound.rtp_key);
        Self::derive(&in_key, &in_salt, RTP_AUTH_LABEL, &mut inbound.rtp_auth);
        Self::derive(&in_key, &in_salt, RTP_SALT_LABEL, &mut inbound.rtp_salt);

        let r = Self { outbound, inbound };
        assert(r.outbound.view().streams =~= Seq::<(u32, u64)>::empty());
        assert(r.inbound.view().streams =~= Seq::<(u32, u64)>::empty());
        r
    }

    fn cipher(session: &Session, packet: &mut [u8], start: usize, end: usize, ssrc: u32, index: u64)
        requires
            start <= end <= old(packet)@.len(),
        ensures
            final(packet)@.len() == old(packet)@.len(),
            final(packet)@ == crypt_range(
                session.view().rtp_key,
                srtp_iv(session.view().rtp_salt, ssrc, index),
                old(packet)@,
                start as int,
                end as int,
            ),
    {
        let iv = Self::iv(&session.rtp_salt, ssrc, index);
        let ghost before = packet@;
        let (head, rest) = packet.split_at_mut(start);
        let (middle, tail) = rest.split_at_mut(end - start);
        aes128_ctr_apply(&session.rtp_key, &iv, middle);
        assert(packet@ =~= crypt_range(session.view().rtp_key, iv@, before, start as int, end as int)) by {
            reveal(crypt_range);
        }
    }

    /// The bytes that the authentication tag covers: the packet and the
    /// upper 32 bits of the 48-bit index (the rollover counter).
    fn authenticated_bytes(packet: &[u8], index: u64) -> (r: Vec<u8>)
        ensures
            r@ == packet@ + be32_bytes((index >> 16u64) as u32),
    {
        let mut message: Vec<u8> = Vec::new();
        message.extend_from_slice(packet);
        push_be32(&mut message, (index >> 16u64) as u32);
        message
    }

    /// Whether `protect` can run on `buffer` with `length`.
    pub fn can_protect(&self, buffer: &[u8], length: usize) -> (r: bool)
        ensures
            r == self@.outbound.protect_ready(buffer@, length as int),
    {
        if length > buffer.len() {
            return true;
        }
        let p = &buffer[0..length];
        if !header_readable(p) {
            return false;
        }
        if buffer.len() - length < TAG_LEN {
            return true;
        }
        let start = match RtpPacket::header_size(p) {
            Some(start) => start,
            None => return false,
        };
        if start > length {
            return false;
        }
        let roc = self.outbound.roc_of(read_be32(buffer, 8));
        !(read_be16(buffer, 2) == 0 && roc == u64::MAX)
    }

    /// Whether `unprotect` can run on `packet`.
    pub fn can_unprotect(&self, packet: &[u8]) -> (r: bool)
        ensures
            r == self@.inbound.unprotect_ready(packet@),
    {
        if packet.len() < TAG_LEN {
            return true;
        }
        let end = packet.len() - TAG_LEN;
        let p = &packet[0..end];
        if !header_readable(p) || packet.len() < 12 {
            return false;
        }
        let start = match RtpPacket::header_size(p) {
            Some(start) => start,
            None => return false,
        };
        let ssrc = read_be32(packet, 8);
        let sequence_number = read_be16(packet, 2);
        let roc = self.inbound.roc_of(ssrc);
        if sequence_number == 0 && roc == u64::MAX {
            return false;
        }
        if start <= end {
            return true;
        }
        let next = if sequence_number == 0 { roc + 1 } else { roc };
        let index = (next << 16u64) | sequence_number as u64;
        let message = Self::authenticated_bytes(p, index);
        proof {
            reveal(srtp_tag);
        }
        !hmac_sha1_verify_truncated(&self.inbound.rtp_auth, message.as_slice(), &packet[end..packet.len()])
    }

    pub fn protect(&mut self, buffer: &mut [u8], length: usize) -> (r: Option<usize>)
        requires
            old(self)@.outbound.protect_ready(old(buffer)@, length as int),
        ensures
            (final(self)@.outbound, final(buffer)@, r) == old(self)@.outbound.protect_outcome(old(buffer)@, length as int),
            final(self)@.inbound == old(self)@.inbound,
            final(buffer)@.len() == old(buffer)@.len(),
    {
        if length > buffer.len() {
            return None;
        }
        let start = match RtpPacket::header_size(&buffer[0..length]) {
            Some(start) => start,
            None => return None,
        };
        if buffer.len() - length < TAG_LEN {
            return None;
        }
        let end = length + TAG_LEN;
        let ghost before = buffer@;
        let ssrc = read_be32(buffer, 8);
        let sequence_number = read_be16(buffer, 2);
        let index = self.outbound.index_of(ssrc, sequence_number);

        Self::cipher(&self.outbound, buffer, start, length, ssrc, index);

        let message = Self::authenticated_bytes(&buffer[0..length], index);
        let tag = hmac_sha1_tag(&self.outbound.rtp_auth, message.as_slice());
        proof {
            reveal(srtp_tag);
        }
        let ghost encrypted = buffer@;
        let mut j: usize = 0;
        while j < TAG_LEN
            invariant
                j <= TAG_LEN,
                end == length + TAG_LEN,
                end <= buffer@.len(),
                tag@.len() == 20,
                buffer@.len() == encrypted.len(),
                forall|k: int| 0 <= k < length ==> buffer@[k] == encrypted[k],
                forall|k: int| end <= k < buffer@.len() ==> buffer@[k] == encrypted[k],
                forall|k: int| 0 <= k < j ==> buffer@[length + k] == tag@[k],
            decreases TAG_LEN - j,
        {
            buffer[length + j] = tag[j];
            j += 1;
        }
        proof {
            let outcome = old(self)@.outbound.protect_outcome(before, length as int);
            assert(before.subrange(0, length as int) =~= old(buffer)@.subrange(0, length as int));
            assert(buffer@ =~= outcome.1);
        }
        Some(end)
    }

    pub fn unprotect(&mut self, packet: &mut [u8]) -> (r: Option<usize>)
        requires
            old(self)@.inbound.unprotect_ready(old(packet)@),
        ensures
            (final(self)@.inbound, final(packet)@, r) == old(self)@.inbound.unprotect_outcome(old(packet)@),
            final(self)@.outbound == old(self)@.outbound,
            final(packet)@.len() == old(packet)@.len(),
    {
        if packet.len() < TAG_LEN {
            return None;
        }
        let end = packet.len() - TAG_LEN;
        let start = match RtpPacket::header_size(&packet[0..end]) {
            Some(start) => start,
            None => return None,
        };
        let ssrc = read_be32(packet, 8);
        let sequence_number = read_be16(packet, 2);
        let index = self.inbound.index_of(ssrc, sequence_number);

        let message = Self::authenticated_bytes(&packet[0..end], index);
        let accepted = hmac_sha1_verify_truncated(&self.inbound.rtp_auth, message.as_slice(), &packet[end..packet.len()]);
        proof {
            reveal(srtp_tag);
        }
        if !accepted {
            return None;
        }
        Self::cipher(&self.inbound, packet, start, end, ssrc, index);
        Some(end)
    }

    /// `unprotect` on a packet that it can run on; on any other packet,
    /// `None` with the context and the packet left as they were.
    pub fn unprotect_checked(&mut self, packet: &mut [u8]) -> (r: Option<usize>)
        ensures
            old(self)@.inbound.unprotect_ready(old(packet)@) ==> {
                &&& (final(self)@.inbound, final(packet)@, r) == old(self)@.inbound.unprotect_outcome(old(packet)@)
                &&& final(self)@.outbound == old(self)@.outbound
            },
            !old(self)@.inbound.unprotect_ready(old(packet)@) ==> {
                &&& r is None
                &&& final(self)@ == old(self)@
                &&& final(packet)@ == old(packet)@
            },
    {
        if !self.can_unprotect(packet) {
            return None;
        }
        self.unprotect(packet)
    }

    fn derive(key: &[u8; 16], salt: &[u8; 14], label: u8, buffer: &mut [u8])
        ensures
            final(buffer)@ == derived_key(key@, salt@, label, old(buffer)@.len()),
    {
        let canvas = [
            salt[0], salt[1], salt[2], salt[3], salt[4], salt[5], salt[6], salt[7] ^ label,
            salt[8], salt[9], salt[10], salt[11], salt[12], salt[13], 0, 0,
        ];
        assert(canvas@ =~= kdf_iv(salt@, label));
        let n = buffer.len();
        let mut i: usize = 0;
        while i < n
            invariant
                n == buffer@.len(),
                i <= n,
                forall|j: int| 0 <= j < i ==> buffer@[j] == 0,
            decreases n - i,
        {
            buffer[i] = 0;
            i += 1;
        }
        let ghost zeros = buffer@;
        aes128_ctr_apply(key, &canvas, buffer);
        proof {
            let ks = aes128_ctr_keystream(key@, canvas@, n as nat);
            assert forall|j: int| 0 <= j < n implies zeros[j] ^ ks[j] == ks[j] by {
                let z = zeros[j];
                let k = ks[j];
                assert(z == 0u8 ==> z ^ k == k) by (bit_vector);
            }
            assert(buffer@ =~= derived_key(key@, salt@, label, n as nat));
        }
    }
}

} // verus!
