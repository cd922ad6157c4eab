//! The sans-I/O server: classifies datagrams and answers STUN, keeps SRTP
//! for peers, and reports what the caller must send or know.
use vstd::prelude::*;
use vstd::string::{StrSliceExecFns, StringSliceAdditionalSpecFns};
use crate::net::SocketAddress;
use openssl::ssl::SslRef;
use crate::peer::{dtls_input_step, DtlsOutcome, Peer, PeerState};
use crate::rtp::{rtp_parsable, RtpPacket};
use crate::srtp::SrtpState;
use crate::stun::{
    binding_response, law_binding_response_authenticates, spec_attributes, spec_integrity_valid, spec_is_stun,
    Message, MessageType, BINDING_REQUEST_MESSAGE, BINDING_RESPONSE_MESSAGE,
};
use crate::bytes::be16_at;

verus! {

pub enum Event<D> {
    PeerAuthenticated(Peer<D>),
    PeerMediaReady(SocketAddress),
}

pub enum Action<D> {
    Event(Event<D>),
    Transmit { destination: SocketAddress, payload: Vec<u8> },
}

pub enum PacketKind {
    Stun,
    Dtls,
    Srtp,
    Srtcp,
    Unknown,
}

/// The kind of a datagram, from its first bytes (RFC 7983 demultiplexing).
pub open spec fn spec_classify(p: Seq<u8>) -> PacketKind {
    if p.len() == 0 {
        PacketKind::Unknown
    } else if p[0] <= 1 && spec_is_stun(p) {
        PacketKind::Stun
    } else if 20 <= p[0] <= 63 {
        PacketKind::Dtls
    } else if 128 <= p[0] <= 191 && p.len() > 1 && 192 <= p[1] <= 223 {
        PacketKind::Srtcp
    } else if 128 <= p[0] <= 191 {
        PacketKind::Srtp
    } else {
        PacketKind::Unknown
    }
}

/// A binding response that this library builds is classified as STUN.
pub proof fn law_binding_response_is_stun(transaction_id: Seq<u8>, ip: Seq<u8>, port: u16, key: Seq<u8>)
    requires
        transaction_id.len() == 12,
        ip.len() == 4,
    ensures
        spec_classify(binding_response(transaction_id, ip, port, key)) is Stun,
{
    law_binding_response_authenticates(transaction_id, ip, port, key);
    let r = binding_response(transaction_id, ip, port, key);
    assert(r[0] == (BINDING_RESPONSE_MESSAGE / 256) as u8);
}

/// Index of the first `:` in `s` at or after `i`, or the length of `s`.
pub open spec fn colon_index(s: Seq<char>, i: int) -> int
    decreases s.len() - i,
{
    if i < 0 || i >= s.len() {
        s.len() as int
    } else if s[i] == ':' {
        i
    } else {
        colon_index(s, i + 1)
    }
}

/// The local part of an ICE username `local:remote`.
pub open spec fn local_username(s: Seq<char>) -> Seq<char> {
    s.subrange(0, colon_index(s, 0))
}

/// The actions after a binding request is authenticated: a new peer is
/// announced unless the sender is already a peer.
pub open spec fn authenticated_actions<D>(before: Seq<Action<D>>, after: Seq<Action<D>>, known: bool, from: SocketAddress) -> bool {
    if known {
        after == before
    } else {
        &&& after.len() == before.len() + 1
        &&& after.subrange(0, before.len() as int) == before
        &&& after.last() matches Action::Event(Event::PeerAuthenticated(p))
            && p@ == (PeerState::<D> { address: from, dtls: None, srtp: None })
    }
}

/// What handling a STUN datagram does, for each answer that `authenticate`
/// may give for the local username: requests whose MESSAGE-INTEGRITY checks
/// out under the password are answered with a binding success response.
pub open spec fn stun_handled<D, F: Fn(&str) -> Option<&str>>(
    packet: Seq<u8>,
    from: SocketAddress,
    known: bool,
    authenticate: F,
    before: Seq<Action<D>>,
    after: Seq<Action<D>>,
    reply: Option<Seq<u8>>,
) -> bool {
    let scan = spec_attributes(packet);
    if !spec_is_stun(packet) || be16_at(packet, 0) != BINDING_REQUEST_MESSAGE as int {
        reply is None && after == before
    } else {
        exists|user: &str, answer: Option<&str>|
            #![trigger call_ensures(authenticate, (user,), answer)]
            user@ == local_username(scan.username) && call_ensures(authenticate, (user,), answer)
                && match answer {
                None => reply is None && after == before,
                Some(password) => if !spec_integrity_valid(
                    packet,
                    scan.integrity,
                    scan.integrity_offset,
                    password.spec_bytes(),
                ) {
                    reply is None && after == before
                } else {
                    &&& authenticated_actions(before, after, known, from)
                    &&& match from.ip.spec_ipv4() {
                        Some(ip) => reply == Some(
                            binding_response(packet.subrange(8, 20), ip, from.port, password.spec_bytes()),
                        ),
                        None => reply is None,
                    }
                },
            }
    }
}

/// The reply that goes back after a DTLS datagram: none from a failed
/// session, and none when the session is connected but SRTP could not be
/// keyed from it (`after` is the peer after the step).
pub open spec fn dtls_reply<D>(outcome: DtlsOutcome, connected: bool, after: PeerState<D>) -> Option<Vec<u8>> {
    match outcome {
        DtlsOutcome::Failed => None,
        DtlsOutcome::Handled(reply) => if connected && after.srtp is None { None } else { reply },
    }
}

/// The bytes of an optional reply.
pub open spec fn bytes_of(reply: Option<Vec<u8>>) -> Option<Seq<u8>> {
    match reply {
        Some(v) => Some(v@),
        None => None,
    }
}

pub struct Server<C> {
    pub dtls_context: C,
}

fn local_part(username: &str) -> (r: &str)
    ensures
        r@ == local_username(username@),
{
    let n = username.unicode_len();
    let mut i: usize = 0;
    while i < n
        invariant
            n == username@.len(),
            i <= n,
            colon_index(username@, 0) == colon_index(username@, i as int),
        ensures
            i <= n,
            colon_index(username@, 0) == i,
        decreases n - i,
    {
        if username.get_char(i) == ':' {
            break;
        }
        i += 1;
    }
    username.substring_char(0, i)
}

impl<C> Server<C> {
    pub fn new(dtls_context: C) -> (r: Self)
        ensures
            r.dtls_context == dtls_context,
    {
        Self { dtls_context }
    }

    pub fn classify(packet: &[u8]) -> (r: PacketKind)
        ensures
            r == spec_classify(packet@),
    {
        if packet.len() == 0 {
            return PacketKind::Unknown;
        }
        let first = packet[0];
        if first <= 1 && Message::is_stun(packet) {
            PacketKind::Stun
        } else if 20 <= first && first <= 63 {
            PacketKind::Dtls
        } else if 128 <= first && first <= 191 && packet.len() > 1 && 192 <= packet[1] && packet[1] <= 223 {
            PacketKind::Srtcp
        } else if 128 <= first && first <= 191 {
            PacketKind::Srtp
        } else {
            PacketKind::Unknown
        }
    }

    /// Answers a STUN binding request from `from`, announcing a new peer when
    /// `known` is false; returns the response to send.
    pub fn handle_stun<D>(
        &mut self,
        packet: &[u8],
        from: SocketAddress,
        known: bool,
        actions: &mut Vec<Action<D>>,
        authenticate: impl Fn(&str) -> Option<&str>,
    ) -> (r: Option<Vec<u8>>)
        requires
            forall|user: &str| call_requires(authenticate, (user,)),
        ensures
            stun_handled(
                packet@,
                from,
                known,
                authenticate,
                old(actions)@,
                final(actions)@,
                bytes_of(r),
            ),
    {
        let message = match Message::parse(packet) {
            Some(message) => message,
            None => return None,
        };
        match message.message_type() {
            MessageType::BindingResponse => None,
            MessageType::Unknown => None,
            MessageType::BindingRequest => {
                let local = local_part(message.username.as_str());
                let answer = authenticate(local);
                proof {
                    let scan = spec_attributes(packet@);
                    assert(message.username@ == scan.username);
                    assert(call_ensures(authenticate, (local,), answer));
                }
                let password = match answer {
                    Some(password) => password,
                    None => return None,
                };
                if !message.is_valid_message_integrity(password) {
                    return None;
                }
                let ghost before = actions@;
                if !known {
                    let peer = Peer::new(from);
                    assert(peer@ == (PeerState::<D> { address: from, dtls: None, srtp: None }));
                    actions.push(Action::Event(Event::PeerAuthenticated(peer)));
                    assert(actions@.subrange(0, before.len() as int) =~= before);
                }
                assert(authenticated_actions(before, actions@, known, from));
                let payload = message.build_binding_response(from, password);
                if payload.len() == 0 {
                    return None;
                }
                Some(payload)
            },
        }
    }
}

impl<C> Server<C> {
    /// Handles one datagram from `from`. STUN binding requests are answered
    /// (see `stun_handled`); SRTP packets of a keyed peer are unprotected into
    /// `buffer` and parsed, and a packet that SRTP cannot take is dropped.
    /// A DTLS record goes to the caller's DTLS session, and what the session
    /// did is handled by `drive_dtls`; here it, like SRTCP, which is not
    /// handled, leaves everything unchanged.
    pub fn drive<'b, D>(
        &mut self,
        packet: &[u8],
        from: SocketAddress,
        peer: Option<&mut Peer<D>>,
        buffer: &'b mut Vec<u8>,
        actions: &mut Vec<Action<D>>,
        authenticate: impl Fn(&str) -> Option<&str>,
    ) -> (r: Option<RtpPacket<'b>>)
        requires
            forall|user: &str| call_requires(authenticate, (user,)),
        ensures
            match spec_classify(packet@) {
                PacketKind::Stun => {
                    &&& r is None
                    &&& final(buffer)@ == old(buffer)@
                    &&& peer matches Some(p) ==> final(p)@ == p@
                    &&& exists|events: Seq<Action<D>>, reply: Option<Seq<u8>>| {
                        &&& #[trigger] stun_handled(packet@, from, peer is Some, authenticate, Seq::empty(), events, reply)
                        &&& match reply {
                            None => final(actions)@ == events,
                            Some(v) => {
                                &&& final(actions)@.len() == events.len() + 1
                                &&& final(actions)@.subrange(0, events.len() as int) == events
                                &&& final(actions)@.last() matches Action::Transmit { destination, payload }
                                    && destination == from && payload@ == v
                            },
                        }
                    }
                },
                PacketKind::Srtp => {
                    &&& final(actions)@.len() == 0
                    &&& match peer {
                        None => r is None && final(buffer)@ == old(buffer)@,
                        Some(p) => match p@.srtp {
                            None => r is None && final(p)@ == p@ && final(buffer)@ == packet@,
                            Some(c) => if !c.inbound.unprotect_ready(packet@) {
                                r is None && final(p)@ == p@ && final(buffer)@ == packet@
                            } else {
                                let outcome = c.inbound.unprotect_outcome(packet@);
                                &&& final(p)@ == (PeerState { srtp: Some(SrtpState { inbound: outcome.0, ..c }), ..p@ })
                                &&& match outcome.2 {
                                    None => r is None && final(buffer)@ == outcome.1,
                                    Some(end) => {
                                        &&& final(buffer)@ == outcome.1.subrange(0, end as int)
                                        &&& rtp_parsable(final(buffer)@) ==> (r matches Some(pk)
                                            && pk.parsed_from(final(buffer)@))
                                        &&& !rtp_parsable(final(buffer)@) ==> r is None
                                    },
                                }
                            },
                        },
                    }
                },
                _ => {
                    &&& r is None
                    &&& final(actions)@.len() == 0
                    &&& final(buffer)@ == old(buffer)@
                    &&& peer matches Some(p) ==> final(p)@ == p@
                },
            },
    {
        actions.clear();
        assert(actions@ =~= Seq::<Action<D>>::empty());
        match Self::classify(packet) {
            PacketKind::Stun => {
                let known = peer.is_some();
                let reply = self.handle_stun(packet, from, known, actions, authenticate);
                let ghost events = actions@;
                let ghost reply_view = bytes_of(reply);
                if let Some(payload) = reply {
                    actions.push(Action::Transmit { destination: from, payload });
                    assert(actions@.subrange(0, events.len() as int) =~= events);
                }
                proof {
                    assert(stun_handled(packet@, from, known, authenticate, Seq::empty(), events, reply_view));
                }
                None
            },
            PacketKind::Srtp => {
                if let Some(peer) = peer {
                    buffer.clear();
                    buffer.extend_from_slice(packet);
                    assert(buffer@ =~= packet@);
                    let result = peer.unprotect_checked(buffer.as_mut_slice());
                    if let Some(end) = result {
                        let ghost unprotected = buffer@;
                        buffer.truncate(end);
                        assert(buffer@ =~= unprotected.subrange(0, end as int));
                        let shared: &'b Vec<u8> = buffer;
                        return RtpPacket::parse(shared.as_slice());
                    }
                }
                None
            },
            _ => None,
        }
    }
}

impl<C> Server<C> {
    /// Handles what the peer's DTLS session did with a datagram from `from`;
    /// the caller holds the session meanwhile and passes its TLS state in
    /// `connected` once the handshake is done. The actions start empty, the
    /// peer takes its DTLS step (see `Peer::finish_dtls_input`), and the
    /// session's reply, when one goes back, is transmitted to `from`.
    /// Returns whether the caller keeps the session: false when it failed.
    pub fn drive_dtls<D>(
        &self,
        from: SocketAddress,
        peer: &mut Peer<D>,
        outcome: DtlsOutcome,
        connected: Option<&SslRef>,
        actions: &mut Vec<Action<D>>,
    ) -> (r: bool)
        ensures
            r == !(outcome is Failed),
            final(peer)@.dtls == old(peer)@.dtls,
            exists|events: Seq<Action<D>>| {
                &&& #[trigger] dtls_input_step(old(peer)@, final(peer)@, Seq::empty(), events, outcome is Failed, connected is Some)
                &&& match dtls_reply(outcome, connected is Some, final(peer)@) {
                    None => final(actions)@ == events,
                    Some(payload) => final(actions)@ == events.push(Action::Transmit { destination: from, payload }),
                }
            },
    {
        actions.clear();
        assert(actions@ =~= Seq::<Action<D>>::empty());
        let ghost failed = outcome is Failed;
        let ghost is_connected = connected is Some;
        let ghost original = outcome;
        let (keep, reply) = peer.finish_dtls_input(outcome, connected, actions);
        let ghost events = actions@;
        assert(reply == dtls_reply(original, is_connected, peer@));
        if let Some(payload) = reply {
            actions.push(Action::Transmit { destination: from, payload });
        }
        assert(dtls_input_step(old(peer)@, peer@, Seq::empty(), events, failed, is_connected));
        keep
    }
}

} // verus!
