//! A remote peer: its address, its DTLS session and, once keyed, its SRTP context.
use vstd::prelude::*;
use openssl::ssl::SslRef;
use crate::engine::{Action, Event};
use crate::net::SocketAddress;
use crate::srtp::{keyed_context, SrtpContext, SrtpState, KEYING_MATERIAL_LEN};

verus! {

/// A peer; `D` is the DTLS session type, which the caller drives.
pub struct Peer<D> {
    pub address: SocketAddress,
    pub dtls: Option<D>,
    srtp: Option<SrtpContext>,
}

/// The abstract state of a peer.
pub ghost struct PeerState<D> {
    pub address: SocketAddress,
    pub dtls: Option<D>,
    pub srtp: Option<SrtpState>,
}

/// What the peer's DTLS session did with one datagram.
pub enum DtlsOutcome {
    /// The session failed and is to be dropped.
    Failed,
    /// The datagram was handled; this is what the session wrote back.
    Handled(Option<Vec<u8>>),
}

/// What keying SRTP from a connected session does to the peer and the
/// actions; `keyed` is false only when the keying material could not be
/// exported. SRTP is keyed once: a keyed peer is left as it is.
pub open spec fn keying_step<D>(
    before: PeerState<D>,
    after: PeerState<D>,
    actions_before: Seq<Action<D>>,
    actions_after: Seq<Action<D>>,
    keyed: bool,
) -> bool {
    &&& after.address == before.address
    &&& match before.srtp {
        Some(_) => keyed && after.srtp == before.srtp && actions_after == actions_before,
        None => if keyed {
            &&& after.srtp matches Some(c)
            &&& exists|material: Seq<u8>| material.len() == KEYING_MATERIAL_LEN && c == keyed_context(material)
            &&& actions_after == actions_before.push(Action::Event(Event::PeerMediaReady(before.address)))
        } else {
            after.srtp is None && actions_after == actions_before
        },
    }
}

/// What one DTLS datagram does to the peer and the actions: nothing when
/// the session failed or is not connected yet, a keying step otherwise.
pub open spec fn dtls_input_step<D>(
    before: PeerState<D>,
    after: PeerState<D>,
    actions_before: Seq<Action<D>>,
    actions_after: Seq<Action<D>>,
    failed: bool,
    connected: bool,
) -> bool {
    if failed || !connected {
        after.address == before.address && after.srtp == before.srtp && actions_after == actions_before
    } else {
        exists|keyed: bool| keying_step(before, after, actions_before, actions_after, keyed)
    }
}

/// A keyed peer stays keyed through a DTLS step, and the step pushes nothing.
pub proof fn lemma_keyed_step<D>(
    before: PeerState<D>,
    after: PeerState<D>,
    actions_before: Seq<Action<D>>,
    actions_after: Seq<Action<D>>,
    failed: bool,
    connected: bool,
)
    requires
        dtls_input_step(before, after, actions_before, actions_after, failed, connected),
        before.srtp is Some,
    ensures
        after.srtp == before.srtp,
        actions_after == actions_before,
{
    if !(failed || !connected) {
        let keyed = choose|keyed: bool| keying_step(before, after, actions_before, actions_after, keyed);
        assert(keying_step(before, after, actions_before, actions_after, keyed));
    }
}

/// Over a run of DTLS steps in which nothing else touches SRTP between
/// datagrams, a peer keyed at some step is keyed at every later step.
pub proof fn lemma_keyed_persists<D>(
    before: Seq<PeerState<D>>,
    after: Seq<PeerState<D>>,
    actions_before: Seq<Seq<Action<D>>>,
    actions_after: Seq<Seq<Action<D>>>,
    failed: Seq<bool>,
    connected: Seq<bool>,
    k: int,
    j: int,
)
    requires
        before.len() == after.len() && after.len() == actions_before.len() && actions_before.len() == actions_after.len()
            && actions_after.len() == failed.len() && failed.len() == connected.len(),
        forall|i: int| 0 <= i < before.len() ==> #[trigger] dtls_input_step(
            before[i], after[i], actions_before[i], actions_after[i], failed[i], connected[i]),
        forall|i: int| 0 <= i < before.len() - 1 ==> #[trigger] before[i + 1].srtp == after[i].srtp,
        0 <= k <= j < before.len(),
        before[k].srtp is Some,
    ensures
        before[j].srtp is Some,
        after[j].srtp is Some,
        actions_after[j] == actions_before[j],
    decreases j - k,
{
    if j > k {
        lemma_keyed_persists(before, after, actions_before, actions_after, failed, connected, k, j - 1);
        assert(before[(j - 1) + 1].srtp == after[j - 1].srtp);
    }
    assert(dtls_input_step(before[j], after[j], actions_before[j], actions_after[j], failed[j], connected[j]));
    lemma_keyed_step(before[j], after[j], actions_before[j], actions_after[j], failed[j], connected[j]);
}

/// Over any run of DTLS datagrams in which nothing else touches SRTP
/// between datagrams: a step pushes nothing, or it pushes only the
/// media-ready event of the peer, in a step where the session is connected
/// and SRTP was not yet keyed and is keyed after; that happens at most once
/// in the run; and once keyed, SRTP stays keyed.
pub proof fn law_media_ready_at_most_once<D>(
    before: Seq<PeerState<D>>,
    after: Seq<PeerState<D>>,
    actions_before: Seq<Seq<Action<D>>>,
    actions_after: Seq<Seq<Action<D>>>,
    failed: Seq<bool>,
    connected: Seq<bool>,
)
    requires
        before.len() == after.len() && after.len() == actions_before.len() && actions_before.len() == actions_after.len()
            && actions_after.len() == failed.len() && failed.len() == connected.len(),
        forall|i: int| 0 <= i < before.len() ==> #[trigger] dtls_input_step(
            before[i], after[i], actions_before[i], actions_after[i], failed[i], connected[i]),
        forall|i: int| 0 <= i < before.len() - 1 ==> #[trigger] before[i + 1].srtp == after[i].srtp,
    ensures
        forall|i: int| 0 <= i < before.len() ==> {
            ||| actions_after[i] == actions_before[i]
            ||| {
                &&& connected[i] && !failed[i]
                &&& before[i].srtp is None && after[i].srtp is Some
                &&& actions_after[i] == actions_before[i].push(Action::Event(Event::PeerMediaReady(before[i].address)))
            }
        },
        forall|i: int, j: int| 0 <= i < j < before.len() && actions_after[i] != actions_before[i]
            ==> actions_after[j] == actions_before[j],
        forall|i: int, j: int| 0 <= i <= j < before.len() && before[i].srtp is Some ==> after[j].srtp is Some,
{
    let n = before.len() as int;
    assert forall|i: int| 0 <= i < n implies {
        ||| actions_after[i] == actions_before[i]
        ||| {
            &&& connected[i] && !failed[i]
            &&& before[i].srtp is None && after[i].srtp is Some
            &&& actions_after[i] == actions_before[i].push(Action::Event(Event::PeerMediaReady(before[i].address)))
        }
    } by {
        assert(dtls_input_step(before[i], after[i], actions_before[i], actions_after[i], failed[i], connected[i]));
        if !(failed[i] || !connected[i]) {
            let keyed = choose|keyed: bool| keying_step(before[i], after[i], actions_before[i], actions_after[i], keyed);
            assert(keying_step(before[i], after[i], actions_before[i], actions_after[i], keyed));
        }
    }
    assert forall|i: int, j: int| 0 <= i < j < n && actions_after[i] != actions_before[i]
        implies actions_after[j] == actions_before[j] by {
        assert(dtls_input_step(before[i], after[i], actions_before[i], actions_after[i], failed[i], connected[i]));
        let keyed = choose|keyed: bool| keying_step(before[i], after[i], actions_before[i], actions_after[i], keyed);
        assert(keying_step(before[i], after[i], actions_before[i], actions_after[i], keyed));
        assert(before[i + 1].srtp == after[i].srtp);
        lemma_keyed_persists(before, after, actions_before, actions_after, failed, connected, i + 1, j);
    }
    assert forall|i: int, j: int| 0 <= i <= j < n && before[i].srtp is Some implies after[j].srtp is Some by {
        lemma_keyed_persists(before, after, actions_before, actions_after, failed, connected, i, j);
    }
}

impl<D> View for Peer<D> {
    type V = PeerState<D>;

    closed spec fn view(&self) -> PeerState<D> {
        PeerState {
            address: self.address,
            dtls: self.dtls,
            srtp: match self.srtp {
                Some(c) => Some(c@),
                None => None,
            },
        }
    }
}

impl<D> Peer<D> {
    pub fn new(address: SocketAddress) -> (r: Self)
        ensures
            r@.address == address,
            r@.dtls is None,
            r@.srtp is None,
    {
        Self { address, dtls: None, srtp: None }
    }

    pub fn address(&self) -> (r: SocketAddress)
        ensures
            r == self@.address,
    {
        self.address
    }

    /// Once the DTLS session is connected: keys SRTP from it, if not yet
    /// done, and announces that media can flow. False when the keying
    /// material cannot be exported.
    pub fn handle_dtls_connected(&mut self, ssl: &SslRef, actions: &mut Vec<Action<D>>) -> (r: bool)
        ensures
            final(self)@.dtls == old(self)@.dtls,
            keying_step(old(self)@, final(self)@, old(actions)@, final(actions)@, r),
    {
        if self.srtp.is_some() {
            return true;
        }
        match SrtpContext::from_dtls(ssl) {
            Ok(context) => {
                self.srtp = Some(context);
                actions.push(Action::Event(Event::PeerMediaReady(self.address)));
                true
            },
            Err(_) => false,
        }
    }

    /// After the peer's DTLS session has handled a datagram. The caller
    /// holds the session meanwhile and passes its TLS state in `connected`
    /// once the handshake is done. A failed session is dropped (the first
    /// result is false) and nothing is sent; a connected session keys SRTP
    /// once, and its reply is sent unless that keying failed.
    pub fn finish_dtls_input(
        &mut self,
        outcome: DtlsOutcome,
        connected: Option<&SslRef>,
        actions: &mut Vec<Action<D>>,
    ) -> (r: (bool, Option<Vec<u8>>))
        ensures
            final(self)@.dtls == old(self)@.dtls,
            dtls_input_step(old(self)@, final(self)@, old(actions)@, final(actions)@, outcome is Failed, connected is Some),
            match outcome {
                DtlsOutcome::Failed => !r.0 && r.1 is None,
                DtlsOutcome::Handled(reply) => {
                    &&& r.0
                    &&& r.1 == if connected is Some && final(self)@.srtp is None { None } else { reply }
                },
            },
    {
        let reply = match outcome {
            DtlsOutcome::Failed => return (false, None),
            DtlsOutcome::Handled(reply) => reply,
        };
        match connected {
            None => (true, reply),
            Some(ssl) => {
                if self.handle_dtls_connected(ssl, actions) {
                    (true, reply)
                } else {
                    (true, None)
                }
            },
        }
    }

    /// Whether `protect` can run on `buffer` with `length`.
    pub fn can_protect(&self, buffer: &[u8], length: usize) -> (r: bool)
        ensures
            r == (self@.srtp matches Some(c) ==> c.outbound.protect_ready(buffer@, length as int)),
    {
        match &self.srtp {
            Some(context) => context.can_protect(buffer, length),
            None => true,
        }
    }

    /// Whether `unprotect` can run on `packet`.
    pub fn can_unprotect(&self, packet: &[u8]) -> (r: bool)
        ensures
            r == (self@.srtp matches Some(c) ==> c.inbound.unprotect_ready(packet@)),
    {
        match &self.srtp {
            Some(context) => context.can_unprotect(packet),
            None => true,
        }
    }

    /// Protects an outgoing RTP packet; `None` before SRTP is keyed.
    pub fn protect(&mut self, buffer: &mut [u8], length: usize) -> (r: Option<usize>)
        requires
            old(self)@.srtp matches Some(c) ==> c.outbound.protect_ready(old(buffer)@, length as int),
        ensures
            final(self)@.address == old(self)@.address,
            final(self)@.dtls == old(self)@.dtls,
            final(buffer)@.len() == old(buffer)@.len(),
            match old(self)@.srtp {
                None => r is None && final(self)@ == old(self)@ && final(buffer)@ == old(buffer)@,
                Some(c) => {
                    let outcome = c.outbound.protect_outcome(old(buffer)@, length as int);
                    &&& final(self)@.srtp == Some(SrtpState { outbound: outcome.0, ..c })
                    &&& final(buffer)@ == outcome.1
                    &&& r == outcome.2
                },
            },
    {
        match &mut self.srtp {
            Some(context) => context.protect(buffer, length),
            None => None,
        }
    }

    /// Unprotects an incoming SRTP packet in place; `None` before SRTP is
    /// keyed or when the packet is refused.
    pub fn unprotect(&mut self, packet: &mut [u8]) -> (r: Option<usize>)
        requires
            old(self)@.srtp matches Some(c) ==> c.inbound.unprotect_ready(old(packet)@),
        ensures
            final(self)@.address == old(self)@.address,
            final(self)@.dtls == old(self)@.dtls,
            final(packet)@.len() == old(packet)@.len(),
            match old(self)@.srtp {
                None => r is None && final(self)@ == old(self)@ && final(packet)@ == old(packet)@,
                Some(c) => {
                    let outcome = c.inbound.unprotect_outcome(old(packet)@);
                    &&& final(self)@.srtp == Some(SrtpState { inbound: outcome.0, ..c })
                    &&& final(packet)@ == outcome.1
                    &&& r == outcome.2
                },
            },
    {
        match &mut self.srtp {
            Some(context) => context.unprotect(packet),
            None => None,
        }
    }

    /// `unprotect` on a packet that it can run on; on any other packet,
    /// `None` with the peer and the packet left as they were.
    pub fn unprotect_checked(&mut self, packet: &mut [u8]) -> (r: Option<usize>)
        ensures
            final(self)@.address == old(self)@.address,
            final(self)@.dtls == old(self)@.dtls,
            final(packet)@.len() == old(packet)@.len(),
            match old(self)@.srtp {
                None => r is None && final(self)@ == old(self)@ && final(packet)@ == old(packet)@,
                Some(c) => if c.inbound.unprotect_ready(old(packet)@) {
                    let outcome = c.inbound.unprotect_outcome(old(packet)@);
                    &&& final(self)@.srtp == Some(SrtpState { inbound: outcome.0, ..c })
                    &&& final(packet)@ == outcome.1
                    &&& r == outcome.2
                } else {
                    r is None && final(self)@ == old(self)@ && final(packet)@ == old(packet)@
                },
            },
    {
        if !self.can_unprotect(packet) {
            return None;
        }
        self.unprotect(packet)
    }

    /// SRTCP protection is not implemented: always `None`.
    pub fn protect_rtcp(&mut self, packet: &mut [u8]) -> (r: Option<usize>)
        ensures
            r is None,
            final(self)@ == old(self)@,
            final(packet)@ == old(packet)@,
    {
        None
    }

    /// SRTCP unprotection is not implemented: always `None`.
    pub fn unprotect_srtcp(&mut self, packet: &mut [u8]) -> (r: Option<usize>)
        ensures
            r is None,
            final(self)@ == old(self)@,
            final(packet)@ == old(packet)@,
    {
        None
    }
}

} // verus!
