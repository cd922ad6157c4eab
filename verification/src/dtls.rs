//! The datagram buffers under a DTLS session and the decisions of its
//! handshake and read loops; the TLS engine itself runs outside.
use vstd::prelude::*;

verus! {

/// In-memory datagram transport: bytes received from the network wait in
/// `incoming` for the TLS engine, bytes it writes wait in `outgoing`.
pub struct DatagramBio {
    incoming: Vec<u8>,
    outgoing: Vec<u8>,
}

/// The abstract state of the transport.
pub ghost struct BioState {
    pub incoming: Seq<u8>,
    pub outgoing: Seq<u8>,
}

impl BioState {
    /// What `read` does with a buffer of `capacity` bytes: the bytes handed
    /// over, or `None` when nothing waits.
    pub open spec fn read_outcome(self, capacity: int) -> (BioState, Option<Seq<u8>>) {
        if self.incoming.len() == 0 {
            (self, None)
        } else {
            let n = if capacity < self.incoming.len() { capacity } else { self.incoming.len() as int };
            (
                BioState { incoming: self.incoming.subrange(n, self.incoming.len() as int), ..self },
                Some(self.incoming.subrange(0, n)),
            )
        }
    }
}

impl View for DatagramBio {
    type V = BioState;

    closed spec fn view(&self) -> BioState {
        BioState { incoming: self.incoming@, outgoing: self.outgoing@ }
    }
}

impl DatagramBio {
    pub fn new() -> (r: Self)
        ensures
            r@.incoming.len() == 0,
            r@.outgoing.len() == 0,
    {
        Self { incoming: Vec::new(), outgoing: Vec::new() }
    }

    /// Queues a received datagram for the TLS engine.
    pub fn push(&mut self, packet: &[u8])
        ensures
            final(self)@ == (BioState { incoming: old(self)@.incoming + packet@, ..old(self)@ }),
    {
        self.incoming.extend_from_slice(packet);
        assert(self.incoming@ =~= old(self)@.incoming + packet@);
    }

    /// Hands over what the TLS engine has written and empties the queue.
    pub fn take_outgoing(&mut self) -> (r: Vec<u8>)
        ensures
            r@ == old(self)@.outgoing,
            final(self)@ == (BioState { outgoing: Seq::empty(), ..old(self)@ }),
    {
        let mut taken: Vec<u8> = Vec::new();
        std::mem::swap(&mut taken, &mut self.outgoing);
        taken
    }

    /// What the TLS engine has written, if anything; the queue is emptied.
    pub fn take_reply(&mut self) -> (r: Option<Vec<u8>>)
        ensures
            final(self)@ == (BioState { outgoing: Seq::empty(), ..old(self)@ }),
            old(self)@.outgoing.len() == 0 ==> r is None,
            old(self)@.outgoing.len() != 0 ==> (r matches Some(v) && v@ == old(self)@.outgoing),
    {
        let reply = self.take_outgoing();
        if reply.len() == 0 {
            None
        } else {
            Some(reply)
        }
    }

    /// Moves waiting bytes into `buffer`, as many as fit; `None` when none wait.
    pub fn read(&mut self, buffer: &mut [u8]) -> (r: Option<usize>)
        ensures
            ({
                let (next, taken) = old(self)@.read_outcome(old(buffer)@.len() as int);
                &&& final(self)@ == next
                &&& match taken {
                    None => r is None && final(buffer)@ == old(buffer)@,
                    Some(t) => r == Some(t.len() as usize)
                        && final(buffer)@ == t + old(buffer)@.subrange(t.len() as int, old(buffer)@.len() as int),
                }
            }),
    {
        if self.incoming.len() == 0 {
            return None;
        }
        let n = if buffer.len() < self.incoming.len() { buffer.len() } else { self.incoming.len() };
        let ghost before = buffer@;
        let mut i: usize = 0;
        while i < n
            invariant
                i <= n,
                n <= buffer@.len(),
                n <= self.incoming@.len(),
                buffer@.len() == before.len(),
                self@ == old(self)@,
                forall|k: int| 0 <= k < i ==> buffer@[k] == self.incoming@[k],
                forall|k: int| i <= k < buffer@.len() ==> buffer@[k] == before[k],
            decreases n - i,
        {
            buffer[i] = self.incoming[i];
            i += 1;
        }
        let rest = self.incoming.split_off(n);
        self.incoming = rest;
        assert(buffer@ =~= old(self)@.incoming.subrange(0, n as int) + before.subrange(n as int, before.len() as int));
        Some(n)
    }

    /// Queues bytes that the TLS engine writes; all of them are taken.
    pub fn write(&mut self, buffer: &[u8]) -> (r: usize)
        ensures
            r == buffer@.len(),
            final(self)@ == (BioState { outgoing: old(self)@.outgoing + buffer@, ..old(self)@ }),
    {
        self.outgoing.extend_from_slice(buffer);
        assert(self.outgoing@ =~= old(self)@.outgoing + buffer@);
        buffer.len()
    }
}

/// Bytes queued in order come out in that order: a datagram pushed onto an
/// empty queue is read back whole by a buffer large enough for it.
pub proof fn law_datagram_read_back(s: BioState, packet: Seq<u8>, capacity: int)
    requires
        s.incoming.len() == 0,
        packet.len() > 0,
        capacity >= packet.len(),
    ensures
        (BioState { incoming: s.incoming + packet, ..s }).read_outcome(capacity) == (s, Some(packet)),
{
    let pushed = BioState { incoming: s.incoming + packet, ..s };
    assert(pushed.incoming =~= packet);
    assert(packet.subrange(packet.len() as int, packet.len() as int) =~= s.incoming);
    assert(packet.subrange(0, packet.len() as int) =~= packet);
}

/// Where a DTLS session stands.
pub enum DtlsState {
    Handshaking,
    Connected,
}

/// What one call into the TLS engine reported.
pub enum TlsEvent {
    /// The handshake completed.
    Accepted,
    /// Application data of this many bytes was read (zero: nothing more).
    Read(usize),
    /// The engine needs more datagrams.
    WantRead,
    /// The engine has datagrams to write first.
    WantWrite,
    /// The session failed.
    Failed,
}

/// What the session does next.
pub enum TlsStep {
    /// Call the engine again.
    Retry,
    /// Hand this many bytes of application data to SCTP, then call the engine again.
    Deliver(usize),
    /// Stop until the next datagram arrives.
    Stop,
    /// Tear the session down.
    Fail,
}

/// The decision after a call into the TLS engine: the handshake ends in
/// `Connected`, data is delivered until the engine has none, "want write"
/// retries, and a failure ends the session.
pub fn next_step(state: DtlsState, event: TlsEvent) -> (r: (DtlsState, TlsStep))
    ensures
        match event {
            TlsEvent::Accepted => r == (DtlsState::Connected, TlsStep::Stop),
            TlsEvent::Read(0) => r == (state, TlsStep::Stop),
            TlsEvent::Read(n) => r == (state, TlsStep::Deliver(n)),
            TlsEvent::WantRead => r == (state, TlsStep::Stop),
            TlsEvent::WantWrite => r == (state, TlsStep::Retry),
            TlsEvent::Failed => r == (state, TlsStep::Fail),
        },
{
    match event {
        TlsEvent::Accepted => (DtlsState::Connected, TlsStep::Stop),
        TlsEvent::Read(n) => if n == 0 { (state, TlsStep::Stop) } else { (state, TlsStep::Deliver(n)) },
        TlsEvent::WantRead => (state, TlsStep::Stop),
        TlsEvent::WantWrite => (state, TlsStep::Retry),
        TlsEvent::Failed => (state, TlsStep::Fail),
    }
}

} // verus!
