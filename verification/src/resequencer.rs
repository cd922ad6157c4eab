//! Reorders RTP packets by sequence number in a window of 64 slots.
use vstd::prelude::*;
use crate::rtp::RtpPacket;

verus! {

pub const SIZE: usize = 64;
pub const DEFAULT_LOOKAHEAD: u16 = 3;
/// Half of the 16-bit sequence space: differences below it count as "ahead".
pub const HALF_RANGE: u16 = 0x8000;

/// One place in the window; `packet`, when present, carries sequence number `seq`.
pub struct Slot<'a> {
    pub seq: u16,
    pub packet: Option<RtpPacket<'a>>,
}

impl<'a> Slot<'a> {
    fn empty() -> (r: Self)
        ensures
            r == empty_slot::<'a>(),
    {
        Self { seq: 0, packet: None }
    }
}

/// `a - b` in 16-bit serial arithmetic, as a number in `0..65536`.
pub open spec fn serial_sub(a: u16, b: u16) -> int {
    if a >= b { a - b } else { a - b + 65536 }
}

/// `a + k` in 16-bit serial arithmetic.
pub open spec fn serial_add(a: u16, k: int) -> u16 {
    ((a as int + k) % 65536) as u16
}

/// The slot that sequence number `seq` maps to.
pub open spec fn slot_index(seq: u16) -> int {
    seq as int % SIZE as int
}

pub open spec fn empty_slot<'a>() -> Slot<'a> {
    Slot { seq: 0, packet: None }
}

pub open spec fn empty_slots<'a>() -> Seq<Slot<'a>> {
    Seq::new(SIZE as nat, |i: int| empty_slot::<'a>())
}

/// The abstract state of a resequencer.
pub ghost struct ResequencerState<'a> {
    pub slots: Seq<Slot<'a>>,
    pub lookahead: u16,
    pub expected: u16,
    pub highest: u16,
}

impl<'a> ResequencerState<'a> {
    /// A full window, a lookahead inside it, and every stored packet in the
    /// slot of its own sequence number.
    pub open spec fn valid(self) -> bool {
        &&& self.slots.len() == SIZE
        &&& self.lookahead < SIZE
        &&& forall|i: int| #![trigger self.slots[i]]
            0 <= i < SIZE && self.slots[i].packet is Some
                ==> self.slots[i].packet->0.header.sequence_number == self.slots[i].seq
    }

    /// The packet for sequence number `s` is in its slot.
    pub open spec fn ready(self, s: u16) -> bool {
        &&& self.slots[slot_index(s)].seq == s
        &&& self.slots[slot_index(s)].packet is Some
    }

    /// The smallest `j` in `k..=d` with `expected + j` ready.
    pub open spec fn first_ready(self, k: int, d: int) -> Option<int>
        decreases d + 1 - k,
    {
        if k > d {
            None
        } else if self.ready(serial_add(self.expected, k)) {
            Some(k)
        } else {
            self.first_ready(k + 1, d)
        }
    }

    /// The state and the packet after reading the packet for `expected + k`.
    pub open spec fn take_at(self, k: int) -> (ResequencerState<'a>, Option<RtpPacket<'a>>) {
        let s = serial_add(self.expected, k);
        let i = slot_index(s);
        (
            ResequencerState {
                slots: self.slots.update(i, Slot { seq: s, packet: None }),
                expected: serial_add(s, 1),
                ..self
            },
            self.slots[i].packet,
        )
    }

    /// One step of the search for the first ready slot.
    pub proof fn lemma_first_ready_step(self, k: int, d: int)
        requires
            1 <= k <= d,
        ensures
            self.ready(serial_add(self.expected, k)) ==> self.first_ready(k, d) == Some(k),
            !self.ready(serial_add(self.expected, k)) ==> self.first_ready(k, d) == self.first_ready(k + 1, d),
            self.first_ready(d + 1, d) is None,
    {
    }

    /// The search result is a ready slot within the searched range.
    pub proof fn lemma_first_ready_found(self, k: int, d: int)
        ensures
            self.first_ready(k, d) matches Some(j) ==> k <= j <= d && self.ready(serial_add(self.expected, j)),
        decreases d + 1 - k,
    {
        if k <= d && !self.ready(serial_add(self.expected, k)) {
            self.lemma_first_ready_found(k + 1, d);
        }
    }

    /// What `read` does: the next packet in order, or, when the newest packet
    /// is more than `lookahead` ahead, the first stored one after a gap.
    pub open spec fn read_outcome(self) -> (ResequencerState<'a>, Option<RtpPacket<'a>>) {
        let d = serial_sub(self.highest, self.expected);
        if self.ready(self.expected) {
            self.take_at(0)
        } else if d < HALF_RANGE && d > self.lookahead {
            match self.first_ready(1, d) {
                Some(k) => self.take_at(k),
                None => (self, None),
            }
        } else {
            (self, None)
        }
    }

    /// A packet with sequence number `seq` is behind `expected`.
    pub open spec fn is_late(self, seq: u16) -> bool {
        let behind = serial_sub(self.expected, seq);
        behind != 0 && behind < HALF_RANGE
    }

    /// A packet with sequence number `seq` is too far ahead for the window.
    pub open spec fn jumps(self, seq: u16) -> bool {
        let ahead = serial_sub(seq, self.expected);
        ahead >= SIZE && ahead < HALF_RANGE
    }

    /// The state after a jump to `seq` has emptied the window, if one happens.
    pub open spec fn after_jump(self, seq: u16) -> ResequencerState<'a> {
        if self.jumps(seq) {
            ResequencerState { slots: empty_slots(), expected: seq, highest: seq, ..self }
        } else {
            self
        }
    }

    /// What `add` does with `packet`.
    pub open spec fn add_outcome(self, packet: RtpPacket<'a>) -> ResequencerState<'a> {
        let seq = packet.header.sequence_number;
        let m = self.after_jump(seq);
        let i = slot_index(seq);
        if self.is_late(seq) {
            self
        } else if m.slots[i].packet is Some && m.slots[i].seq != seq {
            m
        } else {
            ResequencerState {
                slots: m.slots.update(i, Slot { seq, packet: Some(packet) }),
                highest: if serial_sub(seq, m.highest) < HALF_RANGE { seq } else { m.highest },
                ..m
            }
        }
    }
}

/// A packet that arrives with the expected sequence number, into a slot that
/// holds no other sequence number's packet, is the packet the next read returns.
pub proof fn law_read_returns_expected_packet<'a>(s: ResequencerState<'a>, packet: RtpPacket<'a>)
    requires
        s.valid(),
        packet.header.sequence_number == s.expected,
        s.slots[slot_index(s.expected)].packet is None
            || s.slots[slot_index(s.expected)].seq == s.expected,
    ensures
        s.add_outcome(packet).read_outcome().1 == Some(packet),
{
    assert(serial_sub(s.expected, s.expected) == 0);
    assert(serial_add(s.expected, 0) == s.expected);
}

/// Packets leave in sequence order: a packet that is read carries the
/// expected sequence number or one ahead of it by less than half the
/// sequence space, and the next expected number is the one after it.
/// A read that returns nothing changes nothing.
pub proof fn law_read_in_order<'a>(s: ResequencerState<'a>)
    requires
        s.valid(),
    ensures
        s.read_outcome().0.valid(),
        match s.read_outcome() {
            (t, Some(p)) => {
                &&& serial_sub(p.header.sequence_number, s.expected) < HALF_RANGE
                &&& t.expected == serial_add(p.header.sequence_number, 1)
            },
            (t, None) => t == s,
        },
{
    let d = serial_sub(s.highest, s.expected);
    assert(serial_add(s.expected, 0) == s.expected);
    s.lemma_first_ready_found(1, d);
    if s.ready(s.expected) {
        let i = slot_index(s.expected);
        assert(s.slots[i].packet->0.header.sequence_number == s.slots[i].seq);
    } else if d < HALF_RANGE && d > s.lookahead {
        if let Some(k) = s.first_ready(1, d) {
            let i = slot_index(serial_add(s.expected, k));
            assert(s.slots[i].packet->0.header.sequence_number == s.slots[i].seq);
        }
    }
}

/// `add` keeps the newest sequence number the serial maximum of what was
/// added: without a jump it never moves backwards, it becomes the added
/// number exactly when that number is stored at or ahead of it, and it
/// never moves anywhere else; a jump restarts the window at the added number.
pub proof fn law_add_keeps_newest<'a>(s: ResequencerState<'a>, packet: RtpPacket<'a>)
    requires
        s.valid(),
    ensures
        ({
            let seq = packet.header.sequence_number;
            let t = s.add_outcome(packet);
            &&& !s.jumps(seq) ==> serial_sub(t.highest, s.highest) < HALF_RANGE
            &&& t.highest == s.highest || t.highest == seq
            &&& serial_sub(seq, s.highest) >= HALF_RANGE && !s.jumps(seq) ==> t.highest == s.highest
            &&& s.jumps(seq) ==> t.highest == seq && t.expected == seq
            &&& !s.is_late(seq) && t.slots[slot_index(seq)].packet == Some(packet)
                && serial_sub(seq, s.highest) < HALF_RANGE ==> t.highest == seq
        }),
{
    let seq = packet.header.sequence_number;
    assert(serial_sub(s.highest, s.highest) == 0);
    if s.jumps(seq) {
        assert(serial_sub(seq, seq) == 0);
    }
}

/// A packet behind the expected sequence number leaves the state as it was.
pub proof fn law_late_packet_ignored<'a>(s: ResequencerState<'a>, packet: RtpPacket<'a>)
    requires
        s.is_late(packet.header.sequence_number),
    ensures
        s.add_outcome(packet) == s,
{
}

/// A call on a resequencer.
pub ghost enum ResequencerCall<'a> {
    Add(RtpPacket<'a>),
    Read,
}

/// A resequencer as `with_lookahead(start, lookahead)` makes it.
pub open spec fn fresh_state<'a>(start: u16, lookahead: u16) -> ResequencerState<'a> {
    ResequencerState { slots: empty_slots(), lookahead, expected: start, highest: start }
}

/// The state after `calls` from `s`, the packets that the reads returned in
/// call order, and for each the index of the read that returned it.
pub open spec fn run<'a>(s: ResequencerState<'a>, calls: Seq<ResequencerCall<'a>>) -> (
    ResequencerState<'a>,
    Seq<RtpPacket<'a>>,
    Seq<int>,
)
    decreases calls.len(),
{
    if calls.len() == 0 {
        (s, Seq::empty(), Seq::empty())
    } else {
        let (t, out, at) = run(s, calls.drop_last());
        match calls.last() {
            ResequencerCall::Add(packet) => (t.add_outcome(packet), out, at),
            ResequencerCall::Read => match t.read_outcome() {
                (u, Some(packet)) => (u, out.push(packet), at.push(calls.len() - 1)),
                (u, None) => (u, out, at),
            },
        }
    }
}

/// `packet` was passed to one of the first `n` calls.
pub open spec fn added_before<'a>(calls: Seq<ResequencerCall<'a>>, n: int, packet: RtpPacket<'a>) -> bool {
    exists|a: int| 0 <= a < n && #[trigger] calls[a] == ResequencerCall::Add(packet)
}

/// What holds after the first `n` calls of a run from `start`.
pub open spec fn run_invariant<'a>(
    start: u16,
    calls: Seq<ResequencerCall<'a>>,
    n: int,
    t: ResequencerState<'a>,
    out: Seq<RtpPacket<'a>>,
    at: Seq<int>,
) -> bool {
    &&& t.valid()
    &&& serial_sub(t.expected, start) <= SIZE
    &&& serial_sub(t.highest, start) < SIZE
    &&& forall|i: int| #![trigger t.slots[i]]
        0 <= i < SIZE && t.slots[i].packet is Some ==> added_before(calls, n, t.slots[i].packet->0)
    &&& out.len() == at.len()
    &&& forall|j: int| 0 <= j < at.len() ==> 0 <= #[trigger] at[j] < n && calls[at[j]] is Read
    &&& forall|j: int| #![trigger out[j]] 0 <= j < out.len() ==> {
        &&& added_before(calls, at[j], out[j])
        &&& serial_sub(out[j].header.sequence_number, start) < serial_sub(t.expected, start)
    }
    &&& forall|j: int, k: int| #![trigger out[j], out[k]] 0 <= j < k < out.len() ==> {
        &&& serial_sub(out[j].header.sequence_number, start) < serial_sub(out[k].header.sequence_number, start)
        &&& at[j] < at[k]
    }
}

/// With the expected number at most 64 ahead of `start` and a packet less
/// than 64 ahead of it: the packet is late exactly when it is behind the
/// expected number, and it never makes the window jump.
pub proof fn lemma_add_offsets(start: u16, expected: u16, seq: u16)
    requires
        serial_sub(expected, start) <= SIZE,
        serial_sub(seq, start) < SIZE,
    ensures
        (serial_sub(expected, seq) != 0 && serial_sub(expected, seq) < HALF_RANGE)
            == (serial_sub(seq, start) < serial_sub(expected, start)),
        !(serial_sub(seq, expected) >= SIZE && serial_sub(seq, expected) < HALF_RANGE),
{
}

/// A packet less than 64 ahead of `start` that is read while the expected
/// number is at most 64 ahead lies at or after the expected number, and
/// the number after it is one further from `start`.
pub proof fn lemma_read_offsets(start: u16, expected: u16, seq: u16)
    requires
        serial_sub(expected, start) <= SIZE,
        serial_sub(seq, start) < SIZE,
        serial_sub(seq, expected) < HALF_RANGE,
    ensures
        serial_sub(seq, start) >= serial_sub(expected, start),
        serial_sub(serial_add(seq, 1), start) == serial_sub(seq, start) + 1,
{
    assert((seq as int + 1) % 65536 == if seq < 65535 { seq as int + 1 } else { 0 });
}

/// The packet that a read returns comes out of one of the slots.
pub proof fn lemma_read_from_slot<'a>(t: ResequencerState<'a>)
    requires
        t.valid(),
        t.read_outcome().1 is Some,
    ensures
        exists|i: int| #![trigger t.slots[i]]
            0 <= i < SIZE && t.slots[i].packet == t.read_outcome().1
                && t.read_outcome().0.slots == t.slots.update(i, Slot { seq: t.slots[i].seq, packet: None }),
{
    let d = serial_sub(t.highest, t.expected);
    assert(serial_add(t.expected, 0) == t.expected);
    t.lemma_first_ready_found(1, d);
    let k = if t.ready(t.expected) { 0 } else { t.first_ready(1, d)->0 };
    let i = slot_index(serial_add(t.expected, k));
    assert(t.slots[i].packet == t.read_outcome().1);
}

/// The invariant holds after every prefix of a run from a fresh resequencer.
pub proof fn lemma_run_invariant<'a>(start: u16, lookahead: u16, calls: Seq<ResequencerCall<'a>>, n: int)
    requires
        lookahead < SIZE,
        0 <= n <= calls.len(),
        forall|a: int| 0 <= a < calls.len() ==> (#[trigger] calls[a] matches ResequencerCall::Add(p)
            ==> serial_sub(p.header.sequence_number, start) < SIZE),
    ensures
        ({
            let (t, out, at) = run(fresh_state::<'a>(start, lookahead), calls.take(n));
            run_invariant(start, calls, n, t, out, at)
        }),
    decreases n,
{
    let s = fresh_state::<'a>(start, lookahead);
    if n == 0 {
        assert(calls.take(0).len() == 0);
        return;
    }
    lemma_run_invariant(start, lookahead, calls, n - 1);
    let (t, out, at) = run(s, calls.take(n - 1));
    assert(calls.take(n).drop_last() =~= calls.take(n - 1));
    assert(calls.take(n).last() == calls[n - 1]);
    assert forall|p: RtpPacket<'a>, m: int| m <= n - 1 && #[trigger] added_before(calls, m, p) implies added_before(calls, n, p) by {
        let a = choose|a: int| 0 <= a < m && #[trigger] calls[a] == ResequencerCall::Add(p);
        assert(calls[a] == ResequencerCall::Add(p));
    }
    let ghost call = calls[n - 1];
    match call {
        ResequencerCall::Add(p) => {
            let seq = p.header.sequence_number;
            lemma_add_offsets(start, t.expected, seq);
            assert(t.after_jump(seq) == t);
            let u = t.add_outcome(p);
            assert(run(s, calls.take(n)) == (u, out, at));
            assert(added_before(calls, n, p)) by {
                assert(calls[n - 1] == ResequencerCall::Add(p));
            }
            assert forall|i: int| #![trigger u.slots[i]]
                0 <= i < SIZE && u.slots[i].packet is Some implies
                    u.slots[i].packet->0.header.sequence_number == u.slots[i].seq
                    && added_before(calls, n, u.slots[i].packet->0) by {
                assert(t.slots[i].packet is Some ==> added_before(calls, n - 1, t.slots[i].packet->0));
            }
            assert(run_invariant(start, calls, n, u, out, at));
        },
        ResequencerCall::Read => {
            law_read_in_order(t);
            let (u, r) = t.read_outcome();
            match r {
                None => {
                    assert(run(s, calls.take(n)) == (u, out, at));
                    assert(run_invariant(start, calls, n, u, out, at));
                },
                Some(p) => {
                    lemma_read_from_slot(t);
                    let i = choose|i: int| #![trigger t.slots[i]]
                        0 <= i < SIZE && t.slots[i].packet == t.read_outcome().1
                            && t.read_outcome().0.slots == t.slots.update(i, Slot { seq: t.slots[i].seq, packet: None });
                    assert(t.slots[i].packet is Some);
                    assert(added_before(calls, n - 1, p));
                    let a = choose|a: int| 0 <= a < n - 1 && #[trigger] calls[a] == ResequencerCall::Add(p);
                    assert(calls[a] == ResequencerCall::Add(p));
                    let seq = p.header.sequence_number;
                    assert(serial_sub(seq, start) < SIZE);
                    lemma_read_offsets(start, t.expected, seq);
                    let out2 = out.push(p);
                    let at2 = at.push(n - 1);
                    assert(run(s, calls.take(n)) == (u, out2, at2));
                    assert forall|k: int| #![trigger u.slots[k]]
                        0 <= k < SIZE && u.slots[k].packet is Some implies added_before(calls, n, u.slots[k].packet->0) by {
                        assert(t.slots[k].packet is Some ==> added_before(calls, n - 1, t.slots[k].packet->0));
                    }
                    assert forall|j: int| 0 <= j < at2.len() implies 0 <= #[trigger] at2[j] < n && calls[at2[j]] is Read by {
                        if j < at.len() {
                            assert(at2[j] == at[j]);
                        }
                    }
                    assert forall|j: int| #![trigger out2[j]] 0 <= j < out2.len() implies {
                        &&& added_before(calls, at2[j], out2[j])
                        &&& serial_sub(out2[j].header.sequence_number, start) < serial_sub(u.expected, start)
                    } by {
                        if j < out.len() {
                            assert(out2[j] == out[j]);
                            assert(at2[j] == at[j]);
                        } else {
                            assert(calls[a] == ResequencerCall::Add(out2[j]));
                        }
                    }
                    assert forall|j: int, k: int| #![trigger out2[j], out2[k]] 0 <= j < k < out2.len() implies {
                        &&& serial_sub(out2[j].header.sequence_number, start) < serial_sub(out2[k].header.sequence_number, start)
                        &&& at2[j] < at2[k]
                    } by {
                        assert(out2[j] == out[j]);
                        if k < out.len() {
                            assert(out2[k] == out[k]);
                        }
                    }
                    assert(run_invariant(start, calls, n, u, out2, at2));
                },
            }
        },
    }
}

/// The reads of a run returned `out`, at the calls `at`: in strictly
/// increasing distance from `start`, each by a read call, each passed to an
/// earlier add.
pub open spec fn returned_in_order<'a>(
    start: u16,
    calls: Seq<ResequencerCall<'a>>,
    out: Seq<RtpPacket<'a>>,
    at: Seq<int>,
) -> bool {
    &&& out.len() == at.len()
    &&& forall|j: int, k: int| #![trigger out[j], out[k]] 0 <= j < k < out.len()
        ==> serial_sub(out[j].header.sequence_number, start) < serial_sub(out[k].header.sequence_number, start)
    &&& forall|j: int| 0 <= j < at.len() ==> 0 <= #[trigger] at[j] < calls.len() && calls[at[j]] is Read
    &&& forall|j: int| #![trigger out[j]] 0 <= j < out.len() ==> added_before(calls, at[j], out[j])
}

/// Packets leave in order over any run: on a resequencer made by `new(start)`
/// or `with_lookahead(start, ..)`, given any sequence of adds and reads in
/// which every added packet is less than 64 sequence numbers ahead of
/// `start`, the reads return packets in strictly increasing distance from
/// `start` (so no sequence number twice), each returned by a read call and
/// passed to an earlier add; the state stays valid throughout.
pub proof fn law_run_in_order<'a>(start: u16, lookahead: u16, calls: Seq<ResequencerCall<'a>>)
    requires
        lookahead < SIZE,
        forall|a: int| 0 <= a < calls.len() ==> (#[trigger] calls[a] matches ResequencerCall::Add(p)
            ==> serial_sub(p.header.sequence_number, start) < SIZE),
    ensures
        run(fresh_state::<'a>(start, lookahead), calls).0.valid(),
        returned_in_order(
            start,
            calls,
            run(fresh_state::<'a>(start, lookahead), calls).1,
            run(fresh_state::<'a>(start, lookahead), calls).2,
        ),
{
    lemma_run_invariant(start, lookahead, calls, calls.len() as int);
    assert(calls.take(calls.len() as int) =~= calls);
    let r = run(fresh_state::<'a>(start, lookahead), calls);
    assert(run_invariant(start, calls, calls.len() as int, r.0, r.1, r.2));
}

pub struct Resequencer<'a> {
    slots: Vec<Slot<'a>>,
    lookahead: u16,
    expected_seq: u16,
    highest_seq: u16,
}

impl<'a> View for Resequencer<'a> {
    type V = ResequencerState<'a>;

    closed spec fn view(&self) -> ResequencerState<'a> {
        ResequencerState {
            slots: self.slots@,
            lookahead: self.lookahead,
            expected: self.expected_seq,
            highest: self.highest_seq,
        }
    }
}

/// One step of serial addition.
pub proof fn lemma_serial_step(e: u16, k: int)
    requires
        0 <= k < 65535,
    ensures
        serial_add(serial_add(e, k), 1) == serial_add(e, k + 1),
{
}

/// Walking forward from `e`, the newest sequence number `h` is reached
/// (counts as "not behind") at the step `serial_sub(h, e)` and not before.
pub proof fn lemma_serial_reach(e: u16, h: u16, k: int)
    requires
        1 <= k <= serial_sub(h, e),
        serial_sub(h, e) < HALF_RANGE,
    ensures
        (serial_sub(serial_add(e, k), h) < HALF_RANGE) == (k == serial_sub(h, e)),
{
}

fn empty_window<'a>() -> (r: Vec<Slot<'a>>)
    ensures
        r@ == empty_slots::<'a>(),
{
    let mut slots: Vec<Slot<'a>> = Vec::new();
    while slots.len() < SIZE
        invariant
            slots@.len() <= SIZE,
            forall|i: int| 0 <= i < slots@.len() ==> slots@[i] == empty_slot::<'a>(),
        decreases SIZE - slots@.len(),
    {
        slots.push(Slot::empty());
    }
    assert(slots@ =~= empty_slots::<'a>());
    slots
}

impl<'a> Resequencer<'a> {
    fn index(seq: u16) -> (r: usize)
        ensures
            r == slot_index(seq),
            r < SIZE,
    {
        let r = seq as usize & (SIZE - 1);
        assert(seq as usize & 63usize == (seq as usize) % 64) by (bit_vector);
        r
    }

    pub fn new(start_sequence_number: u16) -> (r: Self)
        ensures
            r@ == (ResequencerState::<'a> {
                slots: empty_slots(),
                lookahead: DEFAULT_LOOKAHEAD,
                expected: start_sequence_number,
                highest: start_sequence_number,
            }),
            r@.valid(),
    {
        Self::with_lookahead(start_sequence_number, DEFAULT_LOOKAHEAD)
    }

    pub fn with_lookahead(start_sequence_number: u16, lookahead: u16) -> (r: Self)
        ensures
            r@ == (ResequencerState::<'a> {
                slots: empty_slots(),
                lookahead: if lookahead < SIZE as u16 - 1 { lookahead } else { (SIZE - 1) as u16 },
                expected: start_sequence_number,
                highest: start_sequence_number,
            }),
            r@.valid(),
    {
        let lookahead = if lookahead < SIZE as u16 - 1 { lookahead } else { SIZE as u16 - 1 };
        Self {
            slots: empty_window(),
            lookahead,
            expected_seq: start_sequence_number,
            highest_seq: start_sequence_number,
        }
    }

    pub fn add(&mut self, packet: RtpPacket<'a>)
        requires
            old(self)@.valid(),
        ensures
            final(self)@ == old(self)@.add_outcome(packet),
            final(self)@.valid(),
    {
        let ghost start = self@;
        let seq = packet.header.sequence_number;

        let behind = self.expected_seq.wrapping_sub(seq);
        if behind != 0 && behind < HALF_RANGE {
            return;
        }

        let ahead = seq.wrapping_sub(self.expected_seq);
        if ahead >= SIZE as u16 && ahead < HALF_RANGE {
            self.reset_to(seq);
        }
        assert(self@ == start.after_jump(seq));

        let index = Self::index(seq);
        if self.slots[index].packet.is_some() && self.slots[index].seq != seq {
            return;
        }

        self.slots[index] = Slot { seq, packet: Some(packet) };

        if seq.wrapping_sub(self.highest_seq) < HALF_RANGE {
            self.highest_seq = seq;
        }
        assert(self@.slots =~= start.add_outcome(packet).slots);
    }

    pub fn read(&mut self) -> (r: Option<RtpPacket<'a>>)
        requires
            old(self)@.valid(),
        ensures
            (final(self)@, r) == old(self)@.read_outcome(),
            final(self)@.valid(),
    {
        let ghost start = self@;
        let expected = self.expected_seq;
        let index = Self::index(expected);
        assert(serial_add(expected, 0) == expected);

        if self.slots[index].seq == expected {
            if let Some(packet) = self.slots[index].packet.take() {
                self.expected_seq = expected.wrapping_add(1);
                assert(self@.slots =~= start.take_at(0).0.slots);
                return Some(packet);
            }
        }
        assert(self@.slots =~= start.slots);

        let distance = self.highest_seq.wrapping_sub(self.expected_seq);
        if distance < HALF_RANGE && distance > self.lookahead {
            let mut potential_seq = self.expected_seq;
            let ghost mut k: int = 0;
            loop
                invariant
                    self@ == start,
                    start == old(self)@,
                    start.valid(),
                    !start.ready(start.expected),
                    distance == serial_sub(start.highest, start.expected),
                    distance < HALF_RANGE,
                    distance > start.lookahead,
                    0 <= k < distance,
                    potential_seq == serial_add(start.expected, k),
                    start.first_ready(1, distance as int) == start.first_ready(k + 1, distance as int),
                decreases distance - k,
            {
                proof {
                    lemma_serial_step(start.expected, k);
                }
                potential_seq = potential_seq.wrapping_add(1);
                proof {
                    k = k + 1;
                    lemma_serial_reach(start.expected, start.highest, k);
                    start.lemma_first_ready_step(k, distance as int);
                }
                let index = Self::index(potential_seq);
                if self.slots[index].seq == potential_seq && self.slots[index].packet.is_some() {
                    let packet = self.slots[index].packet.take();
                    self.expected_seq = potential_seq.wrapping_add(1);
                    assert(self@.slots =~= start.take_at(k).0.slots);
                    return packet;
                }
                if potential_seq.wrapping_sub(self.highest_seq) < HALF_RANGE {
                    return None;
                }
            }
        }
        None
    }

    fn reset_to(&mut self, seq: u16)
        requires
            old(self)@.jumps(seq),
        ensures
            final(self)@ == old(self)@.after_jump(seq),
    {
        assert(serial_sub(seq, old(self)@.expected) < HALF_RANGE);
        self.slots = empty_window();
        if seq.wrapping_sub(self.expected_seq) < HALF_RANGE {
            self.expected_seq = seq;
            self.highest_seq = seq;
        }
    }
}

} // verus!
