use vstd::prelude::*;

use crate::rtp::{chunk_count, chunk_of, counters_after, frame_chunk, packet_bytes, RtpCounters};
use crate::sdp::{negotiate, negotiated};

verus! {

/// Where one call stands in its lifecycle.
#[derive(Clone, Copy, Debug, PartialEq, Eq, Structural)]
pub enum Phase {
    AwaitingInvite,
    OfferSent,
    Confirmed,
    Streaming,
    Terminated,
}

/// One call's state. The counters belong to the session alone; the audio it
/// streams is handed to each step and never changed.
#[derive(Clone, Copy, Debug, PartialEq, Eq, Structural)]
pub struct CallSession {
    pub phase: Phase,
    pub ssrc: u32,
    pub payload_type: u8,
    pub start: RtpCounters,
    pub counters: RtpCounters,
    pub next_chunk: usize,
}

/// What happened to a session: a datagram came in, a timer fired, or the
/// transport failed.
#[derive(Clone, Debug)]
pub enum Event {
    /// An INVITE whose SDP offered these payload types.
    Invite { offered: Vec<u8> },
    /// An ACK; `from_peer` tells whether it came from this call's remote address.
    Ack { from_peer: bool },
    /// The ACK deadline passed.
    AckTimeout,
    /// The next packet is due.
    Tick,
    /// The transport reported a hard send failure.
    SendFailed,
    /// The server is shutting down.
    Shutdown,
}

/// What the session asks its host to send.
#[derive(Clone, Debug)]
pub enum Action {
    Nothing,
    /// A 200 OK whose SDP answer selects this payload type.
    Answer { payload_type: u8 },
    /// A client-error response: no payload type in common.
    Reject,
    /// One RTP packet, header and payload.
    SendRtp { packet: Vec<u8> },
    /// The BYE that ends the call.
    SendBye,
}

pub ghost enum EventView {
    Invite { offered: Seq<u8> },
    Ack { from_peer: bool },
    AckTimeout,
    Tick,
    SendFailed,
    Shutdown,
}

pub ghost enum ActionView {
    Nothing,
    Answer { payload_type: u8 },
    Reject,
    SendRtp { packet: Seq<u8> },
    SendBye,
}

impl View for Event {
    type V = EventView;

    open spec fn view(&self) -> EventView {
        match self {
            Event::Invite { offered } => EventView::Invite { offered: offered@ },
            Event::Ack { from_peer } => EventView::Ack { from_peer: *from_peer },
            Event::AckTimeout => EventView::AckTimeout,
            Event::Tick => EventView::Tick,
            Event::SendFailed => EventView::SendFailed,
            Event::Shutdown => EventView::Shutdown,
        }
    }
}

impl View for Action {
    type V = ActionView;

    open spec fn view(&self) -> ActionView {
        match self {
            Action::Nothing => ActionView::Nothing,
            Action::Answer { payload_type } => ActionView::Answer { payload_type: *payload_type },
            Action::Reject => ActionView::Reject,
            Action::SendRtp { packet } => ActionView::SendRtp { packet: packet@ },
            Action::SendBye => ActionView::SendBye,
        }
    }
}

/// The session after one event, and what it sends. Anything not listed
/// leaves the session as it is and sends nothing.
pub open spec fn step_spec(s: CallSession, e: EventView, prefs: Seq<u8>, audio: Seq<u8>) -> (CallSession, ActionView) {
    match (s.phase, e) {
        (Phase::AwaitingInvite, EventView::Invite { offered }) => match negotiated(prefs, offered) {
            Some(pt) => (CallSession { phase: Phase::OfferSent, payload_type: pt, ..s }, ActionView::Answer { payload_type: pt }),
            None => (CallSession { phase: Phase::Terminated, ..s }, ActionView::Reject),
        },
        (Phase::OfferSent, EventView::Ack { from_peer: true }) => (CallSession { phase: Phase::Confirmed, ..s }, ActionView::Nothing),
        (Phase::OfferSent, EventView::AckTimeout) => (CallSession { phase: Phase::Terminated, ..s }, ActionView::Nothing),
        (Phase::Confirmed, EventView::Tick) | (Phase::Streaming, EventView::Tick) =>
            if s.next_chunk < chunk_count(audio.len()) {
                (
                    CallSession {
                        phase: Phase::Streaming,
                        counters: counters_after(s.counters, 1),
                        next_chunk: (s.next_chunk + 1) as usize,
                        ..s
                    },
                    ActionView::SendRtp {
                        packet: packet_bytes(chunk_of(audio, s.next_chunk as nat), s.counters, s.ssrc, s.payload_type),
                    },
                )
            } else {
                (CallSession { phase: Phase::Terminated, ..s }, ActionView::SendBye)
            },
        (Phase::Streaming, EventView::SendFailed) => (CallSession { phase: Phase::Terminated, ..s }, ActionView::SendBye),
        (Phase::Confirmed, EventView::Shutdown) | (Phase::Streaming, EventView::Shutdown) =>
            (CallSession { phase: Phase::Terminated, ..s }, ActionView::SendBye),
        (Phase::AwaitingInvite, EventView::Shutdown) | (Phase::OfferSent, EventView::Shutdown) =>
            (CallSession { phase: Phase::Terminated, ..s }, ActionView::Nothing),
        _ => (s, ActionView::Nothing),
    }
}

impl CallSession {
    /// The session's counters are the start counters advanced once per
    /// packet sent, and nothing was sent before the call was confirmed.
    pub open spec fn wf(&self) -> bool {
        &&& self.counters == counters_after(self.start, self.next_chunk as nat)
        &&& (self.phase == Phase::AwaitingInvite || self.phase == Phase::OfferSent) ==> self.next_chunk == 0
    }

    /// A fresh session waiting for its INVITE.
    pub fn new(ssrc: u32, start: RtpCounters) -> (r: Self)
        ensures
            r.wf(),
            r == (CallSession { phase: Phase::AwaitingInvite, ssrc, payload_type: 0, start, counters: start, next_chunk: 0 }),
    {
        proof {
            assert((start.sequence_number as int) % 0x1_0000 == start.sequence_number);
            assert((start.timestamp as int) % 0x1_0000_0000 == start.timestamp);
        }
        CallSession { phase: Phase::AwaitingInvite, ssrc, payload_type: 0, start, counters: start, next_chunk: 0 }
    }

    /// Feeds one event to the session and returns what to send.
    pub fn step(&mut self, event: &Event, prefs: &[u8], audio: &[u8]) -> (r: Action)
        requires
            old(self).wf(),
        ensures
            final(self).wf(),
            (*final(self), r@) == step_spec(*old(self), event@, prefs@, audio@),
    {
        match (self.phase, event) {
            (Phase::AwaitingInvite, Event::Invite { offered }) => match negotiate(prefs, offered.as_slice()) {
                Some(pt) => {
                    self.phase = Phase::OfferSent;
                    self.payload_type = pt;
                    Action::Answer { payload_type: pt }
                },
                None => {
                    self.phase = Phase::Terminated;
                    Action::Reject
                },
            },
            (Phase::OfferSent, Event::Ack { from_peer: true }) => {
                self.phase = Phase::Confirmed;
                Action::Nothing
            },
            (Phase::OfferSent, Event::AckTimeout) => {
                self.phase = Phase::Terminated;
                Action::Nothing
            },
            (Phase::Confirmed, Event::Tick) | (Phase::Streaming, Event::Tick) => {
                let remaining = audio.len() / crate::rtp::FRAME_BYTES
                    + if audio.len() % crate::rtp::FRAME_BYTES == 0 { 0 } else { 1 };
                assert(remaining == chunk_count(audio@.len()));
                if self.next_chunk < remaining {
                    let packet = frame_chunk(audio, self.next_chunk, self.counters, self.ssrc, self.payload_type);
                    proof { crate::rtp::lemma_counters_after_step(self.start, self.next_chunk as nat); }
                    self.phase = Phase::Streaming;
                    self.counters = self.counters.advance();
                    self.next_chunk = self.next_chunk + 1;
                    Action::SendRtp { packet }
                } else {
                    self.phase = Phase::Terminated;
                    Action::SendBye
                }
            },
            (Phase::Streaming, Event::SendFailed) => {
                self.phase = Phase::Terminated;
                Action::SendBye
            },
            (Phase::Confirmed, Event::Shutdown) | (Phase::Streaming, Event::Shutdown) => {
                self.phase = Phase::Terminated;
                Action::SendBye
            },
            (Phase::AwaitingInvite, Event::Shutdown) | (Phase::OfferSent, Event::Shutdown) => {
                self.phase = Phase::Terminated;
                Action::Nothing
            },
            _ => Action::Nothing,
        }
    }

    pub fn is_terminated(&self) -> (r: bool)
        ensures
            r == (self.phase == Phase::Terminated),
    {
        self.phase == Phase::Terminated
    }

    /// Whether the session waits for its ACK, so that its host must keep a deadline.
    pub fn awaits_ack(&self) -> (r: bool)
        ensures
            r == (self.phase == Phase::OfferSent),
    {
        self.phase == Phase::OfferSent
    }

    /// Whether the session streams, so that its host must pace ticks.
    pub fn is_streaming(&self) -> (r: bool)
        ensures
            r == (self.phase == Phase::Confirmed || self.phase == Phase::Streaming),
    {
        self.phase == Phase::Confirmed || self.phase == Phase::Streaming
    }
}

/// The session after a sequence of events, and everything it sent, in order.
pub open spec fn run(s: CallSession, evs: Seq<EventView>, prefs: Seq<u8>, audio: Seq<u8>) -> (CallSession, Seq<ActionView>)
    decreases evs.len(),
{
    if evs.len() == 0 {
        (s, seq![])
    } else {
        let (s1, a) = step_spec(s, evs[0], prefs, audio);
        let (s2, rest) = run(s1, evs.drop_first(), prefs, audio);
        (s2, seq![a] + rest)
    }
}

/// Whether an action puts media or a BYE on the wire.
pub open spec fn is_media_or_bye(a: ActionView) -> bool {
    a is SendRtp || a is SendBye
}

/// How many BYEs a sequence of actions holds.
pub open spec fn bye_count(acts: Seq<ActionView>) -> nat
    decreases acts.len(),
{
    if acts.len() == 0 {
        0
    } else {
        (if acts[0] is SendBye { 1nat } else { 0nat }) + bye_count(acts.drop_first())
    }
}

/// `n` packet-due ticks.
pub open spec fn ticks(n: nat) -> Seq<EventView> {
    Seq::new(n, |i: int| EventView::Tick)
}

/// A terminated session stays as it is and sends nothing, whatever comes in.
pub proof fn lemma_terminated_absorbs(s: CallSession, evs: Seq<EventView>, prefs: Seq<u8>, audio: Seq<u8>)
    requires
        s.phase == Phase::Terminated,
    ensures
        run(s, evs, prefs, audio).0 == s,
        forall|k: int| 0 <= k < evs.len() ==> #[trigger] run(s, evs, prefs, audio).1[k] == ActionView::Nothing,
        run(s, evs, prefs, audio).1.len() == evs.len(),
        bye_count(run(s, evs, prefs, audio).1) == 0,
    decreases evs.len(),
{
    if evs.len() > 0 {
        lemma_terminated_absorbs(s, evs.drop_first(), prefs, audio);
        let acts = run(s, evs, prefs, audio).1;
        assert(acts.drop_first() == run(s, evs.drop_first(), prefs, audio).1);
        assert forall|k: int| 0 <= k < evs.len() implies #[trigger] acts[k] == ActionView::Nothing by {
            if k > 0 {
                assert(acts[k] == acts.drop_first()[k - 1]);
            }
        }
    }
}

/// When no ACK from the peer arrives before the ACK deadline passes, the
/// session sends no RTP packet and no BYE, then or later.
pub proof fn lemma_no_ack_no_media(s: CallSession, evs: Seq<EventView>, j: int, prefs: Seq<u8>, audio: Seq<u8>)
    requires
        s.phase == Phase::OfferSent,
        0 <= j < evs.len(),
        evs[j] == EventView::AckTimeout,
        forall|i: int| 0 <= i < j ==> evs[i] != (EventView::Ack { from_peer: true }),
    ensures
        forall|k: int| 0 <= k < run(s, evs, prefs, audio).1.len() ==> !is_media_or_bye(
            #[trigger] run(s, evs, prefs, audio).1[k],
        ),
    decreases evs.len(),
{
    let (s1, a) = step_spec(s, evs[0], prefs, audio);
    let rest = evs.drop_first();
    let acts = run(s, evs, prefs, audio).1;
    assert(acts.drop_first() == run(s1, rest, prefs, audio).1);
    assert(a == ActionView::Nothing);
    if s1.phase == Phase::Terminated {
        lemma_terminated_absorbs(s1, rest, prefs, audio);
    } else {
        assert(j > 0);
        assert forall|i: int| 0 <= i < j - 1 implies rest[i] != (EventView::Ack { from_peer: true }) by {
            assert(rest[i] == evs[i + 1]);
        }
        lemma_no_ack_no_media(s1, rest, j - 1, prefs, audio);
    }
    assert forall|k: int| 0 <= k < acts.len() implies !is_media_or_bye(#[trigger] acts[k]) by {
        if k > 0 {
            assert(acts[k] == acts.drop_first()[k - 1]);
        }
    }
}

/// A confirmed or streaming session has sent exactly one BYE once it is
/// terminated, and none before, whichever events (a send failure included)
/// brought it there.
pub proof fn lemma_bye_once(s: CallSession, evs: Seq<EventView>, prefs: Seq<u8>, audio: Seq<u8>)
    requires
        s.phase == Phase::Confirmed || s.phase == Phase::Streaming,
    ensures
        bye_count(run(s, evs, prefs, audio).1) == if run(s, evs, prefs, audio).0.phase == Phase::Terminated {
            1nat
        } else {
            0nat
        },
        run(s, evs, prefs, audio).0.phase == Phase::Confirmed || run(s, evs, prefs, audio).0.phase
            == Phase::Streaming || run(s, evs, prefs, audio).0.phase == Phase::Terminated,
    decreases evs.len(),
{
    if evs.len() > 0 {
        let (s1, a) = step_spec(s, evs[0], prefs, audio);
        let rest = evs.drop_first();
        let acts = run(s, evs, prefs, audio).1;
        assert(acts.drop_first() == run(s1, rest, prefs, audio).1);
        if s1.phase == Phase::Terminated {
            lemma_terminated_absorbs(s1, rest, prefs, audio);
            assert(a is SendBye);
        } else {
            lemma_bye_once(s1, rest, prefs, audio);
            assert(!(a is SendBye));
        }
    }
}

/// Counters advanced `a` packets and then `b` more are the counters
/// advanced `a + b` packets.
pub proof fn lemma_counters_after_add(c: RtpCounters, a: nat, b: nat)
    ensures
        counters_after(counters_after(c, a), b) == counters_after(c, a + b),
{
    let x: int = c.sequence_number + a;
    let t: int = c.timestamp + 160 * a;
    let d: int = 160 * (b as int);
    assert(160 * (a + b) == 160 * a + d) by (nonlinear_arith)
        requires
            d == 160 * (b as int),
    ;
    assert(((x % 0x1_0000) + b) % 0x1_0000 == (x + b) % 0x1_0000) by {
        vstd::arithmetic::div_mod::lemma_add_mod_noop(x, b as int, 0x1_0000);
        vstd::arithmetic::div_mod::lemma_mod_twice(x, 0x1_0000);
        vstd::arithmetic::div_mod::lemma_add_mod_noop(x % 0x1_0000, b as int, 0x1_0000);
    }
    assert(((t % 0x1_0000_0000) + d) % 0x1_0000_0000 == (t + d) % 0x1_0000_0000) by {
        vstd::arithmetic::div_mod::lemma_mod_twice(t, 0x1_0000_0000);
        vstd::arithmetic::div_mod::lemma_add_mod_noop(t % 0x1_0000_0000, d, 0x1_0000_0000);
        vstd::arithmetic::div_mod::lemma_add_mod_noop(t, d, 0x1_0000_0000);
    }
}

/// While audio remains, each tick sends the next chunk, and the `k`th packet
/// of a run carries the sequence number and timestamp advanced `k` times:
/// `start + k` modulo 2^16 and `t0 + 160 * k` modulo 2^32, whatever the
/// chunks' sizes.
pub proof fn lemma_stream_numbering(s: CallSession, n: nat, prefs: Seq<u8>, audio: Seq<u8>)
    requires
        s.phase == Phase::Confirmed || s.phase == Phase::Streaming,
        s.next_chunk + n <= chunk_count(audio.len()),
        audio.len() <= usize::MAX,
    ensures
        run(s, ticks(n), prefs, audio).1.len() == n,
        forall|k: int|
            0 <= k < n ==> #[trigger] run(s, ticks(n), prefs, audio).1[k] == (ActionView::SendRtp {
                packet: packet_bytes(
                    chunk_of(audio, (s.next_chunk + k) as nat),
                    counters_after(s.counters, k as nat),
                    s.ssrc,
                    s.payload_type,
                ),
            }),
    decreases n,
{
    if n > 0 {
        let (s1, a) = step_spec(s, EventView::Tick, prefs, audio);
        assert(chunk_count(audio.len()) <= audio.len());
        assert(s1.next_chunk == s.next_chunk + 1);
        assert(ticks(n)[0] == EventView::Tick);
        assert(ticks(n).drop_first() == ticks((n - 1) as nat));
        lemma_stream_numbering(s1, (n - 1) as nat, prefs, audio);
        let acts = run(s, ticks(n), prefs, audio).1;
        assert(acts.drop_first() == run(s1, ticks((n - 1) as nat), prefs, audio).1);
        assert forall|k: int| 0 <= k < n implies #[trigger] acts[k] == (ActionView::SendRtp {
            packet: packet_bytes(
                chunk_of(audio, (s.next_chunk + k) as nat),
                counters_after(s.counters, k as nat),
                s.ssrc,
                s.payload_type,
            ),
        }) by {
            if k > 0 {
                assert(acts[k] == acts.drop_first()[k - 1]);
                lemma_counters_after_add(s.counters, 1, (k - 1) as nat);
            } else {
                assert((s.counters.sequence_number as int) % 0x1_0000 == s.counters.sequence_number);
                assert((s.counters.timestamp as int) % 0x1_0000_0000 == s.counters.timestamp);
            }
        }
    }
}

/// An INVITE with no payload type in common is answered with a client
/// error and ends the session at once: no ACK wait is armed, and no RTP
/// packet or BYE is ever sent, whatever comes after.
pub proof fn lemma_reject_is_final(
    s: CallSession,
    offered: Seq<u8>,
    evs: Seq<EventView>,
    prefs: Seq<u8>,
    audio: Seq<u8>,
)
    requires
        s.phase == Phase::AwaitingInvite,
        negotiated(prefs, offered) is None,
    ensures
        ({
            let (last, acts) = run(s, seq![EventView::Invite { offered }] + evs, prefs, audio);
            &&& acts[0] == ActionView::Reject
            &&& last.phase == Phase::Terminated
            &&& acts.len() == evs.len() + 1
            &&& forall|k: int| 1 <= k < acts.len() ==> #[trigger] acts[k] == ActionView::Nothing
        }),
{
    let all = seq![EventView::Invite { offered }] + evs;
    assert(all[0] == EventView::Invite { offered });
    assert(all.drop_first() == evs);
    let (s1, a) = step_spec(s, all[0], prefs, audio);
    lemma_terminated_absorbs(s1, evs, prefs, audio);
    let acts = run(s, all, prefs, audio).1;
    assert(acts.drop_first() == run(s1, evs, prefs, audio).1);
    assert forall|k: int| 1 <= k < acts.len() implies #[trigger] acts[k] == ActionView::Nothing by {
        assert(acts[k] == acts.drop_first()[k - 1]);
    }
}

/// A confirmed or streaming session that gets one tick per remaining chunk
/// and one more has sent its BYE, exactly once, and is terminated.
pub proof fn lemma_stream_ends(s: CallSession, prefs: Seq<u8>, audio: Seq<u8>)
    requires
        s.phase == Phase::Confirmed || s.phase == Phase::Streaming,
        s.next_chunk <= chunk_count(audio.len()),
        audio.len() <= usize::MAX,
    ensures
        run(s, ticks((chunk_count(audio.len()) - s.next_chunk + 1) as nat), prefs, audio).0.phase == Phase::Terminated,
        bye_count(run(s, ticks((chunk_count(audio.len()) - s.next_chunk + 1) as nat), prefs, audio).1) == 1,
    decreases chunk_count(audio.len()) - s.next_chunk,
{
    let n = (chunk_count(audio.len()) - s.next_chunk + 1) as nat;
    let (s1, a) = step_spec(s, EventView::Tick, prefs, audio);
    assert(ticks(n)[0] == EventView::Tick);
    assert(ticks(n).drop_first() == ticks((n - 1) as nat));
    assert(chunk_count(audio.len()) <= audio.len());
    if s.next_chunk < chunk_count(audio.len()) {
        lemma_stream_ends(s1, prefs, audio);
    } else {
        lemma_terminated_absorbs(s1, ticks((n - 1) as nat), prefs, audio);
    }
    lemma_bye_once(s, ticks(n), prefs, audio);
}

} // verus!
