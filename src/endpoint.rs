use vstd::prelude::*;

use crate::router::{key_is, PeerAddr, Route, SessionRouter};
use crate::sdp::{answer_text, offered_payload_types, offered_types, render_answer};
use crate::session::{step_spec, Action, ActionView, Event, EventView, Phase};
use crate::sip::{
    first_named, ok_response, parse, reject_response, render_bye, render_ok_with_sdp, render_reject, bye_request,
    Method, SipMessage, StartView,
};
use vstd::string::StringSliceAdditionalSpecFns;

verus! {

/// What the endpoint advertises and prefers.
pub struct EndpointConfig {
    /// The address put in SDP answers.
    pub public_addr: Vec<u8>,
    /// The media port put in SDP answers.
    pub media_port: u16,
    /// Payload types in order of preference.
    pub preference: Vec<u8>,
}

/// What the host does with one incoming datagram.
#[derive(Debug)]
pub enum Dispatch {
    /// Nothing to send: unparsable, unknown, a duplicate, or for a finished call.
    Dropped,
    /// Send `reply` back; the session at `session` now waits for its ACK.
    AwaitAck { session: usize, reply: Vec<u8> },
    /// Send `reply` back; the session at `session` has ended.
    Rejected { session: usize, reply: Vec<u8> },
    /// The session at `session` is confirmed: start its stream.
    StartStream { session: usize },
}

/// Routes one datagram from `peer`: a new INVITE makes a session and is
/// answered, an ACK confirms its session, and everything else is dropped
/// without changing the table's keys.
pub fn on_datagram(router: &mut SessionRouter, config: &EndpointConfig, peer: PeerAddr, data: &[u8], audio: &[u8]) -> (r: Dispatch)
    requires
        old(router).wf(),
    ensures
        final(router).wf(),
        final(router).ssrc_base == old(router).ssrc_base,
        forall|j: int| 0 <= j < old(router).sessions@.len() && !(r matches Dispatch::StartStream { session } && j == session)
            ==> #[trigger] final(router).sessions@[j] == old(router).sessions@[j],
        final(router).keys@.len() == old(router).keys@.len() || r is AwaitAck || r is Rejected,
        crate::sip::start_of(crate::sip::first_line(data@)) is None ==> r is Dropped && final(router).keys@
            == old(router).keys@ && final(router).sessions@ == old(router).sessions@,
        forall|m: SipMessage|
            #![trigger crate::sip::parse_ok(data@, m)]
            crate::sip::parse_ok(data@, m) && (m.start@ matches StartView::Request { method: Method::Invite, .. })
                && old(router).next_serial < u32::MAX
                && (first_named(m.headers@, "Call-ID".spec_bytes(), 0) matches Some(c)
                && forall|j: int| 0 <= j < old(router).keys@.len() ==> !key_is(#[trigger] old(router).keys@[j], peer, m.headers@[c].value@))
                ==> (r is AwaitAck || r is Rejected),
        match r {
            Dispatch::AwaitAck { session, reply } => {
                &&& session == old(router).keys@.len()
                &&& final(router).sessions@[session as int].phase == Phase::OfferSent
                &&& exists|m: SipMessage| {
                    &&& #[trigger] crate::sip::parse_ok(data@, m)
                    &&& m.start@ matches StartView::Request { method: Method::Invite, .. }
                    &&& crate::sdp::negotiated(config.preference@, offered_types(m.body@)) == Some(
                        final(router).sessions@[session as int].payload_type,
                    )
                    &&& reply@ == ok_response(
                        m.headers@,
                        answer_text(config.public_addr@, config.media_port, final(router).sessions@[session as int].payload_type),
                    )
                }
            },
            Dispatch::Rejected { session, reply } => {
                &&& session == old(router).keys@.len()
                &&& final(router).sessions@[session as int].phase == Phase::Terminated
                &&& exists|m: SipMessage| {
                    &&& #[trigger] crate::sip::parse_ok(data@, m)
                    &&& crate::sdp::negotiated(config.preference@, offered_types(m.body@)) is None
                    &&& reply@ == reject_response(m.headers@)
                }
            },
            Dispatch::StartStream { session } => {
                &&& session < old(router).sessions@.len()
                &&& old(router).sessions@[session as int].phase == Phase::OfferSent
                &&& final(router).sessions@[session as int].phase == Phase::Confirmed
                &&& final(router).sessions@ == old(router).sessions@.update(session as int, final(router).sessions@[session as int])
            },
            Dispatch::Dropped => final(router).sessions@.len() == old(router).sessions@.len()
                || final(router).sessions@.last().phase == Phase::Terminated,
        },
{
    let msg = match parse(data) {
        Ok(m) => m,
        Err(_) => return Dispatch::Dropped,
    };
    proof {
        assert forall|m: SipMessage| #[trigger] crate::sip::parse_ok(data@, m) implies first_named(m.headers@, "Call-ID".spec_bytes(), 0)
            == first_named(msg.headers@, "Call-ID".spec_bytes(), 0) && (first_named(m.headers@, "Call-ID".spec_bytes(), 0) matches Some(c)
            ==> m.headers@[c].value@ == msg.headers@[c].value@) && m.start@ == msg.start@ by {
            crate::sip::lemma_first_named_same_lines(msg.headers@, m.headers@, crate::sip::field_lines(data@, crate::sip::fields_start(data@)), "Call-ID".spec_bytes(), 0);
        }
    }
    let call_id = match msg.call_id() {
        Some(c) => c,
        None => return Dispatch::Dropped,
    };
    if msg.is_request(Method::Invite) {
        match router.lookup_or_create(peer, call_id.as_slice()) {
            Route::Created(i) => {
                let offered = offered_payload_types(msg.body.as_slice());
                let ev = Event::Invite { offered };
                let act = router.step_session(i, &ev, config.preference.as_slice(), audio);
                match act {
                    Action::Answer { payload_type } => {
                        assert(crate::sdp::is_supported(payload_type)) by {
                            crate::sdp::lemma_answer_in_offer(config.preference@, offered_types(msg.body@));
                        }
                        let sdp = render_answer(config.public_addr.as_slice(), config.media_port, payload_type);
                        let reply = render_ok_with_sdp(&msg, sdp.as_slice());
                        assert(crate::sip::parse_ok(data@, msg));
                        Dispatch::AwaitAck { session: i, reply }
                    },
                    Action::Reject => {
                        let reply = render_reject(&msg);
                        assert(crate::sip::parse_ok(data@, msg));
                        Dispatch::Rejected { session: i, reply }
                    },
                    _ => Dispatch::Dropped,
                }
            },
            _ => Dispatch::Dropped,
        }
    } else if msg.is_request(Method::Ack) {
        match router.find(peer, call_id.as_slice()) {
            Some(i) => {
                if router.sessions[i].awaits_ack() {
                    router.step_session(i, &Event::Ack { from_peer: true }, config.preference.as_slice(), audio);
                    Dispatch::StartStream { session: i }
                } else {
                    Dispatch::Dropped
                }
            },
            None => Dispatch::Dropped,
        }
    } else {
        Dispatch::Dropped
    }
}

/// What a streaming session sends next.
#[derive(Debug)]
pub enum Emit {
    /// Nothing: the session is not streaming.
    Idle,
    /// One RTP packet.
    Packet(Vec<u8>),
    /// The BYE; the session has ended.
    Bye(Vec<u8>),
}

/// Feeds `event` (a tick, a send failure or a shutdown) to the session at
/// `i` and renders what it asks to send; a BYE goes to the session's Call-ID.
pub fn drive(router: &mut SessionRouter, i: usize, event: &Event, config: &EndpointConfig, audio: &[u8]) -> (r: Emit)
    requires
        old(router).wf(),
        i < old(router).sessions@.len(),
    ensures
        final(router).wf(),
        final(router).keys@ == old(router).keys@,
        final(router).sessions@ == old(router).sessions@.update(i as int, final(router).sessions@[i as int]),
        ({
            let (s, a) = step_spec(old(router).sessions@[i as int], event@, config.preference@, audio@);
            &&& final(router).sessions@[i as int] == s
            &&& match a {
                ActionView::SendRtp { packet } => r matches Emit::Packet(p) && p@ == packet,
                ActionView::SendBye => r matches Emit::Bye(b) && b@ == bye_request(old(router).keys@[i as int].call_id@),
                _ => r is Idle,
            }
        }),
{
    let act = router.step_session(i, event, config.preference.as_slice(), audio);
    match act {
        Action::SendRtp { packet } => Emit::Packet(packet),
        Action::SendBye => Emit::Bye(render_bye(router.keys[i].call_id.as_slice())),
        _ => Emit::Idle,
    }
}

} // verus!
