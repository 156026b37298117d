use voicebbs::endpoint::{drive, on_datagram, Dispatch, Emit, EndpointConfig};
use voicebbs::router::{PeerAddr, Route, SessionRouter};
use voicebbs::rtp::RtpCounters;
use voicebbs::session::{Action, CallSession, Event, Phase};

const PREFS: [u8; 2] = [0, 8];

fn invite(call_id: &str, types: &str) -> Vec<u8> {
    format!(
        "INVITE sip:bbs@example.org SIP/2.0\r\nVia: SIP/2.0/UDP 10.0.0.2\r\nFrom: <sip:a@x>\r\nTo: <sip:bbs@x>\r\nCall-ID: {}\r\nCSeq: 1 INVITE\r\n\r\nv=0\r\nm=audio 8000 RTP/AVP {}\r\n",
        call_id, types
    )
    .into_bytes()
}

fn ack(call_id: &str) -> Vec<u8> {
    format!("ACK sip:bbs@example.org SIP/2.0\r\nCall-ID: {}\r\nCSeq: 1 ACK\r\n\r\n", call_id).into_bytes()
}

fn config() -> EndpointConfig {
    EndpointConfig { public_addr: b"155.138.203.121".to_vec(), media_port: 8000, preference: PREFS.to_vec() }
}

fn peer() -> PeerAddr {
    PeerAddr { ip: 0xffff_0a00_0002, port: 5060 }
}

fn confirmed(audio: &[u8]) -> CallSession {
    let mut s = CallSession::new(1, RtpCounters::new(0, 0));
    s.step(&Event::Invite { offered: vec![0, 8] }, &PREFS, audio);
    s.step(&Event::Ack { from_peer: true }, &PREFS, audio);
    s
}

#[test]
fn invite_answers_with_offered_type() {
    let mut s = CallSession::new(1, RtpCounters::new(0, 0));
    let a = s.step(&Event::Invite { offered: vec![8, 3] }, &PREFS, &[]);
    assert!(matches!(a, Action::Answer { payload_type: 8 }));
    assert_eq!(s.phase, Phase::OfferSent);
}

#[test]
fn ack_from_elsewhere_is_ignored() {
    let mut s = CallSession::new(1, RtpCounters::new(0, 0));
    s.step(&Event::Invite { offered: vec![0] }, &PREFS, &[]);
    assert!(matches!(s.step(&Event::Ack { from_peer: false }, &PREFS, &[]), Action::Nothing));
    assert_eq!(s.phase, Phase::OfferSent);
}

#[test]
fn ack_timeout_sends_nothing() {
    let audio = vec![1u8; 480];
    let mut s = CallSession::new(1, RtpCounters::new(0, 0));
    s.step(&Event::Invite { offered: vec![0] }, &PREFS, &audio);
    s.step(&Event::Ack { from_peer: false }, &PREFS, &audio);
    assert!(matches!(s.step(&Event::AckTimeout, &PREFS, &audio), Action::Nothing));
    assert_eq!(s.phase, Phase::Terminated);
    for e in [Event::Ack { from_peer: true }, Event::Tick, Event::SendFailed, Event::Shutdown] {
        assert!(matches!(s.step(&e, &PREFS, &audio), Action::Nothing));
    }
}

#[test]
fn bye_once_after_send_failure() {
    let audio = vec![1u8; 480];
    let mut s = confirmed(&audio);
    assert!(matches!(s.step(&Event::Tick, &PREFS, &audio), Action::SendRtp { .. }));
    assert!(matches!(s.step(&Event::SendFailed, &PREFS, &audio), Action::SendBye));
    let mut byes = 1;
    for _ in 0..5 {
        if matches!(s.step(&Event::Tick, &PREFS, &audio), Action::SendBye) {
            byes += 1;
        }
    }
    assert_eq!(byes, 1);
}

#[test]
fn stream_numbers_and_ends_with_bye() {
    let audio = vec![1u8; 330];
    let mut s = confirmed(&audio);
    let mut seqs = Vec::new();
    let mut stamps = Vec::new();
    let mut byes = 0;
    for _ in 0..6 {
        match s.step(&Event::Tick, &PREFS, &audio) {
            Action::SendRtp { packet } => {
                seqs.push(u16::from_be_bytes([packet[2], packet[3]]));
                stamps.push(u32::from_be_bytes([packet[4], packet[5], packet[6], packet[7]]));
            }
            Action::SendBye => byes += 1,
            _ => {}
        }
    }
    assert_eq!(seqs, vec![0, 1, 2]);
    assert_eq!(stamps, vec![0, 160, 320]);
    assert_eq!(byes, 1);
}

#[test]
fn two_call_ids_two_sessions() {
    let mut r = SessionRouter::new(0x12345678);
    let a = r.lookup_or_create(peer(), b"one");
    let b = r.lookup_or_create(peer(), b"two");
    assert_eq!(a, Route::Created(0));
    assert_eq!(b, Route::Created(1));
    assert_eq!(r.lookup_or_create(peer(), b"one"), Route::Existing(0));
    assert_ne!(r.sessions[0].ssrc, r.sessions[1].ssrc);
    let audio = vec![0u8; 480];
    let cfg = config();
    for i in 0..2 {
        r.step_session(i, &Event::Invite { offered: vec![0] }, &PREFS, &audio);
        r.step_session(i, &Event::Ack { from_peer: true }, &PREFS, &audio);
    }
    drive(&mut r, 0, &Event::Tick, &cfg, &audio);
    drive(&mut r, 0, &Event::Tick, &cfg, &audio);
    assert_eq!(r.sessions[0].counters, RtpCounters::new(2, 320));
    assert_eq!(r.sessions[1].counters, RtpCounters::new(0, 0));
}

#[test]
fn end_to_end_pcmu_call() {
    let mut r = SessionRouter::new(0x12345678);
    let cfg = config();
    let audio = vec![0x55u8; 320];
    let d = on_datagram(&mut r, &cfg, peer(), &invite("call-1", "0 8"), &audio);
    let i = match d {
        Dispatch::AwaitAck { session, reply } => {
            let text = String::from_utf8(reply).unwrap();
            assert!(text.starts_with("SIP/2.0 200 OK\r\n"));
            assert!(text.contains("m=audio 8000 RTP/AVP 0\r\na=rtpmap:0 PCMU/8000\r\n"));
            session
        }
        other => panic!("unexpected {:?}", other),
    };
    assert!(matches!(on_datagram(&mut r, &cfg, peer(), &ack("call-1"), &audio), Dispatch::StartStream { session } if session == i));
    let mut packets = Vec::new();
    let mut byes = Vec::new();
    for _ in 0..4 {
        match drive(&mut r, i, &Event::Tick, &cfg, &audio) {
            Emit::Packet(p) => packets.push(p),
            Emit::Bye(b) => byes.push(b),
            Emit::Idle => {}
        }
    }
    assert_eq!(packets.len(), 2);
    assert_eq!(&packets[0][0..8], &[0x80, 0x00, 0, 0, 0, 0, 0, 0]);
    assert_eq!(packets[0].len(), 172);
    assert_eq!(byes.len(), 1);
    assert_eq!(byes[0], b"BYE sip:voicebbs@client SIP/2.0\r\nCall-ID: call-1\r\n\r\n".to_vec());
}

#[test]
fn end_to_end_no_common_codec() {
    let mut r = SessionRouter::new(1);
    let cfg = config();
    let audio = vec![0u8; 320];
    let d = on_datagram(&mut r, &cfg, peer(), &invite("call-2", "18 101"), &audio);
    let i = match d {
        Dispatch::Rejected { session, reply } => {
            assert!(String::from_utf8(reply).unwrap().starts_with("SIP/2.0 488 "));
            session
        }
        other => panic!("unexpected {:?}", other),
    };
    assert!(!r.sessions[i].awaits_ack());
    assert!(matches!(on_datagram(&mut r, &cfg, peer(), &ack("call-2"), &audio), Dispatch::Dropped));
    for _ in 0..3 {
        assert!(matches!(drive(&mut r, i, &Event::Tick, &cfg, &audio), Emit::Idle));
    }
}

#[test]
fn malformed_and_duplicate_datagrams_dropped() {
    let mut r = SessionRouter::new(1);
    let cfg = config();
    assert!(matches!(on_datagram(&mut r, &cfg, peer(), b"garbage", &[]), Dispatch::Dropped));
    assert!(matches!(on_datagram(&mut r, &cfg, peer(), &invite("c", "0"), &[]), Dispatch::AwaitAck { .. }));
    assert!(matches!(on_datagram(&mut r, &cfg, peer(), &invite("c", "0"), &[]), Dispatch::Dropped));
    assert_eq!(r.len(), 1);
}

#[test]
fn ack_from_other_address_does_not_confirm() {
    let mut r = SessionRouter::new(1);
    let cfg = config();
    on_datagram(&mut r, &cfg, peer(), &invite("c", "0"), &[]);
    let other = PeerAddr { ip: 0xffff_0a00_0009, port: 5060 };
    assert!(matches!(on_datagram(&mut r, &cfg, other, &ack("c"), &[]), Dispatch::Dropped));
    assert!(r.sessions[0].awaits_ack());
}
