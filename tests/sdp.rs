use voicebbs::sdp::{negotiate, offered_payload_types, render_answer, PCMA, PCMU};

#[test]
fn negotiate_prefers_pcmu() {
    assert_eq!(negotiate(&[PCMU, PCMA], &[0, 8]), Some(0));
    assert_eq!(negotiate(&[PCMU, PCMA], &[8, 0]), Some(0));
}

#[test]
fn negotiate_falls_back_to_pcma() {
    assert_eq!(negotiate(&[PCMU, PCMA], &[8, 101]), Some(8));
}

#[test]
fn negotiate_none_in_common() {
    assert_eq!(negotiate(&[PCMU, PCMA], &[18, 101]), None);
    assert_eq!(negotiate(&[PCMU, PCMA], &[]), None);
}

#[test]
fn negotiate_ignores_unsupported_preferences() {
    assert_eq!(negotiate(&[18, PCMA], &[18, 8]), Some(8));
}

#[test]
fn offered_types_from_media_line() {
    let body = b"v=0\r\no=- 1 1 IN IP4 10.0.0.1\r\nm=audio 8000 RTP/AVP 0 8 101\r\na=rtpmap:0 PCMU/8000\r\n";
    assert_eq!(offered_payload_types(body), vec![0, 8, 101]);
}

#[test]
fn offered_types_without_media_line() {
    assert!(offered_payload_types(b"v=0\r\ns=x\r\n").is_empty());
}

#[test]
fn answer_text_is_exact() {
    let sdp = render_answer(b"155.138.203.121", 8000, 8);
    let expected = "v=0\r\no=- 0 0 IN IP4 155.138.203.121\r\ns=VoiceBBS\r\nc=IN IP4 155.138.203.121\r\nt=0 0\r\nm=audio 8000 RTP/AVP 8\r\na=rtpmap:8 PCMA/8000\r\n";
    assert_eq!(String::from_utf8(sdp).unwrap(), expected);
}
