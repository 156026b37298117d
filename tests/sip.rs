use voicebbs::sip::{parse, render_bye, render_ok_with_sdp, render_reject, Method, SipError, StartLine};

const INVITE: &[u8] = b"INVITE sip:bbs@example.org SIP/2.0\r\nVia: SIP/2.0/UDP 10.0.0.2:5060;branch=z9hG4bK1\r\nfrom: <sip:a@x>;tag=1\r\nTo: <sip:bbs@example.org>\r\nCall-ID: abc@10.0.0.2\r\nCSeq: 1 INVITE\r\nbroken line\r\nContact: <sip:a@10.0.0.2>\r\nContent-Length: 4\r\n\r\nbody";

#[test]
fn parse_invite_request() {
    let m = parse(INVITE).unwrap();
    match &m.start {
        StartLine::Request { method, name, uri } => {
            assert_eq!(*method, Method::Invite);
            assert_eq!(name, b"INVITE");
            assert_eq!(uri, b"sip:bbs@example.org");
        }
        _ => panic!("not a request"),
    }
    assert_eq!(m.headers.len(), 7);
    assert_eq!(m.headers[1].name, b"from");
    assert_eq!(m.headers[1].value, b"<sip:a@x>;tag=1");
    assert_eq!(m.body, b"body");
}

#[test]
fn header_lookup_ignores_case() {
    let m = parse(INVITE).unwrap();
    assert_eq!(m.header_value("FROM").unwrap(), b"<sip:a@x>;tag=1");
    assert_eq!(m.call_id().unwrap(), b"abc@10.0.0.2");
    assert!(m.header_value("Expires").is_none());
}

#[test]
fn parse_status_line() {
    let m = parse(b"SIP/2.0 180 Ringing\r\nCall-ID: x\r\n\r\n").unwrap();
    assert!(matches!(m.start, StartLine::Status { code: 180 }));
}

#[test]
fn parse_other_method() {
    let m = parse(b"OPTIONS sip:x SIP/2.0\r\n\r\n").unwrap();
    assert!(matches!(m.start, StartLine::Request { method: Method::Other, .. }));
    assert!(m.headers.is_empty());
}

#[test]
fn parse_rejects_unclassifiable_first_line() {
    assert_eq!(parse(b"hello world\r\n\r\n").unwrap_err(), SipError::Malformed);
    assert_eq!(parse(b"").unwrap_err(), SipError::Malformed);
    assert_eq!(parse(b"INVITE sip:x SIP/3.0\r\n").unwrap_err(), SipError::Malformed);
}

#[test]
fn ok_echoes_dialog_headers_verbatim() {
    let m = parse(INVITE).unwrap();
    let out = String::from_utf8(render_ok_with_sdp(&m, b"v=0\r\n")).unwrap();
    let expected = "SIP/2.0 200 OK\r\nVia: SIP/2.0/UDP 10.0.0.2:5060;branch=z9hG4bK1\r\nfrom: <sip:a@x>;tag=1\r\nTo: <sip:bbs@example.org>\r\nCall-ID: abc@10.0.0.2\r\nCSeq: 1 INVITE\r\nContent-Type: application/sdp\r\nContent-Length: 5\r\n\r\nv=0\r\n";
    assert_eq!(out, expected);
}

#[test]
fn reject_is_client_error() {
    let m = parse(INVITE).unwrap();
    let out = String::from_utf8(render_reject(&m)).unwrap();
    assert!(out.starts_with("SIP/2.0 488 "));
    assert!(out.ends_with("CSeq: 1 INVITE\r\nContent-Length: 0\r\n\r\n"));
}

#[test]
fn bye_names_call() {
    assert_eq!(
        String::from_utf8(render_bye(b"abc")).unwrap(),
        "BYE sip:voicebbs@client SIP/2.0\r\nCall-ID: abc\r\n\r\n"
    );
}
