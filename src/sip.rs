use vstd::prelude::*;
use vstd::string::StringSliceAdditionalSpecFns;

use crate::text::{
    find_byte, find_byte_exec, find_crlf, find_crlf_exec, holds_at, holds_at_exec, lemma_find_crlf_bounds,
    parse_number, parse_number_exec, skip_blanks, skip_blanks_exec, crlf, decimal, eq_ignore_case,
    eq_ignore_case_exec, push_all, push_crlf, push_decimal, push_str,
};

verus! {

/// The methods this endpoint acts on; any other is `Other`.
#[derive(Clone, Copy, Debug, PartialEq, Eq, Structural)]
pub enum Method {
    Invite,
    Ack,
    Bye,
    Other,
}

/// The first line of a message.
#[derive(Clone, Debug)]
pub enum StartLine {
    /// `<name> <uri> SIP/2.0`; `name` is the method as written.
    Request { method: Method, name: Vec<u8>, uri: Vec<u8> },
    /// `SIP/2.0 <code> <reason>`.
    Status { code: u16 },
}

pub ghost enum StartView {
    Request { method: Method, name: Seq<u8>, uri: Seq<u8> },
    Status { code: u16 },
}

impl View for StartLine {
    type V = StartView;

    open spec fn view(&self) -> StartView {
        match self {
            StartLine::Request { method, name, uri } => StartView::Request { method: *method, name: name@, uri: uri@ },
            StartLine::Status { code } => StartView::Status { code: *code },
        }
    }
}

/// One header field: its name, its value without leading blanks, and the
/// line exactly as received, for echoing.
#[derive(Clone, Debug)]
pub struct Header {
    pub name: Vec<u8>,
    pub value: Vec<u8>,
    pub raw: Vec<u8>,
}

/// A parsed SIP message. Headers keep the order they came in.
#[derive(Clone, Debug)]
pub struct SipMessage {
    pub start: StartLine,
    pub headers: Vec<Header>,
    pub body: Vec<u8>,
}

#[derive(Clone, Copy, Debug, PartialEq, Eq, Structural)]
pub enum SipError {
    /// The first line is neither a request line nor a status line.
    Malformed,
}

pub open spec fn sip_version() -> Seq<u8> {
    "SIP/2.0".spec_bytes()
}

pub open spec fn method_of(name: Seq<u8>) -> Method {
    if name == "INVITE".spec_bytes() {
        Method::Invite
    } else if name == "ACK".spec_bytes() {
        Method::Ack
    } else if name == "BYE".spec_bytes() {
        Method::Bye
    } else {
        Method::Other
    }
}

/// How a first line reads: a status line `SIP/2.0 <3 digits>` followed by
/// the end or a space, or a request line of a method, a URI and the version
/// separated by single spaces.
pub open spec fn start_of(line: Seq<u8>) -> Option<StartView> {
    let prefix = "SIP/2.0 ".spec_bytes();
    if holds_at(line, 0, prefix) {
        let p = prefix.len() as int;
        if p + 3 <= line.len() && (p + 3 == line.len() || line[p + 3] == 32) {
            match parse_number(line.subrange(p, p + 3), 999) {
                Some(code) => if code >= 100 { Some(StartView::Status { code: code as u16 }) } else { None },
                None => None,
            }
        } else {
            None
        }
    } else {
        let sp1 = find_byte(line, 32, 0);
        let sp2 = find_byte(line, 32, sp1 + 1);
        if sp1 == 0 || sp2 >= line.len() || sp2 == sp1 + 1 || line.subrange(sp2 + 1, line.len() as int)
            != sip_version() {
            None
        } else {
            let name = line.subrange(0, sp1);
            Some(StartView::Request { method: method_of(name), name, uri: line.subrange(sp1 + 1, sp2) })
        }
    }
}

/// The header lines from `pos` up to the blank line or the end, keeping
/// those with a colon and skipping the rest.
pub open spec fn field_lines(s: Seq<u8>, pos: int) -> Seq<Seq<u8>>
    decreases s.len() + 2 - pos,
{
    if pos < 0 || pos >= s.len() {
        seq![]
    } else {
        let e = find_crlf(s, pos);
        if e <= pos {
            seq![]
        } else {
            let line = s.subrange(pos, e);
            let rest = if e >= s.len() { seq![] } else { field_lines(s, e + 2) };
            if find_byte(line, 58, 0) < line.len() { seq![line] + rest } else { rest }
        }
    }
}

/// What follows the blank line that ends the header lines, if there is one.
pub open spec fn body_after(s: Seq<u8>, pos: int) -> Seq<u8>
    decreases s.len() + 2 - pos,
{
    if pos < 0 || pos >= s.len() {
        seq![]
    } else {
        let e = find_crlf(s, pos);
        if e == pos {
            s.subrange(pos + 2, s.len() as int)
        } else if e < pos || e >= s.len() {
            seq![]
        } else {
            body_after(s, e + 2)
        }
    }
}

/// A header line's name: everything before the first colon.
pub open spec fn field_name(line: Seq<u8>) -> Seq<u8> {
    line.subrange(0, find_byte(line, 58, 0))
}

/// A header line's value: what follows the colon, leading blanks skipped.
pub open spec fn field_value(line: Seq<u8>) -> Seq<u8> {
    line.subrange(skip_blanks(line, find_byte(line, 58, 0) + 1), line.len() as int)
}

pub open spec fn first_line(s: Seq<u8>) -> Seq<u8> {
    s.subrange(0, find_crlf(s, 0))
}

/// Where the header lines begin.
pub open spec fn fields_start(s: Seq<u8>) -> int {
    find_crlf(s, 0) + 2
}

/// The headers hold exactly the given lines, in order, each split into name and value.
pub open spec fn headers_are(hs: Seq<Header>, lines: Seq<Seq<u8>>) -> bool {
    &&& hs.len() == lines.len()
    &&& forall|i: int|
        0 <= i < hs.len() ==> (#[trigger] hs[i]).raw@ == lines[i] && hs[i].name@ == field_name(lines[i])
            && hs[i].value@ == field_value(lines[i])
}

fn copy_range(s: &[u8], start: usize, end: usize) -> (r: Vec<u8>)
    requires
        start <= end <= s@.len(),
    ensures
        r@ == s@.subrange(start as int, end as int),
{
    crate::router::slice_to_vec(vstd::slice::slice_subrange(s, start, end))
}

/// `m` is what `parse` makes of `s`.
pub open spec fn parse_ok(s: Seq<u8>, m: SipMessage) -> bool {
    &&& start_of(first_line(s)) == Some(m.start@)
    &&& headers_are(m.headers@, field_lines(s, fields_start(s)))
    &&& m.body@ == body_after(s, fields_start(s))
}

/// Reads a first line.
pub fn parse_start(line: &[u8]) -> (r: Option<StartLine>)
    ensures
        match start_of(line@) {
            Some(v) => r matches Some(x) && x@ == v,
            None => r is None,
        },
{
    let prefix = "SIP/2.0 ".as_bytes();
    if holds_at_exec(line, 0, prefix) {
        let p = prefix.len();
        if line.len() - p >= 3 && (line.len() - p == 3 || line[p + 3] == 32) {
            let digits = vstd::slice::slice_subrange(line, p, p + 3);
            match parse_number_exec(digits, 999) {
                Some(code) => if code >= 100 { Some(StartLine::Status { code: code as u16 }) } else { None },
                None => None,
            }
        } else {
            None
        }
    } else {
        let sp1 = find_byte_exec(line, 32, 0);
        if sp1 == 0 || sp1 >= line.len() {
            return None;
        }
        let sp2 = find_byte_exec(line, 32, sp1 + 1);
        if sp2 >= line.len() || sp2 == sp1 + 1 {
            return None;
        }
        let version = vstd::slice::slice_subrange(line, sp2 + 1, line.len());
        if !crate::router::bytes_eq(version, "SIP/2.0".as_bytes()) {
            return None;
        }
        let name = copy_range(line, 0, sp1);
        let method = if crate::router::bytes_eq(name.as_slice(), "INVITE".as_bytes()) {
            Method::Invite
        } else if crate::router::bytes_eq(name.as_slice(), "ACK".as_bytes()) {
            Method::Ack
        } else if crate::router::bytes_eq(name.as_slice(), "BYE".as_bytes()) {
            Method::Bye
        } else {
            Method::Other
        };
        Some(StartLine::Request { method, name, uri: copy_range(line, sp1 + 1, sp2) })
    }
}

/// Splits one header line into name and value.
pub fn parse_field(line: &[u8]) -> (r: Header)
    ensures
        r.raw@ == line@,
        r.name@ == field_name(line@),
        r.value@ == field_value(line@),
{
    let colon = find_byte_exec(line, 58, 0);
    let from = if colon < line.len() { colon + 1 } else { colon };
    let v = skip_blanks_exec(line, from);
    proof {
        if colon >= line@.len() {
            assert(skip_blanks(line@, colon + 1) == line@.len());
        }
    }
    Header { name: copy_range(line, 0, colon), value: copy_range(line, v, line.len()), raw: copy_range(line, 0, line.len()) }
}

/// Parses a datagram. It is malformed only when its first line is neither a
/// request nor a status line; header lines without a colon are skipped.
pub fn parse(s: &[u8]) -> (r: Result<SipMessage, SipError>)
    ensures
        match start_of(first_line(s@)) {
            Some(v) => r matches Ok(m) && m.start@ == v && parse_ok(s@, m),
            None => r == Err::<SipMessage, SipError>(SipError::Malformed),
        },
{
    let e0 = find_crlf_exec(s, 0);
    proof { lemma_find_crlf_bounds(s@, 0); }
    let start = match parse_start(vstd::slice::slice_subrange(s, 0, e0)) {
        Some(x) => x,
        None => return Err(SipError::Malformed),
    };
    let mut headers: Vec<Header> = Vec::new();
    let mut body: Vec<u8> = Vec::new();
    if e0 >= s.len() {
        assert(field_lines(s@, fields_start(s@)) == Seq::<Seq<u8>>::empty());
        assert(headers_are(headers@, Seq::<Seq<u8>>::empty()));
        assert(body@ == body_after(s@, fields_start(s@)));
        return Ok(SipMessage { start, headers, body });
    }
    let ghost p0 = e0 + 2;
    let len = s.len();
    let mut pos: usize = e0 + 2;
    let mut done = false;
    assert(headers_are(headers@, Seq::<Seq<u8>>::empty()));
    assert(field_lines(s@, p0) == Seq::<Seq<u8>>::empty() + field_lines(s@, pos as int));
    while !done && pos < len
        invariant
            len == s@.len(),
            pos <= len + 2,
            done ==> body@ == body_after(s@, p0) && headers_are(headers@, field_lines(s@, p0)),
            !done ==> body@ == Seq::<u8>::empty(),
            !done ==> body_after(s@, p0) == body_after(s@, pos as int)
                && exists|hl: Seq<Seq<u8>>| headers_are(headers@, hl) && field_lines(s@, p0) == hl + field_lines(s@, pos as int),
        decreases len + 3 - pos + (if done { 0int } else { 1int }),
    {
        let e = find_crlf_exec(s, pos);
        proof { lemma_find_crlf_bounds(s@, pos as int); }
        let ghost hl = choose|hl: Seq<Seq<u8>>| headers_are(headers@, hl) && field_lines(s@, p0) == hl + field_lines(s@, pos as int);
        if e == pos {
            body = copy_range(s, pos + 2, len);
            done = true;
            assert(body@ == body_after(s@, pos as int));
            assert(field_lines(s@, pos as int) == Seq::<Seq<u8>>::empty());
            assert(hl + field_lines(s@, pos as int) == hl);
        } else {
            let line = vstd::slice::slice_subrange(s, pos, e);
            let colon = find_byte_exec(line, 58, 0);
            let ghost before = headers@;
            if colon < line.len() {
                let h = parse_field(line);
                headers.push(h);
                proof {
                    let hl2 = hl.push(line@);
                    assert(headers_are(headers@, hl2)) by {
                        assert forall|i: int| 0 <= i < headers@.len() implies (#[trigger] headers@[i]).raw@ == hl2[i]
                            && headers@[i].name@ == field_name(hl2[i]) && headers@[i].value@ == field_value(hl2[i]) by {
                            if i < before.len() {
                                assert(headers@[i] == before[i]);
                            }
                        }
                    }
                    if e < len {
                        assert(field_lines(s@, p0) == hl2 + field_lines(s@, e + 2));
                    } else {
                        assert(field_lines(s@, p0) == hl2);
                    }
                }
            } else {
                proof {
                    if e < len {
                        assert(field_lines(s@, p0) == hl + field_lines(s@, e + 2));
                    } else {
                        assert(field_lines(s@, p0) == hl);
                    }
                }
            }
            if e >= len {
                done = true;
                assert(body_after(s@, pos as int) == Seq::<u8>::empty());
                assert(body@ == Seq::<u8>::empty());
            } else {
                assert(body_after(s@, pos as int) == body_after(s@, e + 2));
                pos = e + 2;
            }
        }
    }
    proof {
        if !done {
            let hl = choose|hl: Seq<Seq<u8>>| headers_are(headers@, hl) && field_lines(s@, p0) == hl + field_lines(s@, pos as int);
            assert(hl + field_lines(s@, pos as int) == hl);
            assert(body_after(s@, pos as int) == Seq::<u8>::empty());
        }
    }
    Ok(SipMessage { start, headers, body })
}

/// Index of the first header at or after `i` whose name is `name`, letters
/// compared without case.
pub open spec fn first_named(hs: Seq<Header>, name: Seq<u8>, i: int) -> Option<int>
    decreases hs.len() - i,
{
    if i < 0 || i >= hs.len() {
        None
    } else if eq_ignore_case(hs[i].name@, name) {
        Some(i)
    } else {
        first_named(hs, name, i + 1)
    }
}

/// Two header lists read from the same lines agree on which header a name
/// finds first, and on its value.
pub proof fn lemma_first_named_same_lines(h1: Seq<Header>, h2: Seq<Header>, lines: Seq<Seq<u8>>, name: Seq<u8>, i: int)
    requires
        headers_are(h1, lines),
        headers_are(h2, lines),
        0 <= i,
    ensures
        first_named(h1, name, i) == first_named(h2, name, i),
        first_named(h1, name, i) matches Some(k) ==> 0 <= k < h1.len() && h1[k].value@ == h2[k].value@,
    decreases h1.len() - i,
{
    if i < h1.len() {
        assert(h1[i].name@ == h2[i].name@);
        if !eq_ignore_case(h1[i].name@, name) {
            lemma_first_named_same_lines(h1, h2, lines, name, i + 1);
        } else {
            assert(h1[i].value@ == h2[i].value@);
        }
    }
}

/// Whether a header belongs to those that a response echoes to tie it to
/// the dialog.
pub open spec fn is_dialog_field(name: Seq<u8>) -> bool {
    eq_ignore_case(name, "Via".spec_bytes()) || eq_ignore_case(name, "From".spec_bytes())
        || eq_ignore_case(name, "To".spec_bytes()) || eq_ignore_case(name, "Call-ID".spec_bytes())
        || eq_ignore_case(name, "CSeq".spec_bytes())
}

/// The dialog headers of a request, each line verbatim and in order.
pub open spec fn echoed(hs: Seq<Header>) -> Seq<u8>
    decreases hs.len(),
{
    if hs.len() == 0 {
        seq![]
    } else {
        echoed(hs.drop_last()) + if is_dialog_field(hs.last().name@) { hs.last().raw@ + crlf() } else { seq![] }
    }
}

/// A 200 OK that carries an SDP answer.
pub open spec fn ok_response(hs: Seq<Header>, sdp: Seq<u8>) -> Seq<u8> {
    "SIP/2.0 200 OK\r\n".spec_bytes() + echoed(hs) + "Content-Type: application/sdp\r\n".spec_bytes()
        + "Content-Length: ".spec_bytes() + decimal(sdp.len()) + crlf() + crlf() + sdp
}

/// The client-error answer to an offer with no payload type in common.
pub open spec fn reject_response(hs: Seq<Header>) -> Seq<u8> {
    "SIP/2.0 488 Not Acceptable Here\r\n".spec_bytes() + echoed(hs) + "Content-Length: 0\r\n\r\n".spec_bytes()
}

/// The BYE that ends a call: the request line and the Call-ID only.
pub open spec fn bye_request(call_id: Seq<u8>) -> Seq<u8> {
    "BYE sip:voicebbs@client SIP/2.0\r\n".spec_bytes() + "Call-ID: ".spec_bytes() + call_id + crlf() + crlf()
}

pub proof fn lemma_first_named_in_range(hs: Seq<Header>, name: Seq<u8>, i: int)
    ensures
        first_named(hs, name, i) matches Some(k) ==> 0 <= k < hs.len(),
    decreases hs.len() - i,
{
    if 0 <= i < hs.len() && !eq_ignore_case(hs[i].name@, name) {
        lemma_first_named_in_range(hs, name, i + 1);
    }
}

impl SipMessage {
    /// The value of the first header with this name, letters compared without case.
    pub fn header_value(&self, name: &str) -> (r: Option<Vec<u8>>)
        ensures
            first_named(self.headers@, name.spec_bytes(), 0) matches Some(i) ==> 0 <= i < self.headers@.len(),
            match first_named(self.headers@, name.spec_bytes(), 0) {
                Some(i) => r matches Some(v) && v@ == self.headers@[i].value@,
                None => r is None,
            },
    {
        let key = name.as_bytes();
        proof { lemma_first_named_in_range(self.headers@, key@, 0); }
        let mut i: usize = 0;
        while i < self.headers.len()
            invariant
                i <= self.headers@.len(),
                key@ == name.spec_bytes(),
                first_named(self.headers@, key@, 0) == first_named(self.headers@, key@, i as int),
            decreases self.headers@.len() - i,
        {
            if eq_ignore_case_exec(self.headers[i].name.as_slice(), key) {
                return Some(copy_range(self.headers[i].value.as_slice(), 0, self.headers[i].value.len()));
            }
            i = i + 1;
        }
        None
    }

    /// The Call-ID, if the message has one.
    pub fn call_id(&self) -> (r: Option<Vec<u8>>)
        ensures
            first_named(self.headers@, "Call-ID".spec_bytes(), 0) matches Some(i) ==> 0 <= i < self.headers@.len(),
            match first_named(self.headers@, "Call-ID".spec_bytes(), 0) {
                Some(i) => r matches Some(v) && v@ == self.headers@[i].value@,
                None => r is None,
            },
    {
        self.header_value("Call-ID")
    }

    /// Whether this is a request with the given method.
    pub fn is_request(&self, method: Method) -> (r: bool)
        ensures
            r == (self.start@ matches StartView::Request { method: m, .. } && m == method),
    {
        match &self.start {
            StartLine::Request { method: m, .. } => *m == method,
            StartLine::Status { .. } => false,
        }
    }
}

fn push_echoed(buf: &mut Vec<u8>, hs: &Vec<Header>)
    ensures
        final(buf)@ == old(buf)@ + echoed(hs@),
{
    let ghost start = buf@;
    let mut i: usize = 0;
    while i < hs.len()
        invariant
            i <= hs@.len(),
            buf@ == start + echoed(hs@.subrange(0, i as int)),
        decreases hs@.len() - i,
    {
        let h = &hs[i];
        let n = h.name.as_slice();
        let keep = eq_ignore_case_exec(n, "Via".as_bytes()) || eq_ignore_case_exec(n, "From".as_bytes())
            || eq_ignore_case_exec(n, "To".as_bytes()) || eq_ignore_case_exec(n, "Call-ID".as_bytes())
            || eq_ignore_case_exec(n, "CSeq".as_bytes());
        let ghost before = buf@;
        if keep {
            push_all(buf, h.raw.as_slice());
            push_crlf(buf);
        }
        i = i + 1;
        proof {
            let sub = hs@.subrange(0, i as int);
            assert(sub.drop_last() == hs@.subrange(0, i - 1));
            assert(sub.last() == hs@[i - 1]);
            if keep {
                assert(buf@ == before + (h.raw@ + crlf()));
            }
        }
    }
    assert(hs@.subrange(0, hs@.len() as int) == hs@);
}

/// Renders a 200 OK to `request` that echoes its Via, From, To, Call-ID and
/// CSeq lines verbatim and carries `sdp` with its exact byte length.
pub fn render_ok_with_sdp(request: &SipMessage, sdp: &[u8]) -> (r: Vec<u8>)
    ensures
        r@ == ok_response(request.headers@, sdp@),
{
    let mut buf: Vec<u8> = Vec::new();
    push_str(&mut buf, "SIP/2.0 200 OK\r\n");
    push_echoed(&mut buf, &request.headers);
    push_str(&mut buf, "Content-Type: application/sdp\r\n");
    push_str(&mut buf, "Content-Length: ");
    push_decimal(&mut buf, sdp.len() as u64);
    push_crlf(&mut buf);
    push_crlf(&mut buf);
    push_all(&mut buf, sdp);
    buf
}

/// Renders the client-error response to an INVITE whose offer shares no
/// payload type with this endpoint.
pub fn render_reject(request: &SipMessage) -> (r: Vec<u8>)
    ensures
        r@ == reject_response(request.headers@),
{
    let mut buf: Vec<u8> = Vec::new();
    push_str(&mut buf, "SIP/2.0 488 Not Acceptable Here\r\n");
    push_echoed(&mut buf, &request.headers);
    push_str(&mut buf, "Content-Length: 0\r\n\r\n");
    buf
}

/// Renders the BYE for a call. It carries no Via, From, To or CSeq.
pub fn render_bye(call_id: &[u8]) -> (r: Vec<u8>)
    ensures
        r@ == bye_request(call_id@),
{
    let mut buf: Vec<u8> = Vec::new();
    push_str(&mut buf, "BYE sip:voicebbs@client SIP/2.0\r\n");
    push_str(&mut buf, "Call-ID: ");
    push_all(&mut buf, call_id);
    push_crlf(&mut buf);
    push_crlf(&mut buf);
    buf
}

} // verus!
