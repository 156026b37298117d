use vstd::prelude::*;
use vstd::string::StringSliceAdditionalSpecFns;

use crate::text::{
    crlf, decimal, find_byte, find_byte_exec, find_crlf, find_crlf_exec, holds_at, holds_at_exec,
    lemma_find_crlf_bounds, parse_number, parse_number_exec, push_all, push_crlf, push_decimal, push_str,
};

verus! {

/// Static payload type of G.711 mu-law.
pub const PCMU: u8 = 0;

/// Static payload type of G.711 A-law.
pub const PCMA: u8 = 8;

/// The payload types this endpoint can emit.
pub open spec fn is_supported(pt: u8) -> bool {
    pt == PCMU || pt == PCMA
}

/// The first payload type of `prefs` that this endpoint can emit and that the
/// offer lists, if any.
pub open spec fn negotiated(prefs: Seq<u8>, offered: Seq<u8>) -> Option<u8>
    decreases prefs.len(),
{
    if prefs.len() == 0 {
        None
    } else if is_supported(prefs[0]) && offered.contains(prefs[0]) {
        Some(prefs[0])
    } else {
        negotiated(prefs.drop_first(), offered)
    }
}

fn contains_byte(s: &[u8], b: u8) -> (r: bool)
    ensures
        r == s@.contains(b),
{
    let mut i: usize = 0;
    while i < s.len()
        invariant
            i <= s@.len(),
            forall|j: int| 0 <= j < i ==> s@[j] != b,
        decreases s@.len() - i,
    {
        if s[i] == b {
            assert(s@[i as int] == b);
            return true;
        }
        i = i + 1;
    }
    false
}

/// Picks the answer's payload type: the highest-priority entry of `prefs`
/// that is supported here and appears in the offer.
pub fn negotiate(prefs: &[u8], offered: &[u8]) -> (r: Option<u8>)
    ensures
        r == negotiated(prefs@, offered@),
{
    let mut i: usize = 0;
    assert(prefs@.subrange(0, prefs@.len() as int) == prefs@);
    while i < prefs.len()
        invariant
            i <= prefs@.len(),
            negotiated(prefs@, offered@) == negotiated(prefs@.subrange(i as int, prefs@.len() as int), offered@),
        decreases prefs@.len() - i,
    {
        let p = prefs[i];
        assert(prefs@.subrange(i as int, prefs@.len() as int).drop_first()
            == prefs@.subrange(i + 1, prefs@.len() as int));
        if (p == PCMU || p == PCMA) && contains_byte(offered, p) {
            return Some(p);
        }
        i = i + 1;
    }
    None
}

/// Whatever the preference list, an answer carries a payload type that the
/// offer lists and that this endpoint can emit, and one exists whenever some
/// supported, preferred type is offered.
pub proof fn lemma_answer_in_offer(prefs: Seq<u8>, offered: Seq<u8>)
    ensures
        negotiated(prefs, offered) matches Some(pt) ==> offered.contains(pt) && is_supported(pt)
            && prefs.contains(pt),
        negotiated(prefs, offered) is None <==> forall|i: int|
            0 <= i < prefs.len() ==> !(is_supported(#[trigger] prefs[i]) && offered.contains(prefs[i])),
    decreases prefs.len(),
{
    if prefs.len() > 0 {
        lemma_answer_in_offer(prefs.drop_first(), offered);
        if negotiated(prefs, offered) is None {
            assert forall|i: int| 0 <= i < prefs.len() implies !(is_supported(#[trigger] prefs[i])
                && offered.contains(prefs[i])) by {
                if i > 0 {
                    assert(prefs[i] == prefs.drop_first()[i - 1]);
                }
            }
        }
        if let Some(pt) = negotiated(prefs, offered) {
            if pt != prefs[0] {
                let j = choose|j: int| 0 <= j < prefs.drop_first().len() && prefs.drop_first()[j] == pt;
                assert(prefs[j + 1] == pt);
            } else {
                assert(prefs[0] == pt);
            }
        }
    }
}

/// The first line from `pos` on that starts with `m=audio `.
pub open spec fn audio_line(s: Seq<u8>, pos: int) -> Option<Seq<u8>>
    decreases s.len() + 2 - pos,
{
    if pos < 0 || pos >= s.len() {
        None
    } else {
        let e = find_crlf(s, pos);
        let line = s.subrange(pos, e);
        if holds_at(line, 0, "m=audio ".spec_bytes()) {
            Some(line)
        } else if e < pos || e >= s.len() {
            None
        } else {
            audio_line(s, e + 2)
        }
    }
}

/// The numbers among the space-separated fields of `line` from `i` on;
/// fields that are not a number up to 255 are skipped.
pub open spec fn number_fields(line: Seq<u8>, i: int) -> Seq<u8>
    decreases line.len() + 1 - i,
{
    if i < 0 || i >= line.len() {
        seq![]
    } else {
        let j = find_byte(line, 32, i);
        let rest = if j < i || j >= line.len() { seq![] } else { number_fields(line, j + 1) };
        match parse_number(line.subrange(i, j), 255) {
            Some(v) => seq![v as u8] + rest,
            None => rest,
        }
    }
}

/// Where the payload types of a media line start: after `m=audio`, the
/// port and the transport.
pub open spec fn formats_start(line: Seq<u8>) -> int {
    find_byte(line, 32, find_byte(line, 32, find_byte(line, 32, 0) + 1) + 1) + 1
}

/// The payload types that an SDP body offers on its first audio media line.
pub open spec fn offered_types(body: Seq<u8>) -> Seq<u8> {
    match audio_line(body, 0) {
        Some(line) => number_fields(line, formats_start(line)),
        None => seq![],
    }
}

fn find_audio_line(s: &[u8]) -> (r: Option<&[u8]>)
    ensures
        match audio_line(s@, 0) {
            Some(l) => r matches Some(x) && x@ == l,
            None => r is None,
        },
{
    let len = s.len();
    let mut pos: usize = 0;
    while pos < len
        invariant
            len == s@.len(),
            audio_line(s@, 0) == audio_line(s@, pos as int),
        decreases len + 2 - pos,
    {
        let e = find_crlf_exec(s, pos);
        proof { lemma_find_crlf_bounds(s@, pos as int); }
        let line = vstd::slice::slice_subrange(s, pos, e);
        if holds_at_exec(line, 0, "m=audio ".as_bytes()) {
            return Some(line);
        }
        if e >= len {
            return None;
        }
        pos = e + 2;
    }
    None
}

fn number_fields_exec(line: &[u8], i: usize) -> (r: Vec<u8>)
    requires
        i <= line@.len(),
    ensures
        r@ == number_fields(line@, i as int),
{
    let len = line.len();
    let mut out: Vec<u8> = Vec::new();
    let mut k: usize = i;
    let mut done = false;
    while !done && k < len
        invariant
            len == line@.len(),
            i <= k <= len,
            done ==> out@ == number_fields(line@, i as int),
            !done ==> number_fields(line@, i as int) == out@ + number_fields(line@, k as int),
        decreases len + 1 - k + (if done { 0int } else { 1int }),
    {
        let j = find_byte_exec(line, 32, k);
        let field = vstd::slice::slice_subrange(line, k, j);
        let ghost before = out@;
        let ghost rest = if j >= len { Seq::<u8>::empty() } else { number_fields(line@, j + 1) };
        match parse_number_exec(field, 255) {
            Some(v) => {
                out.push(v as u8);
                assert(number_fields(line@, k as int) == seq![v as u8] + rest);
                assert(before + (seq![v as u8] + rest) == out@ + rest);
            },
            None => {},
        }
        if j >= len {
            done = true;
            assert(out@ + Seq::<u8>::empty() == out@);
        } else {
            k = j + 1;
        }
    }
    proof {
        if !done {
            assert(out@ + Seq::<u8>::empty() == out@);
        }
    }
    out
}

/// Reads the payload types offered on the first `m=audio` line of an SDP
/// body, in the order listed; the result is empty when there is no such line.
pub fn offered_payload_types(body: &[u8]) -> (r: Vec<u8>)
    ensures
        r@ == offered_types(body@),
{
    match find_audio_line(body) {
        Some(line) => {
            let a = find_byte_exec(line, 32, 0);
            if a >= line.len() {
                return Vec::new();
            }
            let b = find_byte_exec(line, 32, a + 1);
            if b >= line.len() {
                return Vec::new();
            }
            let c = find_byte_exec(line, 32, b + 1);
            if c >= line.len() {
                return Vec::new();
            }
            number_fields_exec(line, c + 1)
        },
        None => Vec::new(),
    }
}

/// The encoding name that an answer gives a supported payload type.
pub open spec fn codec_name(pt: u8) -> Seq<u8> {
    if pt == PCMU { "PCMU".spec_bytes() } else { "PCMA".spec_bytes() }
}

/// An SDP answer that offers one payload type from `addr` and `port`.
pub open spec fn answer_text(addr: Seq<u8>, port: u16, pt: u8) -> Seq<u8> {
    "v=0".spec_bytes() + crlf() + "o=- 0 0 IN IP4 ".spec_bytes() + addr + crlf() + "s=VoiceBBS".spec_bytes() + crlf()
        + "c=IN IP4 ".spec_bytes() + addr + crlf() + "t=0 0".spec_bytes() + crlf() + "m=audio ".spec_bytes()
        + decimal(port as nat) + " RTP/AVP ".spec_bytes() + decimal(pt as nat) + crlf() + "a=rtpmap:".spec_bytes()
        + decimal(pt as nat) + " ".spec_bytes() + codec_name(pt) + "/8000".spec_bytes() + crlf()
}

/// Renders the SDP answer for a negotiated payload type.
pub fn render_answer(addr: &[u8], port: u16, payload_type: u8) -> (r: Vec<u8>)
    requires
        is_supported(payload_type),
    ensures
        r@ == answer_text(addr@, port, payload_type),
{
    let mut b: Vec<u8> = Vec::new();
    push_str(&mut b, "v=0");
    push_crlf(&mut b);
    push_str(&mut b, "o=- 0 0 IN IP4 ");
    push_all(&mut b, addr);
    push_crlf(&mut b);
    push_str(&mut b, "s=VoiceBBS");
    push_crlf(&mut b);
    push_str(&mut b, "c=IN IP4 ");
    push_all(&mut b, addr);
    push_crlf(&mut b);
    push_str(&mut b, "t=0 0");
    push_crlf(&mut b);
    push_str(&mut b, "m=audio ");
    push_decimal(&mut b, port as u64);
    push_str(&mut b, " RTP/AVP ");
    push_decimal(&mut b, payload_type as u64);
    push_crlf(&mut b);
    push_str(&mut b, "a=rtpmap:");
    push_decimal(&mut b, payload_type as u64);
    push_str(&mut b, " ");
    if payload_type == PCMU {
        push_str(&mut b, "PCMU");
    } else {
        push_str(&mut b, "PCMA");
    }
    push_str(&mut b, "/8000");
    push_crlf(&mut b);
    b
}

} // verus!
