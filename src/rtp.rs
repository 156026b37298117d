use vstd::prelude::*;

verus! {

/// Number of payload bytes in one 20 ms frame of 8 kHz, 8-bit G.711 audio.
pub const FRAME_BYTES: usize = 160;

/// Timestamp advance per frame, in samples of the 8 kHz clock.
pub const SAMPLES_PER_FRAME: u32 = 160;

/// Length in bytes of the fixed RTP header.
pub const HEADER_LEN: usize = 12;

/// The fixed RTP header of one packet.
#[derive(Clone, Copy, Debug, PartialEq, Eq, Structural)]
pub struct RtpHeader {
    pub version: u8,
    pub padding: bool,
    pub extension: bool,
    pub csrc_count: u8,
    pub marker: bool,
    pub payload_type: u8,
    pub sequence_number: u16,
    pub timestamp: u32,
    pub ssrc: u32,
}

pub open spec fn flag(b: bool, weight: int) -> int {
    if b { weight } else { 0 }
}

/// Big-endian bytes of a 16-bit value.
pub open spec fn be16(x: u16) -> Seq<u8> {
    seq![(x / 256) as u8, (x % 256) as u8]
}

/// Big-endian bytes of a 32-bit value.
pub open spec fn be32(x: u32) -> Seq<u8> {
    seq![
        (x / 0x100_0000) as u8,
        ((x / 0x1_0000) % 256) as u8,
        ((x / 256) % 256) as u8,
        (x % 256) as u8,
    ]
}

/// The wire form of a header: two flag bytes, then sequence number, timestamp
/// and SSRC in network byte order.
pub open spec fn header_bytes(h: RtpHeader) -> Seq<u8> {
    let b0 = (h.version % 4) * 64 + flag(h.padding, 32) + flag(h.extension, 16) + h.csrc_count % 16;
    let b1 = flag(h.marker, 128) + h.payload_type % 128;
    seq![b0 as u8, b1 as u8] + be16(h.sequence_number) + be32(h.timestamp) + be32(h.ssrc)
}

impl RtpHeader {
    /// A version-2 header with no padding, extension, CSRCs or marker,
    /// carrying G.711 mu-law (payload type 0).
    pub fn new(sequence_number: u16, timestamp: u32, ssrc: u32) -> (r: Self)
        ensures
            r == (RtpHeader {
                version: 2,
                padding: false,
                extension: false,
                csrc_count: 0,
                marker: false,
                payload_type: 0,
                sequence_number,
                timestamp,
                ssrc,
            }),
    {
        RtpHeader {
            version: 2,
            padding: false,
            extension: false,
            csrc_count: 0,
            marker: false,
            payload_type: 0,
            sequence_number,
            timestamp,
            ssrc,
        }
    }

    /// Serialises the header into its 12 wire bytes.
    pub fn build(&self) -> (r: Vec<u8>)
        ensures
            r@ == header_bytes(*self),
            r@.len() == HEADER_LEN,
    {
        let mut buf: Vec<u8> = Vec::with_capacity(HEADER_LEN);
        let b0: u8 = (self.version % 4) * 64 + if self.padding { 32u8 } else { 0u8 }
            + if self.extension { 16u8 } else { 0u8 } + self.csrc_count % 16;
        buf.push(b0);
        let b1: u8 = if self.marker { 128u8 } else { 0u8 } + self.payload_type % 128;
        buf.push(b1);
        push_be16(&mut buf, self.sequence_number);
        push_be32(&mut buf, self.timestamp);
        push_be32(&mut buf, self.ssrc);
        assert(buf@ == header_bytes(*self));
        buf
    }
}

fn push_be16(buf: &mut Vec<u8>, x: u16)
    ensures
        final(buf)@ == old(buf)@ + be16(x),
{
    buf.push((x / 256) as u8);
    buf.push((x % 256) as u8);
}

fn push_be32(buf: &mut Vec<u8>, x: u32)
    ensures
        final(buf)@ == old(buf)@ + be32(x),
{
    buf.push((x / 0x100_0000) as u8);
    buf.push(((x / 0x1_0000) % 256) as u8);
    buf.push(((x / 256) % 256) as u8);
    buf.push((x % 256) as u8);
}

/// The header of an RTP packet with the given fields and every flag clear.
pub open spec fn packet_header(sequence_number: u16, timestamp: u32, ssrc: u32, payload_type: u8) -> RtpHeader {
    RtpHeader {
        version: 2,
        padding: false,
        extension: false,
        csrc_count: 0,
        marker: false,
        payload_type,
        sequence_number,
        timestamp,
        ssrc,
    }
}

/// Builds the 12-byte fixed header: version 2, no padding, extension,
/// CSRCs or marker.
pub fn build_header(sequence_number: u16, timestamp: u32, ssrc: u32, payload_type: u8) -> (r: Vec<u8>)
    ensures
        r@ == header_bytes(packet_header(sequence_number, timestamp, ssrc, payload_type)),
        r@.len() == HEADER_LEN,
{
    let mut h = RtpHeader::new(sequence_number, timestamp, ssrc);
    h.payload_type = payload_type;
    h.build()
}

/// The per-session sequence number and timestamp that the next packet carries.
#[derive(Clone, Copy, Debug, PartialEq, Eq, Structural)]
pub struct RtpCounters {
    pub sequence_number: u16,
    pub timestamp: u32,
}

/// The counters after `n` packets: sequence number up by `n` modulo 2^16,
/// timestamp up by 160 samples per packet modulo 2^32.
pub open spec fn counters_after(c: RtpCounters, n: nat) -> RtpCounters {
    RtpCounters {
        sequence_number: ((c.sequence_number + n) % 0x1_0000) as u16,
        timestamp: ((c.timestamp + SAMPLES_PER_FRAME * n) % 0x1_0000_0000) as u32,
    }
}

/// The counters advanced one packet at a time, `n` times.
pub open spec fn counters_stepped(c: RtpCounters, n: nat) -> RtpCounters
    decreases n,
{
    if n == 0 {
        c
    } else {
        counters_after(counters_stepped(c, (n - 1) as nat), 1)
    }
}

impl RtpCounters {
    pub fn new(sequence_number: u16, timestamp: u32) -> (r: Self)
        ensures
            r == (RtpCounters { sequence_number, timestamp }),
    {
        RtpCounters { sequence_number, timestamp }
    }

    /// The counters for the packet after this one, wrapping at 2^16 and 2^32.
    pub fn advance(self) -> (r: Self)
        ensures
            r == counters_after(self, 1),
    {
        RtpCounters {
            sequence_number: self.sequence_number.wrapping_add(1),
            timestamp: self.timestamp.wrapping_add(SAMPLES_PER_FRAME),
        }
    }
}

/// One packet's bytes: the header for the given counters, then the chunk as it is.
pub open spec fn packet_bytes(chunk: Seq<u8>, c: RtpCounters, ssrc: u32, payload_type: u8) -> Seq<u8> {
    header_bytes(packet_header(c.sequence_number, c.timestamp, ssrc, payload_type)) + chunk
}

/// Frames one audio chunk into a packet. The counters are read, not advanced:
/// advancing them is left to their owner.
pub fn frame(chunk: &[u8], counters: RtpCounters, ssrc: u32, payload_type: u8) -> (r: Vec<u8>)
    ensures
        r@ == packet_bytes(chunk@, counters, ssrc, payload_type),
{
    let mut packet = build_header(counters.sequence_number, counters.timestamp, ssrc, payload_type);
    let ghost head = packet@;
    let mut i: usize = 0;
    while i < chunk.len()
        invariant
            i <= chunk@.len(),
            packet@ == head + chunk@.subrange(0, i as int),
        decreases chunk@.len() - i,
    {
        packet.push(chunk[i]);
        i = i + 1;
        assert(chunk@.subrange(0, i as int) == chunk@.subrange(0, i - 1) + seq![chunk@[i - 1]]);
    }
    assert(chunk@.subrange(0, chunk@.len() as int) == chunk@);
    packet
}

/// How many frames an audio buffer of `len` bytes gives: every full 160-byte
/// chunk, and one more for a shorter tail.
pub open spec fn chunk_count(len: nat) -> nat {
    (len + 159) as nat / 160
}

pub open spec fn chunk_start(k: nat) -> int {
    160 * k as int
}

pub open spec fn chunk_end(len: nat, k: nat) -> int {
    if 160 * k + 160 <= len { 160 * k as int + 160 } else { len as int }
}

/// The `k`th chunk of an audio buffer; the last one may be short.
pub open spec fn chunk_of(audio: Seq<u8>, k: nat) -> Seq<u8> {
    audio.subrange(chunk_start(k), chunk_end(audio.len(), k))
}

/// Where the `k`th chunk of a buffer of `len` bytes starts and ends.
pub fn chunk_bounds(len: usize, k: usize) -> (r: (usize, usize))
    requires
        k < chunk_count(len as nat),
    ensures
        r.0 == chunk_start(k as nat),
        r.1 == chunk_end(len as nat, k as nat),
        r.0 < r.1 <= len,
{
    let start = k * FRAME_BYTES;
    let end = if len - start >= FRAME_BYTES { start + FRAME_BYTES } else { len };
    (start, end)
}

/// Frames the `k`th chunk of `audio` with the given counters.
pub fn frame_chunk(audio: &[u8], k: usize, counters: RtpCounters, ssrc: u32, payload_type: u8) -> (r: Vec<u8>)
    requires
        k < chunk_count(audio@.len()),
    ensures
        r@ == packet_bytes(chunk_of(audio@, k as nat), counters, ssrc, payload_type),
{
    let (start, end) = chunk_bounds(audio.len(), k);
    let chunk = slice_range(audio, start, end);
    frame(chunk, counters, ssrc, payload_type)
}

fn slice_range(s: &[u8], start: usize, end: usize) -> (r: &[u8])
    requires
        start <= end <= s@.len(),
    ensures
        r@ == s@.subrange(start as int, end as int),
{
    vstd::slice::slice_subrange(s, start, end)
}

/// Every packet of a stream: chunk `k` of the buffer framed with the counters
/// advanced `k` times from `start`.
pub fn packetize(audio: &[u8], start: RtpCounters, ssrc: u32, payload_type: u8) -> (r: Vec<Vec<u8>>)
    ensures
        r@.len() == chunk_count(audio@.len()),
        forall|k: int|
            0 <= k < r@.len() ==> #[trigger] r@[k]@ == packet_bytes(
                chunk_of(audio@, k as nat),
                counters_after(start, k as nat),
                ssrc,
                payload_type,
            ),
{
    let n = audio.len() / FRAME_BYTES + if audio.len() % FRAME_BYTES == 0 { 0 } else { 1 };
    assert(n == chunk_count(audio@.len()));
    let mut out: Vec<Vec<u8>> = Vec::new();
    let mut c = start;
    let mut k: usize = 0;
    while k < n
        invariant
            n == chunk_count(audio@.len()),
            k <= n,
            out@.len() == k,
            c == counters_after(start, k as nat),
            forall|j: int|
                0 <= j < k ==> #[trigger] out@[j]@ == packet_bytes(
                    chunk_of(audio@, j as nat),
                    counters_after(start, j as nat),
                    ssrc,
                    payload_type,
                ),
        decreases n - k,
    {
        let p = frame_chunk(audio, k, c, ssrc, payload_type);
        out.push(p);
        proof { lemma_counters_after_step(start, k as nat); }
        c = c.advance();
        k = k + 1;
    }
    out
}

/// One more packet after `n` lands where the closed form says for `n + 1`.
pub proof fn lemma_counters_after_step(c: RtpCounters, n: nat)
    ensures
        counters_after(counters_after(c, n), 1) == counters_after(c, n + 1),
{
    let a = c.sequence_number + n;
    let t = c.timestamp + SAMPLES_PER_FRAME * n;
    assert(((a % 0x1_0000) + 1) % 0x1_0000 == (a + 1) % 0x1_0000) by {
        vstd::arithmetic::div_mod::lemma_add_mod_noop(a, 1, 0x1_0000);
    }
    assert(((t % 0x1_0000_0000) + 160) % 0x1_0000_0000 == (t + 160) % 0x1_0000_0000) by {
        vstd::arithmetic::div_mod::lemma_add_mod_noop(t, 160, 0x1_0000_0000);
    }
    assert(SAMPLES_PER_FRAME * (n + 1) == SAMPLES_PER_FRAME * n + 160) by (nonlinear_arith);
}

/// Advancing the counters packet by packet gives, after `n` packets, the
/// sequence number `start + n` modulo 2^16 and the timestamp `t0 + 160 * n`
/// modulo 2^32, whatever the chunks held.
pub proof fn lemma_counters_stepped(c: RtpCounters, n: nat)
    ensures
        counters_stepped(c, n) == counters_after(c, n),
    decreases n,
{
    if n == 0 {
        assert((c.sequence_number as int) % 0x1_0000 == c.sequence_number);
        assert((c.timestamp as int) % 0x1_0000_0000 == c.timestamp);
    } else {
        lemma_counters_stepped(c, (n - 1) as nat);
        lemma_counters_after_step(c, (n - 1) as nat);
    }
}

} // verus!
