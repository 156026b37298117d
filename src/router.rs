use vstd::prelude::*;

use crate::rtp::RtpCounters;
use crate::session::{Action, CallSession, Event, Phase};

verus! {

/// A remote transport address: an IP address (IPv4 addresses as their
/// IPv4-mapped IPv6 form) and a port.
#[derive(Clone, Copy, Debug, PartialEq, Eq, Structural)]
pub struct PeerAddr {
    pub ip: u128,
    pub port: u16,
}

/// What a session is correlated by: where it came from and its Call-ID.
#[derive(Clone, Debug)]
pub struct RouteKey {
    pub peer: PeerAddr,
    pub call_id: Vec<u8>,
}

/// Where a datagram goes.
#[derive(Clone, Copy, Debug, PartialEq, Eq, Structural)]
pub enum Route {
    /// A session was made for a key not seen before, at this index.
    Created(usize),
    /// The key belongs to the session at this index.
    Existing(usize),
    /// Every SSRC this router can hand out is taken.
    Exhausted,
}

/// The table of live sessions, each under its own key. A session's SSRC is
/// the router's base plus the serial number it was created under.
pub struct SessionRouter {
    pub keys: Vec<RouteKey>,
    pub sessions: Vec<CallSession>,
    pub serials: Vec<u32>,
    pub ssrc_base: u32,
    pub next_serial: u32,
}

pub open spec fn ssrc_for(base: u32, serial: u32) -> u32 {
    ((base + serial) % 0x1_0000_0000) as u32
}

pub open spec fn key_is(k: RouteKey, peer: PeerAddr, call_id: Seq<u8>) -> bool {
    k.peer == peer && k.call_id@ == call_id
}

impl SessionRouter {
    pub open spec fn wf(&self) -> bool {
        &&& self.keys@.len() == self.sessions@.len()
        &&& self.serials@.len() == self.sessions@.len()
        &&& forall|i: int, j: int|
            0 <= i < j < self.keys@.len() ==> !key_is(self.keys@[i], self.keys@[j].peer, self.keys@[j].call_id@)
        &&& forall|i: int, j: int|
            0 <= i < j < self.serials@.len() ==> self.serials@[i] != self.serials@[j]
        &&& forall|i: int| 0 <= i < self.serials@.len() ==> #[trigger] self.serials@[i] < self.next_serial
        &&& forall|i: int|
            0 <= i < self.sessions@.len() ==> (#[trigger] self.sessions@[i]).wf()
                && self.sessions@[i].ssrc == ssrc_for(self.ssrc_base, self.serials@[i])
    }

    /// An empty table whose sessions take SSRCs from `ssrc_base` on.
    pub fn new(ssrc_base: u32) -> (r: Self)
        ensures
            r.wf(),
            r.keys@.len() == 0,
            r.ssrc_base == ssrc_base,
    {
        SessionRouter { keys: Vec::new(), sessions: Vec::new(), serials: Vec::new(), ssrc_base, next_serial: 0 }
    }

    pub fn len(&self) -> (r: usize)
        ensures
            r == self.sessions@.len(),
    {
        self.sessions.len()
    }

    /// The index of the session under this key, if there is one.
    pub fn find(&self, peer: PeerAddr, call_id: &[u8]) -> (r: Option<usize>)
        requires
            self.keys@.len() == self.sessions@.len(),
        ensures
            match r {
                Some(i) => i < self.keys@.len() && key_is(self.keys@[i as int], peer, call_id@),
                None => forall|i: int| 0 <= i < self.keys@.len() ==> !key_is(#[trigger] self.keys@[i], peer, call_id@),
            },
    {
        let mut i: usize = 0;
        while i < self.keys.len()
            invariant
                i <= self.keys@.len(),
                forall|j: int| 0 <= j < i ==> !key_is(#[trigger] self.keys@[j], peer, call_id@),
            decreases self.keys@.len() - i,
        {
            if self.keys[i].peer == peer && bytes_eq(self.keys[i].call_id.as_slice(), call_id) {
                return Some(i);
            }
            i = i + 1;
        }
        None
    }

    /// Finds the session under this key, or makes a fresh one in
    /// `AwaitingInvite` with counters at zero and the next SSRC. The table is
    /// changed only by the one insertion.
    pub fn lookup_or_create(&mut self, peer: PeerAddr, call_id: &[u8]) -> (r: Route)
        requires
            old(self).wf(),
        ensures
            final(self).wf(),
            final(self).ssrc_base == old(self).ssrc_base,
            match r {
                Route::Existing(i) => *final(self) == *old(self) && i < old(self).keys@.len()
                    && key_is(old(self).keys@[i as int], peer, call_id@),
                Route::Created(i) => {
                    &&& forall|j: int| 0 <= j < old(self).keys@.len() ==> !key_is(#[trigger] old(self).keys@[j], peer, call_id@)
                    &&& i == old(self).keys@.len()
                    &&& final(self).keys@ == old(self).keys@.push(final(self).keys@[i as int])
                    &&& key_is(final(self).keys@[i as int], peer, call_id@)
                    &&& final(self).sessions@ == old(self).sessions@.push(final(self).sessions@[i as int])
                    &&& final(self).sessions@[i as int].phase == Phase::AwaitingInvite
                    &&& final(self).sessions@[i as int].counters == RtpCounters { sequence_number: 0, timestamp: 0 }
                    &&& final(self).sessions@[i as int].next_chunk == 0
                },
                Route::Exhausted => *final(self) == *old(self) && old(self).next_serial == u32::MAX
                    && forall|j: int| 0 <= j < old(self).keys@.len() ==> !key_is(#[trigger] old(self).keys@[j], peer, call_id@),
            },
    {
        match self.find(peer, call_id) {
            Some(i) => Route::Existing(i),
            None => {
                if self.next_serial == u32::MAX {
                    return Route::Exhausted;
                }
                let serial = self.next_serial;
                let ssrc = self.ssrc_base.wrapping_add(serial);
                let session = CallSession::new(ssrc, RtpCounters::new(0, 0));
                let key = RouteKey { peer, call_id: slice_to_vec(call_id) };
                let i = self.keys.len();
                self.keys.push(key);
                self.sessions.push(session);
                self.serials.push(serial);
                self.next_serial = serial + 1;
                assert(forall|j: int| 0 <= j < i ==> self.keys@[j] == old(self).keys@[j]);
                Route::Created(i)
            },
        }
    }

    /// Feeds an event to the session at index `i`; no other session changes.
    pub fn step_session(&mut self, i: usize, event: &Event, prefs: &[u8], audio: &[u8]) -> (r: Action)
        requires
            old(self).wf(),
            i < old(self).sessions@.len(),
        ensures
            final(self).wf(),
            final(self).keys@ == old(self).keys@,
            final(self).serials@ == old(self).serials@,
            final(self).sessions@ == old(self).sessions@.update(i as int, final(self).sessions@[i as int]),
            (final(self).sessions@[i as int], r@) == crate::session::step_spec(
                old(self).sessions@[i as int],
                event@,
                prefs@,
                audio@,
            ),
    {
        let mut s = self.sessions[i];
        let r = s.step(event, prefs, audio);
        self.sessions.set(i, s);
        r
    }

    /// Drops the session at index `i` from the table, so that a later INVITE
    /// under its key starts afresh.
    pub fn remove(&mut self, i: usize)
        requires
            old(self).wf(),
            i < old(self).sessions@.len(),
        ensures
            final(self).wf(),
            final(self).keys@ == old(self).keys@.remove(i as int),
            final(self).sessions@ == old(self).sessions@.remove(i as int),
    {
        self.keys.remove(i);
        self.sessions.remove(i);
        self.serials.remove(i);
    }
}

/// Any two sessions in the table have different SSRCs, and so tell their
/// streams apart even when they come from the same address.
pub proof fn lemma_distinct_ssrcs(r: SessionRouter, i: int, j: int)
    requires
        r.wf(),
        0 <= i < r.sessions@.len(),
        0 <= j < r.sessions@.len(),
        i != j,
    ensures
        r.sessions@[i].ssrc != r.sessions@[j].ssrc,
{
    let a = r.serials@[i];
    let b = r.serials@[j];
    if i < j {
        assert(a != b);
    } else {
        assert(r.serials@[j] != r.serials@[i]);
    }
    assert(r.sessions@[i].wf());
    assert(r.sessions@[j].wf());
    let x: int = r.ssrc_base + a;
    let y: int = r.ssrc_base + b;
    if x % 0x1_0000_0000 == y % 0x1_0000_0000 {
        vstd::arithmetic::div_mod::lemma_fundamental_div_mod(x, 0x1_0000_0000);
        vstd::arithmetic::div_mod::lemma_fundamental_div_mod(y, 0x1_0000_0000);
        assert(x - y == 0x1_0000_0000 * (x / 0x1_0000_0000 - y / 0x1_0000_0000)) by (nonlinear_arith)
            requires
                x == 0x1_0000_0000 * (x / 0x1_0000_0000) + x % 0x1_0000_0000,
                y == 0x1_0000_0000 * (y / 0x1_0000_0000) + y % 0x1_0000_0000,
                x % 0x1_0000_0000 == y % 0x1_0000_0000,
        ;
        let q = x / 0x1_0000_0000 - y / 0x1_0000_0000;
        assert(q == 0) by (nonlinear_arith)
            requires
                x - y == 0x1_0000_0000 * q,
                -0x1_0000_0000 < x - y < 0x1_0000_0000,
        ;
    }
}

/// Two INVITEs with different Call-IDs from one address make two sessions:
/// the second does not find the first, and the sessions' SSRCs differ.
pub proof fn lemma_independent_sessions(r: SessionRouter, peer: PeerAddr, id1: Seq<u8>, id2: Seq<u8>, i: int)
    requires
        r.wf(),
        id1 != id2,
        0 <= i < r.keys@.len(),
        key_is(r.keys@[i], peer, id1),
    ensures
        !key_is(r.keys@[i], peer, id2),
        forall|j: int| 0 <= j < r.keys@.len() && j != i ==> r.sessions@[i].ssrc != #[trigger] r.sessions@[j].ssrc,
{
    assert forall|j: int| 0 <= j < r.keys@.len() && j != i implies r.sessions@[i].ssrc != #[trigger] r.sessions@[j].ssrc by {
        lemma_distinct_ssrcs(r, i, j);
    }
}

/// Whether two byte strings are equal.
pub fn bytes_eq(a: &[u8], b: &[u8]) -> (r: bool)
    ensures
        r == (a@ == b@),
{
    if a.len() != b.len() {
        return false;
    }
    let mut i: usize = 0;
    while i < a.len()
        invariant
            a@.len() == b@.len(),
            i <= a@.len(),
            forall|j: int| 0 <= j < i ==> a@[j] == b@[j],
        decreases a@.len() - i,
    {
        if a[i] != b[i] {
            return false;
        }
        i = i + 1;
    }
    assert(a@ == b@);
    true
}

/// A copy of a byte slice.
pub fn slice_to_vec(s: &[u8]) -> (r: Vec<u8>)
    ensures
        r@ == s@,
{
    let mut v: Vec<u8> = Vec::with_capacity(s.len());
    let mut i: usize = 0;
    while i < s.len()
        invariant
            i <= s@.len(),
            v@ == s@.subrange(0, i as int),
        decreases s@.len() - i,
    {
        v.push(s[i]);
        i = i + 1;
    }
    assert(v@ == s@);
    v
}

} // verus!
