//! A small SIP endpoint: it answers an INVITE with an SDP answer, waits for
//! the ACK, streams G.711 audio as RTP at a fixed cadence and hangs up with
//! a BYE. The decisions live here; sockets, timers and threads are the host's.

pub mod endpoint;
pub mod router;
pub mod rtp;
pub mod sdp;
pub mod session;
pub mod sip;
pub mod text;
