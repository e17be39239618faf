//! The protocol core of a MASQUE proxy server: HTTP/3 with QPACK, HTTP
//! Datagrams, the destination policy, and the rules that ration what a peer may
//! hold, each with a contract that Verus proves.
//!
//! Nothing here reads a socket or waits: every decision is a function of what
//! has arrived so far.

pub mod buf;
pub mod config;
pub mod datagram;
pub mod datagram_wire;
pub mod h3;
pub mod h3api;
pub mod ip;
pub mod journal;
pub mod logfmt;
pub mod logfmt_laws;
pub mod net;
pub mod net_laws;
pub mod policy;
pub mod policy_laws;
pub mod quic;
pub mod quic_laws;
pub mod text;
