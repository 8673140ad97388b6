//! The core of a selective forwarding unit for WebRTC rooms.
//!
//! Peers connect through a host media gateway; the gateway terminates
//! transport and hands the core plain values: signalling text, packet
//! bytes, connection identities. The core decides everything else —
//! message decoding, room membership, the forwarding relation, blocks,
//! notification fan-out and keyframe requests — and is verified.
//! The embedding layer around the gateway performs the calls the core
//! asks for through its returned effects.

pub mod config;
pub mod errors;
pub mod json;
pub mod messages;
pub mod rtcp;
pub mod sessions;
pub mod signalling;
pub mod subscriptions;
pub mod switchboard;
