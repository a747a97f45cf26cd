//! A binary wire-protocol codec and packet-framing library for a
//! Minecraft-style networked game protocol.
//!
//! The library provides the primitive codecs (booleans, big-endian
//! integers, length-capped UTF-8 strings, 128-bit identifiers), the
//! variable-length integer codec, generic length-prefixed containers,
//! and the packet catalogue for the handshake, status and login phases.
//! Every encoder and decoder carries a contract that pins the produced
//! and consumed bytes down exactly.
pub mod blocklist;
pub mod decoder;
pub mod encoder;
pub mod error;
pub mod handshake;
pub mod laws;
pub mod login;
pub mod packet;
pub mod position;
pub mod resources;
pub mod status;
pub mod text;
pub mod types;
pub mod wire;
