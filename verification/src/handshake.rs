//! The handshake phase: the single serverbound packet that opens every
//! connection and selects the next protocol state.
use vstd::prelude::*;

use crate::decoder::Decoder;
use crate::encoder::{lemma_prefix_of_append, lemma_prefix_transitive, string_wire, Encoder};
use crate::error::CodecError;
use crate::laws::{lemma_string_round_trip, lemma_u16_round_trip};
use crate::packet::Packet;
use crate::types::{lemma_varint_round_trip, VarInt};
use vstd::utf8::encode_utf8;

verus! {

/// The serverbound handshake: protocol version, server address, server
/// port, and the desired next state, in that order.
pub struct Handshake {
    pub protocol_version: VarInt,
    pub server_address: String,
    pub server_port: u16,
    pub next_state: VarInt,
}

impl DeepView for Handshake {
    type V = (VarInt, Seq<char>, u16, VarInt);

    open spec fn deep_view(&self) -> (VarInt, Seq<char>, u16, VarInt) {
        (self.protocol_version, self.server_address@, self.server_port, self.next_state)
    }
}

impl Encoder for Handshake {
    open spec fn wire(&self) -> Seq<u8> {
        self.protocol_version.wire() + string_wire(self.server_address@) + self.server_port.wire()
            + self.next_state.wire()
    }

    open spec fn encodable(&self) -> bool {
        encode_utf8(self.server_address@).len() <= 32767
    }

    fn byte_len(&self) -> (r: usize) {
        self.protocol_version.byte_len() + self.server_address.byte_len()
            + self.server_port.byte_len() + self.next_state.byte_len()
    }

    fn encode(&self, buf: &mut Vec<u8>) -> (r: Result<(), CodecError>) {
        let ghost pre = buf@;
        match self.protocol_version.encode(buf) {
            Ok(()) => {},
            Err(e) => {
                return Err(e);
            },
        }
        let ghost b1 = buf@;
        match self.server_address.encode(buf) {
            Ok(()) => {},
            Err(e) => {
                proof {
                    lemma_prefix_transitive(pre, b1, buf@);
                }
                return Err(e);
            },
        }
        match self.server_port.encode(buf) {
            Ok(()) => {},
            Err(e) => {
                return Err(e);
            },
        }
        match self.next_state.encode(buf) {
            Ok(()) => {},
            Err(e) => {
                return Err(e);
            },
        }
        proof {
            assert(buf@ =~= pre + self.wire());
            lemma_prefix_of_append(pre, self.wire());
        }
        Ok(())
    }
}

impl Decoder for Handshake {
    open spec fn spec_decode(s: Seq<u8>, i: int) -> Result<
        ((VarInt, Seq<char>, u16, VarInt), int),
        CodecError,
    > {
        match VarInt::spec_decode(s, i) {
            Ok((protocol_version, j)) => match String::spec_decode(s, j) {
                Ok((server_address, j)) => match u16::spec_decode(s, j) {
                    Ok((server_port, j)) => match VarInt::spec_decode(s, j) {
                        Ok((next_state, j)) => Ok(
                            ((protocol_version, server_address, server_port, next_state), j),
                        ),
                        Err(e) => Err(e),
                    },
                    Err(e) => Err(e),
                },
                Err(e) => Err(e),
            },
            Err(e) => Err(e),
        }
    }

    fn decode(buf: &[u8], pos: &mut usize) -> (r: Result<Self, CodecError>) {
        let protocol_version = match VarInt::decode(buf, pos) {
            Ok(v) => v,
            Err(e) => {
                return Err(e);
            },
        };
        let server_address = match String::decode(buf, pos) {
            Ok(v) => v,
            Err(e) => {
                return Err(e);
            },
        };
        let server_port = match u16::decode(buf, pos) {
            Ok(v) => v,
            Err(e) => {
                return Err(e);
            },
        };
        let next_state = match VarInt::decode(buf, pos) {
            Ok(v) => v,
            Err(e) => {
                return Err(e);
            },
        };
        Ok(Handshake { protocol_version, server_address, server_port, next_state })
    }
}

impl Packet for Handshake {

}

/// End to end: decoding the encoding of any handshake yields a packet
/// with identical fields, wherever the encoding stands in the stream.
pub proof fn lemma_handshake_round_trip(h: Handshake, prefix: Seq<u8>, suffix: Seq<u8>)
    requires
        h.encodable(),
    ensures
        Handshake::spec_decode(prefix + h.wire() + suffix, prefix.len() as int) == Ok::<
            ((VarInt, Seq<char>, u16, VarInt), int),
            CodecError,
        >((h.deep_view(), prefix.len() + h.wire().len() as int)),
{
    let s = prefix + h.wire() + suffix;
    let w1 = h.protocol_version.wire();
    let w2 = string_wire(h.server_address@);
    let w3 = h.server_port.wire();
    let w4 = h.next_state.wire();
    assert(s =~= prefix + w1 + (w2 + w3 + w4 + suffix));
    lemma_varint_round_trip(h.protocol_version, prefix, w2 + w3 + w4 + suffix);
    let p1 = prefix + w1;
    assert(s =~= p1 + w2 + (w3 + w4 + suffix));
    lemma_string_round_trip(h.server_address@, p1, w3 + w4 + suffix);
    let p2 = p1 + w2;
    assert(s =~= p2 + w3 + (w4 + suffix));
    lemma_u16_round_trip(h.server_port, p2, w4 + suffix);
    let p3 = p2 + w3;
    assert(s =~= p3 + w4 + suffix);
    lemma_varint_round_trip(h.next_state, p3, suffix);
    crate::wire::lemma_be_bytes_len(h.server_port as nat, 2);
    assert(p3.len() + w4.len() == prefix.len() + h.wire().len());
}

} // verus!
