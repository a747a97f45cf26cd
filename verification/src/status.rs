//! The status phase: the server-list ping. Clientbound responses carry
//! the status payload and the pong echo; serverbound requests carry
//! nothing or the ping timestamp.
use vstd::prelude::*;

use crate::decoder::Decoder;
use crate::encoder::{lemma_prefix_reflexive, string_wire, Encoder};
use crate::error::CodecError;
use crate::packet::Packet;

verus! {

/// The clientbound status response: the status document as one string.
pub struct StatusResponse {
    pub status: String,
}

impl DeepView for StatusResponse {
    type V = Seq<char>;

    open spec fn deep_view(&self) -> Seq<char> {
        self.status@
    }
}

impl Encoder for StatusResponse {
    open spec fn wire(&self) -> Seq<u8> {
        string_wire(self.status@)
    }

    open spec fn encodable(&self) -> bool {
        self.status.encodable()
    }

    fn byte_len(&self) -> (r: usize) {
        self.status.byte_len()
    }

    fn encode(&self, buf: &mut Vec<u8>) -> (r: Result<(), CodecError>) {
        self.status.encode(buf)
    }
}

impl Decoder for StatusResponse {
    open spec fn spec_decode(s: Seq<u8>, i: int) -> Result<(Seq<char>, int), CodecError> {
        String::spec_decode(s, i)
    }

    fn decode(buf: &[u8], pos: &mut usize) -> (r: Result<Self, CodecError>) {
        match String::decode(buf, pos) {
            Ok(status) => Ok(StatusResponse { status }),
            Err(e) => Err(e),
        }
    }
}

impl Packet for StatusResponse {

}

/// The clientbound pong: the ping timestamp echoed back.
pub struct PongResponse {
    pub time: u64,
}

impl DeepView for PongResponse {
    type V = u64;

    open spec fn deep_view(&self) -> u64 {
        self.time
    }
}

impl Encoder for PongResponse {
    open spec fn wire(&self) -> Seq<u8> {
        self.time.wire()
    }

    open spec fn encodable(&self) -> bool {
        true
    }

    fn byte_len(&self) -> (r: usize) {
        self.time.byte_len()
    }

    fn encode(&self, buf: &mut Vec<u8>) -> (r: Result<(), CodecError>) {
        self.time.encode(buf)
    }
}

impl Decoder for PongResponse {
    open spec fn spec_decode(s: Seq<u8>, i: int) -> Result<(u64, int), CodecError> {
        u64::spec_decode(s, i)
    }

    fn decode(buf: &[u8], pos: &mut usize) -> (r: Result<Self, CodecError>) {
        match u64::decode(buf, pos) {
            Ok(time) => Ok(PongResponse { time }),
            Err(e) => Err(e),
        }
    }
}

impl Packet for PongResponse {

}

/// The serverbound status request: it carries no fields.
pub struct StatusRequest;

impl DeepView for StatusRequest {
    type V = ();

    open spec fn deep_view(&self) -> () {
        ()
    }
}

impl Encoder for StatusRequest {
    open spec fn wire(&self) -> Seq<u8> {
        Seq::empty()
    }

    open spec fn encodable(&self) -> bool {
        true
    }

    fn byte_len(&self) -> (r: usize) {
        0
    }

    fn encode(&self, buf: &mut Vec<u8>) -> (r: Result<(), CodecError>) {
        proof {
            assert(buf@ =~= buf@ + self.wire());
            lemma_prefix_reflexive(buf@);
        }
        Ok(())
    }
}

impl Decoder for StatusRequest {
    open spec fn spec_decode(s: Seq<u8>, i: int) -> Result<((), int), CodecError> {
        if 0 <= i <= s.len() {
            Ok(((), i))
        } else {
            Err(CodecError::UnexpectedEof)
        }
    }

    fn decode(buf: &[u8], pos: &mut usize) -> (r: Result<Self, CodecError>) {
        Ok(StatusRequest)
    }
}

impl Packet for StatusRequest {

}

/// The serverbound ping request: a 64-bit timestamp.
pub struct PingRequest {
    pub time: u64,
}

impl DeepView for PingRequest {
    type V = u64;

    open spec fn deep_view(&self) -> u64 {
        self.time
    }
}

impl Encoder for PingRequest {
    open spec fn wire(&self) -> Seq<u8> {
        self.time.wire()
    }

    open spec fn encodable(&self) -> bool {
        true
    }

    fn byte_len(&self) -> (r: usize) {
        self.time.byte_len()
    }

    fn encode(&self, buf: &mut Vec<u8>) -> (r: Result<(), CodecError>) {
        self.time.encode(buf)
    }
}

impl Decoder for PingRequest {
    open spec fn spec_decode(s: Seq<u8>, i: int) -> Result<(u64, int), CodecError> {
        u64::spec_decode(s, i)
    }

    fn decode(buf: &[u8], pos: &mut usize) -> (r: Result<Self, CodecError>) {
        match u64::decode(buf, pos) {
            Ok(time) => Ok(PingRequest { time }),
            Err(e) => Err(e),
        }
    }
}

impl Packet for PingRequest {

}

} // verus!
