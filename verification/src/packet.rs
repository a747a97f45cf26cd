//! The packet contract: a protocol message supports both directions of
//! the codec, never just one.
use vstd::prelude::*;

use crate::decoder::Decoder;
use crate::encoder::Encoder;

verus! {

/// The direction a packet travels in.
#[derive(Debug, Clone, PartialEq, Eq, Structural, Hash, Copy)]
pub enum PacketFlow {
    Clientbound,
    Serverbound,
}

/// A protocol message: exactly the conjunction of the encode and the
/// decode capability.
pub trait Packet: Encoder + Decoder {

}

} // verus!
