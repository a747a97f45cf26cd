//! The encode capability: every wire value knows its exact byte image,
//! its length, and whether encoding can succeed at all.
use vstd::prelude::*;

use crate::error::CodecError;
use crate::position::{block_pos_pack, BlockPosition, ChunkPosition};
use crate::types::{LengthPrefix, Uuid, VarInt};
use crate::wire::{
    be_bytes, lemma_be_bytes_len, push_be, u128_of_i128, u16_of_i16, u32_of_i32, u64_of_i64,
    u8_of_i8,
};
use vstd::utf8::encode_utf8;

verus! {

/// A value that can be written to a byte sink.
///
/// `wire` is the mathematical image of the value on the wire; `encode`
/// either appends exactly that image or reports why it cannot.
pub trait Encoder: Sized {
    /// The exact bytes this value produces on a successful encode.
    spec fn wire(&self) -> Seq<u8>;

    /// Whether `encode` succeeds on this value.
    spec fn encodable(&self) -> bool;

    /// The exact size of the encoding, without performing it.
    fn byte_len(&self) -> (r: usize)
        requires
            self.wire().len() <= usize::MAX,
        ensures
            r == self.wire().len(),
    ;

    /// Appends the value's wire image to `buf`.
    fn encode(&self, buf: &mut Vec<u8>) -> (r: Result<(), CodecError>)
        ensures
            r is Ok <==> self.encodable(),
            r is Ok ==> final(buf)@ == old(buf)@ + self.wire(),
            old(buf)@.is_prefix_of(final(buf)@),
    ;

    /// Encodes the value into a fresh buffer.
    fn to_bytes(&self) -> (r: Result<Vec<u8>, CodecError>)
        ensures
            match r {
                Ok(b) => self.encodable() && b@ == self.wire(),
                Err(_) => !self.encodable(),
            },
    {
        let mut buf: Vec<u8> = Vec::new();
        match self.encode(&mut buf) {
            Ok(()) => {
                proof {
                    assert(buf@ =~= self.wire());
                }
                Ok(buf)
            },
            Err(e) => Err(e),
        }
    }
}

/// A sequence is a prefix of itself extended by anything.
pub proof fn lemma_prefix_of_append(a: Seq<u8>, b: Seq<u8>)
    ensures
        a.is_prefix_of(a + b),
{
    assert(a =~= (a + b).subrange(0, a.len() as int));
}

/// A sequence is a prefix of itself.
pub proof fn lemma_prefix_reflexive(a: Seq<u8>)
    ensures
        a.is_prefix_of(a),
{
    assert(a =~= a.subrange(0, a.len() as int));
}

/// Being a prefix carries over a middle sequence.
pub proof fn lemma_prefix_transitive(a: Seq<u8>, b: Seq<u8>, c: Seq<u8>)
    requires
        a.is_prefix_of(b),
        b.is_prefix_of(c),
    ensures
        a.is_prefix_of(c),
{
    assert forall|t: int| 0 <= t < a.len() implies a[t] == c[t] by {
        assert(a[t] == b.subrange(0, a.len() as int)[t]);
        assert(b[t] == c.subrange(0, b.len() as int)[t]);
    }
    assert(a =~= c.subrange(0, a.len() as int));
}

/// An optional value: one presence byte, then the value when present.
impl<V: Encoder> Encoder for Option<V> {
    open spec fn wire(&self) -> Seq<u8> {
        match self {
            Some(v) => seq![1u8] + v.wire(),
            None => seq![0u8],
        }
    }

    open spec fn encodable(&self) -> bool {
        match self {
            Some(v) => v.encodable(),
            None => true,
        }
    }

    fn byte_len(&self) -> (r: usize) {
        match self {
            Some(v) => 1 + v.byte_len(),
            None => 1,
        }
    }

    fn encode(&self, buf: &mut Vec<u8>) -> (r: Result<(), CodecError>) {
        let ghost pre = buf@;
        match self {
            Some(value) => {
                buf.push(1u8);
                proof {
                    assert(buf@ =~= pre + seq![1u8]);
                    lemma_prefix_of_append(pre, seq![1u8]);
                }
                let r = value.encode(buf);
                proof {
                    if r is Ok {
                        assert(buf@ =~= pre + self.wire());
                    }
                    assert(pre.is_prefix_of(buf@));
                }
                r
            },
            None => {
                buf.push(0u8);
                proof {
                    assert(buf@ =~= pre + self.wire());
                    lemma_prefix_of_append(pre, self.wire());
                }
                Ok(())
            },
        }
    }
}

/// A chunk position: its two coordinates as big-endian 32-bit values.
impl Encoder for ChunkPosition {
    open spec fn wire(&self) -> Seq<u8> {
        self.x.wire() + self.z.wire()
    }

    open spec fn encodable(&self) -> bool {
        true
    }

    fn byte_len(&self) -> (r: usize) {
        proof {
            lemma_be_bytes_len(u32_of_i32(self.x) as nat, 4);
            lemma_be_bytes_len(u32_of_i32(self.z) as nat, 4);
        }
        8
    }

    fn encode(&self, buf: &mut Vec<u8>) -> (r: Result<(), CodecError>) {
        let ghost pre = buf@;
        match self.x.encode(buf) {
            Ok(()) => {},
            Err(e) => {
                return Err(e);
            },
        }
        match self.z.encode(buf) {
            Ok(()) => {},
            Err(e) => {
                return Err(e);
            },
        }
        proof {
            assert(buf@ =~= pre + self.wire());
            lemma_prefix_of_append(pre, self.wire());
        }
        Ok(())
    }
}

/// A block position: its coordinates packed into one big-endian 64-bit
/// word, 26 bits of `x`, 26 of `z` and 12 of `y`.
impl Encoder for BlockPosition {
    open spec fn wire(&self) -> Seq<u8> {
        be_bytes(block_pos_pack(*self) as nat, 8)
    }

    open spec fn encodable(&self) -> bool {
        true
    }

    fn byte_len(&self) -> (r: usize) {
        proof {
            lemma_be_bytes_len(block_pos_pack(*self) as nat, 8);
        }
        8
    }

    fn encode(&self, buf: &mut Vec<u8>) -> (r: Result<(), CodecError>) {
        let xm = 0u64.wrapping_add_signed(self.x as i64) % 0x4000000;
        let zm = 0u64.wrapping_add_signed(self.z as i64) % 0x4000000;
        let ym = 0u64.wrapping_add_signed(self.y as i64) % 0x1000;
        let packed = xm * 0x4000000000 + zm * 0x1000 + ym;
        proof {
            assert(packed as int == block_pos_pack(*self));
        }
        push_be(buf, packed as u128, 8);
        proof {
            assert(old(buf)@ + be_bytes(packed as nat, 8) =~= old(buf)@ + self.wire());
            lemma_prefix_of_append(old(buf)@, self.wire());
        }
        Ok(())
    }
}

/// The wire image of a character string: its UTF-8 byte length as a
/// `VarInt`, then its UTF-8 bytes.
pub open spec fn string_wire(chars: Seq<char>) -> Seq<u8> {
    VarInt::spec_from_len(encode_utf8(chars).len() as int).wire() + encode_utf8(chars)
}

/// A length-capped UTF-8 string: a `VarInt` byte count up to 32767,
/// then that many UTF-8 bytes.
impl Encoder for String {
    open spec fn wire(&self) -> Seq<u8> {
        string_wire(self@)
    }

    open spec fn encodable(&self) -> bool {
        encode_utf8(self@).len() <= 32767
    }

    fn byte_len(&self) -> (r: usize) {
        let n = self.as_str().as_bytes().len();
        let prefix = VarInt::from_len(n);
        prefix.byte_len() + n
    }

    fn encode(&self, buf: &mut Vec<u8>) -> (r: Result<(), CodecError>) {
        let ghost pre = buf@;
        let n = self.as_str().as_bytes().len();
        if n > 32767 {
            proof {
                assert(buf@.is_prefix_of(buf@)) by {
                    assert(buf@ =~= buf@.subrange(0, buf@.len() as int));
                }
            }
            return Err(CodecError::StringTooLong);
        }
        let prefix = VarInt::from_len(n);
        match prefix.encode(buf) {
            Ok(()) => {},
            Err(e) => {
                return Err(e);
            },
        }
        buf.extend_from_slice(self.as_str().as_bytes());
        proof {
            assert(buf@ =~= pre + self.wire());
            lemma_prefix_of_append(pre, self.wire());
        }
        Ok(())
    }
}

/// A 128-bit identifier: its value in 16 big-endian bytes.
impl Encoder for Uuid {
    open spec fn wire(&self) -> Seq<u8> {
        be_bytes(self.0 as nat, 16)
    }

    open spec fn encodable(&self) -> bool {
        true
    }

    fn byte_len(&self) -> (r: usize) {
        proof {
            lemma_be_bytes_len(self.0 as nat, 16);
        }
        16
    }

    fn encode(&self, buf: &mut Vec<u8>) -> (r: Result<(), CodecError>) {
        push_be(buf, self.0, 16);
        proof {
            lemma_prefix_of_append(old(buf)@, self.wire());
        }
        Ok(())
    }
}

/// A boolean: exactly one byte, 0 for false and 1 for true.
impl Encoder for bool {
    open spec fn wire(&self) -> Seq<u8> {
        seq![if *self { 1u8 } else { 0u8 }]
    }

    open spec fn encodable(&self) -> bool {
        true
    }

    fn byte_len(&self) -> (r: usize) {
        1
    }

    fn encode(&self, buf: &mut Vec<u8>) -> (r: Result<(), CodecError>) {
        let ghost pre = buf@;
        buf.push(if *self { 1u8 } else { 0u8 });
        proof {
            assert(buf@ =~= pre + self.wire());
            lemma_prefix_of_append(pre, self.wire());
        }
        Ok(())
    }
}

impl Encoder for u8 {
    open spec fn wire(&self) -> Seq<u8> {
        be_bytes(*self as nat, 1)
    }

    open spec fn encodable(&self) -> bool {
        true
    }

    fn byte_len(&self) -> (r: usize) {
        proof {
            lemma_be_bytes_len(*self as nat, 1);
        }
        1
    }

    fn encode(&self, buf: &mut Vec<u8>) -> (r: Result<(), CodecError>) {
        push_be(buf, *self as u128, 1);
        proof {
            lemma_prefix_of_append(old(buf)@, self.wire());
        }
        Ok(())
    }
}

impl Encoder for u16 {
    open spec fn wire(&self) -> Seq<u8> {
        be_bytes(*self as nat, 2)
    }

    open spec fn encodable(&self) -> bool {
        true
    }

    fn byte_len(&self) -> (r: usize) {
        proof {
            lemma_be_bytes_len(*self as nat, 2);
        }
        2
    }

    fn encode(&self, buf: &mut Vec<u8>) -> (r: Result<(), CodecError>) {
        push_be(buf, *self as u128, 2);
        proof {
            lemma_prefix_of_append(old(buf)@, self.wire());
        }
        Ok(())
    }
}

impl Encoder for u32 {
    open spec fn wire(&self) -> Seq<u8> {
        be_bytes(*self as nat, 4)
    }

    open spec fn encodable(&self) -> bool {
        true
    }

    fn byte_len(&self) -> (r: usize) {
        proof {
            lemma_be_bytes_len(*self as nat, 4);
        }
        4
    }

    fn encode(&self, buf: &mut Vec<u8>) -> (r: Result<(), CodecError>) {
        push_be(buf, *self as u128, 4);
        proof {
            lemma_prefix_of_append(old(buf)@, self.wire());
        }
        Ok(())
    }
}

impl Encoder for u64 {
    open spec fn wire(&self) -> Seq<u8> {
        be_bytes(*self as nat, 8)
    }

    open spec fn encodable(&self) -> bool {
        true
    }

    fn byte_len(&self) -> (r: usize) {
        proof {
            lemma_be_bytes_len(*self as nat, 8);
        }
        8
    }

    fn encode(&self, buf: &mut Vec<u8>) -> (r: Result<(), CodecError>) {
        push_be(buf, *self as u128, 8);
        proof {
            lemma_prefix_of_append(old(buf)@, self.wire());
        }
        Ok(())
    }
}

impl Encoder for u128 {
    open spec fn wire(&self) -> Seq<u8> {
        be_bytes(*self as nat, 16)
    }

    open spec fn encodable(&self) -> bool {
        true
    }

    fn byte_len(&self) -> (r: usize) {
        proof {
            lemma_be_bytes_len(*self as nat, 16);
        }
        16
    }

    fn encode(&self, buf: &mut Vec<u8>) -> (r: Result<(), CodecError>) {
        push_be(buf, *self, 16);
        proof {
            lemma_prefix_of_append(old(buf)@, self.wire());
        }
        Ok(())
    }
}

impl Encoder for i8 {
    open spec fn wire(&self) -> Seq<u8> {
        be_bytes(u8_of_i8(*self) as nat, 1)
    }

    open spec fn encodable(&self) -> bool {
        true
    }

    fn byte_len(&self) -> (r: usize) {
        proof {
            lemma_be_bytes_len(u8_of_i8(*self) as nat, 1);
        }
        1
    }

    fn encode(&self, buf: &mut Vec<u8>) -> (r: Result<(), CodecError>) {
        let u = 0u8.wrapping_add_signed(*self);
        push_be(buf, u as u128, 1);
        proof {
            lemma_prefix_of_append(old(buf)@, self.wire());
        }
        Ok(())
    }
}

impl Encoder for i16 {
    open spec fn wire(&self) -> Seq<u8> {
        be_bytes(u16_of_i16(*self) as nat, 2)
    }

    open spec fn encodable(&self) -> bool {
        true
    }

    fn byte_len(&self) -> (r: usize) {
        proof {
            lemma_be_bytes_len(u16_of_i16(*self) as nat, 2);
        }
        2
    }

    fn encode(&self, buf: &mut Vec<u8>) -> (r: Result<(), CodecError>) {
        let u = 0u16.wrapping_add_signed(*self);
        push_be(buf, u as u128, 2);
        proof {
            lemma_prefix_of_append(old(buf)@, self.wire());
        }
        Ok(())
    }
}

impl Encoder for i32 {
    open spec fn wire(&self) -> Seq<u8> {
        be_bytes(u32_of_i32(*self) as nat, 4)
    }

    open spec fn encodable(&self) -> bool {
        true
    }

    fn byte_len(&self) -> (r: usize) {
        proof {
            lemma_be_bytes_len(u32_of_i32(*self) as nat, 4);
        }
        4
    }

    fn encode(&self, buf: &mut Vec<u8>) -> (r: Result<(), CodecError>) {
        let u = 0u32.wrapping_add_signed(*self);
        push_be(buf, u as u128, 4);
        proof {
            lemma_prefix_of_append(old(buf)@, self.wire());
        }
        Ok(())
    }
}

impl Encoder for i64 {
    open spec fn wire(&self) -> Seq<u8> {
        be_bytes(u64_of_i64(*self) as nat, 8)
    }

    open spec fn encodable(&self) -> bool {
        true
    }

    fn byte_len(&self) -> (r: usize) {
        proof {
            lemma_be_bytes_len(u64_of_i64(*self) as nat, 8);
        }
        8
    }

    fn encode(&self, buf: &mut Vec<u8>) -> (r: Result<(), CodecError>) {
        let u = 0u64.wrapping_add_signed(*self);
        push_be(buf, u as u128, 8);
        proof {
            lemma_prefix_of_append(old(buf)@, self.wire());
        }
        Ok(())
    }
}

impl Encoder for i128 {
    open spec fn wire(&self) -> Seq<u8> {
        be_bytes(u128_of_i128(*self) as nat, 16)
    }

    open spec fn encodable(&self) -> bool {
        true
    }

    fn byte_len(&self) -> (r: usize) {
        proof {
            lemma_be_bytes_len(u128_of_i128(*self) as nat, 16);
        }
        16
    }

    fn encode(&self, buf: &mut Vec<u8>) -> (r: Result<(), CodecError>) {
        let u = 0u128.wrapping_add_signed(*self);
        push_be(buf, u, 16);
        proof {
            lemma_prefix_of_append(old(buf)@, self.wire());
        }
        Ok(())
    }
}

} // verus!
