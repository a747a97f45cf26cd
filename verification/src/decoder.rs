//! The decode capability: every wire value comes with a mathematical
//! parser, and the executable decoder is proved to agree with it on
//! success and on failure alike.
use vstd::prelude::*;

use crate::error::CodecError;
use crate::position::{
    block_pos_unpack_x, block_pos_unpack_y, block_pos_unpack_z, BlockPosition, ChunkPosition,
};
use crate::types::{Uuid, VarInt};
use crate::wire::{
    be_value, i128_of_u128, i16_of_u16, i32_of_u32, i64_of_u64, i8_of_u8, lemma_be_value_bound,
    lemma_pow256_le_16, pow256, read_be, u64_of_i64,
};
use vstd::utf8::{decode_utf8, valid_utf8};

verus! {

/// A value that can be read back from a byte source.
///
/// `spec_decode` is the mathematical parser over the source's bytes: it
/// yields the parsed value's model (its `DeepView`) and the position one
/// past the value, or the exact error. `decode` is proved to agree with
/// it in every case, so "returns `Ok`" and "the parser accepts" are the
/// same statement.
pub trait Decoder: Sized + DeepView {
    /// The mathematical parser for this type, from `s` at position `i`.
    spec fn spec_decode(s: Seq<u8>, i: int) -> Result<(<Self as DeepView>::V, int), CodecError>;

    /// Reads one value from `buf` at `*pos`, advancing `*pos` past it.
    fn decode(buf: &[u8], pos: &mut usize) -> (r: Result<Self, CodecError>)
        requires
            *old(pos) <= buf@.len(),
        ensures
            *old(pos) <= *final(pos) <= buf@.len(),
            match r {
                Ok(v) => Self::spec_decode(buf@, *old(pos) as int) == Ok::<
                    (<Self as DeepView>::V, int),
                    CodecError,
                >((v.deep_view(), *final(pos) as int)),
                Err(e) => Self::spec_decode(buf@, *old(pos) as int) == Err::<
                    (<Self as DeepView>::V, int),
                    CodecError,
                >(e),
            },
    ;

    /// Reads one value from the start of `bytes`; trailing bytes are left
    /// unread, as a framing layer hands over one frame at a time.
    fn from_bytes(bytes: &[u8]) -> (r: Result<Self, CodecError>)
        ensures
            match r {
                Ok(v) => Self::spec_decode(bytes@, 0) is Ok && Self::spec_decode(bytes@, 0)
                    == Ok::<(<Self as DeepView>::V, int), CodecError>(
                    (v.deep_view(), Self::spec_decode(bytes@, 0)->Ok_0.1),
                ),
                Err(e) => Self::spec_decode(bytes@, 0) == Err::<
                    (<Self as DeepView>::V, int),
                    CodecError,
                >(e),
            },
    {
        let mut pos: usize = 0;
        Self::decode(bytes, &mut pos)
    }
}

/// An optional value: a boolean presence byte, then the value when present.
impl<V: Decoder> Decoder for Option<V> {
    open spec fn spec_decode(s: Seq<u8>, i: int) -> Result<
        (Option<<V as DeepView>::V>, int),
        CodecError,
    > {
        match bool::spec_decode(s, i) {
            Ok((false, j)) => Ok((None, j)),
            Ok((true, j)) => match V::spec_decode(s, j) {
                Ok((m, k)) => Ok((Some(m), k)),
                Err(e) => Err(e),
            },
            Err(e) => Err(e),
        }
    }

    fn decode(buf: &[u8], pos: &mut usize) -> (r: Result<Self, CodecError>) {
        let present = match bool::decode(buf, pos) {
            Ok(b) => b,
            Err(e) => {
                return Err(e);
            },
        };
        if present {
            match V::decode(buf, pos) {
                Ok(v) => Ok(Some(v)),
                Err(e) => Err(e),
            }
        } else {
            Ok(None)
        }
    }
}

/// A chunk position: two big-endian 32-bit coordinates, `x` then `z`.
impl Decoder for ChunkPosition {
    open spec fn spec_decode(s: Seq<u8>, i: int) -> Result<(ChunkPosition, int), CodecError> {
        match i32::spec_decode(s, i) {
            Ok((x, j)) => match i32::spec_decode(s, j) {
                Ok((z, k)) => Ok((ChunkPosition { x, z }, k)),
                Err(e) => Err(e),
            },
            Err(e) => Err(e),
        }
    }

    fn decode(buf: &[u8], pos: &mut usize) -> (r: Result<Self, CodecError>) {
        let x = match i32::decode(buf, pos) {
            Ok(x) => x,
            Err(e) => {
                return Err(e);
            },
        };
        let z = match i32::decode(buf, pos) {
            Ok(z) => z,
            Err(e) => {
                return Err(e);
            },
        };
        Ok(ChunkPosition { x, z })
    }
}

/// A block position: one big-endian 64-bit word unpacked into 26 bits
/// of `x`, 26 of `z` and 12 of `y` (the `y` field always read as a
/// non-negative value).
impl Decoder for BlockPosition {
    open spec fn spec_decode(s: Seq<u8>, i: int) -> Result<(BlockPosition, int), CodecError> {
        match i64::spec_decode(s, i) {
            Ok((v, j)) => {
                let u = u64_of_i64(v);
                Ok(
                    (
                        BlockPosition {
                            x: block_pos_unpack_x(u) as i32,
                            y: block_pos_unpack_y(u) as i32,
                            z: block_pos_unpack_z(u) as i32,
                        },
                        j,
                    ),
                )
            },
            Err(e) => Err(e),
        }
    }

    fn decode(buf: &[u8], pos: &mut usize) -> (r: Result<Self, CodecError>) {
        let v = match i64::decode(buf, pos) {
            Ok(v) => v,
            Err(e) => {
                return Err(e);
            },
        };
        let u = 0u64.wrapping_add_signed(v);
        let xu = u / 0x4000000000;
        let zu = (u / 0x1000) % 0x4000000;
        let y = (u % 0x1000) as i32;
        proof {
            assert(xu < 0x4000000) by (nonlinear_arith)
                requires
                    xu == u / 0x4000000000,
                    u <= 0xffffffffffffffffu64,
            ;
        }
        let x = if xu < 0x2000000 {
            xu as i32
        } else {
            ((xu as i64) - 0x4000000) as i32
        };
        let z = if zu < 0x2000000 {
            zu as i32
        } else {
            ((zu as i64) - 0x4000000) as i32
        };
        Ok(BlockPosition { x, y, z })
    }
}

/// Relies on `String::from_utf8`: it succeeds exactly on byte sequences
/// that are valid UTF-8, and yields the characters those bytes encode.
#[verifier::external_body]
fn string_from_utf8(bytes: Vec<u8>) -> (r: Option<String>)
    ensures
        r is Some <==> valid_utf8(bytes@),
        r is Some ==> r->Some_0@ == decode_utf8(bytes@),
{
    match String::from_utf8(bytes) {
        Ok(s) => Some(s),
        Err(_) => None,
    }
}

/// A length-capped UTF-8 string: the declared byte count is checked
/// against the 32767 cap before any body byte is read, then exactly
/// that many bytes are read and validated as UTF-8.
impl Decoder for String {
    open spec fn spec_decode(s: Seq<u8>, i: int) -> Result<(Seq<char>, int), CodecError> {
        match VarInt::spec_decode(s, i) {
            Ok((l, j)) => {
                let n = l.0 as int;
                if !(0 <= n <= 32767) {
                    Err(CodecError::StringTooLong)
                } else if j + n <= s.len() {
                    let body = s.subrange(j, j + n);
                    if valid_utf8(body) {
                        Ok((decode_utf8(body), j + n))
                    } else {
                        Err(CodecError::InvalidUtf8)
                    }
                } else {
                    Err(CodecError::UnexpectedEof)
                }
            },
            Err(e) => Err(e),
        }
    }

    fn decode(buf: &[u8], pos: &mut usize) -> (r: Result<Self, CodecError>) {
        let prefix = match VarInt::decode(buf, pos) {
            Ok(l) => l,
            Err(e) => {
                return Err(e);
            },
        };
        if prefix.0 < 0 || prefix.0 > 32767 {
            return Err(CodecError::StringTooLong);
        }
        let n = prefix.0 as usize;
        if buf.len() - *pos < n {
            return Err(CodecError::UnexpectedEof);
        }
        let body = vstd::slice::slice_subrange(buf, *pos, *pos + n);
        let data = vstd::slice::slice_to_vec(body);
        match string_from_utf8(data) {
            Some(text) => {
                *pos = *pos + n;
                Ok(text)
            },
            None => Err(CodecError::InvalidUtf8),
        }
    }
}

/// A 128-bit identifier: its value read from 16 big-endian bytes.
impl Decoder for Uuid {
    open spec fn spec_decode(s: Seq<u8>, i: int) -> Result<(Uuid, int), CodecError> {
        match u128::spec_decode(s, i) {
            Ok((v, j)) => Ok((Uuid(v), j)),
            Err(e) => Err(e),
        }
    }

    fn decode(buf: &[u8], pos: &mut usize) -> (r: Result<Self, CodecError>) {
        match u128::decode(buf, pos) {
            Ok(v) => Ok(Uuid::from_u128(v)),
            Err(e) => Err(e),
        }
    }
}

/// A boolean: one byte that must be 0 or 1.
impl Decoder for bool {
    open spec fn spec_decode(s: Seq<u8>, i: int) -> Result<(bool, int), CodecError> {
        if i + 1 <= s.len() {
            if s[i] == 0 {
                Ok((false, i + 1))
            } else if s[i] == 1 {
                Ok((true, i + 1))
            } else {
                Err(CodecError::InvalidBoolean)
            }
        } else {
            Err(CodecError::UnexpectedEof)
        }
    }

    fn decode(buf: &[u8], pos: &mut usize) -> (r: Result<Self, CodecError>) {
        if *pos >= buf.len() {
            return Err(CodecError::UnexpectedEof);
        }
        let byte = buf[*pos];
        match byte {
            0 => {
                *pos = *pos + 1;
                Ok(false)
            },
            1 => {
                *pos = *pos + 1;
                Ok(true)
            },
            _ => Err(CodecError::InvalidBoolean),
        }
    }
}

impl Decoder for u8 {
    open spec fn spec_decode(s: Seq<u8>, i: int) -> Result<(u8, int), CodecError> {
        if i + 1 <= s.len() {
            Ok((be_value(s.subrange(i, i + 1)) as u8, i + 1))
        } else {
            Err(CodecError::UnexpectedEof)
        }
    }

    fn decode(buf: &[u8], pos: &mut usize) -> (r: Result<Self, CodecError>) {
        match read_be(buf, pos, 1) {
            Ok(v) => {
                proof {
                    lemma_be_decode_fits(buf@, *old(pos) as int, 1);
                }
                Ok(v as u8)
            },
            Err(e) => Err(e),
        }
    }
}

impl Decoder for u16 {
    open spec fn spec_decode(s: Seq<u8>, i: int) -> Result<(u16, int), CodecError> {
        if i + 2 <= s.len() {
            Ok((be_value(s.subrange(i, i + 2)) as u16, i + 2))
        } else {
            Err(CodecError::UnexpectedEof)
        }
    }

    fn decode(buf: &[u8], pos: &mut usize) -> (r: Result<Self, CodecError>) {
        match read_be(buf, pos, 2) {
            Ok(v) => {
                proof {
                    lemma_be_decode_fits(buf@, *old(pos) as int, 2);
                }
                Ok(v as u16)
            },
            Err(e) => Err(e),
        }
    }
}

impl Decoder for u32 {
    open spec fn spec_decode(s: Seq<u8>, i: int) -> Result<(u32, int), CodecError> {
        if i + 4 <= s.len() {
            Ok((be_value(s.subrange(i, i + 4)) as u32, i + 4))
        } else {
            Err(CodecError::UnexpectedEof)
        }
    }

    fn decode(buf: &[u8], pos: &mut usize) -> (r: Result<Self, CodecError>) {
        match read_be(buf, pos, 4) {
            Ok(v) => {
                proof {
                    lemma_be_decode_fits(buf@, *old(pos) as int, 4);
                }
                Ok(v as u32)
            },
            Err(e) => Err(e),
        }
    }
}

impl Decoder for u64 {
    open spec fn spec_decode(s: Seq<u8>, i: int) -> Result<(u64, int), CodecError> {
        if i + 8 <= s.len() {
            Ok((be_value(s.subrange(i, i + 8)) as u64, i + 8))
        } else {
            Err(CodecError::UnexpectedEof)
        }
    }

    fn decode(buf: &[u8], pos: &mut usize) -> (r: Result<Self, CodecError>) {
        match read_be(buf, pos, 8) {
            Ok(v) => {
                proof {
                    lemma_be_decode_fits(buf@, *old(pos) as int, 8);
                }
                Ok(v as u64)
            },
            Err(e) => Err(e),
        }
    }
}

impl Decoder for u128 {
    open spec fn spec_decode(s: Seq<u8>, i: int) -> Result<(u128, int), CodecError> {
        if i + 16 <= s.len() {
            Ok((be_value(s.subrange(i, i + 16)) as u128, i + 16))
        } else {
            Err(CodecError::UnexpectedEof)
        }
    }

    fn decode(buf: &[u8], pos: &mut usize) -> (r: Result<Self, CodecError>) {
        match read_be(buf, pos, 16) {
            Ok(v) => {
                proof {
                    lemma_be_decode_fits(buf@, *old(pos) as int, 16);
                }
                Ok(v)
            },
            Err(e) => Err(e),
        }
    }
}

impl Decoder for i8 {
    open spec fn spec_decode(s: Seq<u8>, i: int) -> Result<(i8, int), CodecError> {
        if i + 1 <= s.len() {
            Ok((i8_of_u8(be_value(s.subrange(i, i + 1)) as u8), i + 1))
        } else {
            Err(CodecError::UnexpectedEof)
        }
    }

    fn decode(buf: &[u8], pos: &mut usize) -> (r: Result<Self, CodecError>) {
        match read_be(buf, pos, 1) {
            Ok(v) => {
                proof {
                    lemma_be_decode_fits(buf@, *old(pos) as int, 1);
                }
                Ok(0i8.wrapping_add_unsigned(v as u8))
            },
            Err(e) => Err(e),
        }
    }
}

impl Decoder for i16 {
    open spec fn spec_decode(s: Seq<u8>, i: int) -> Result<(i16, int), CodecError> {
        if i + 2 <= s.len() {
            Ok((i16_of_u16(be_value(s.subrange(i, i + 2)) as u16), i + 2))
        } else {
            Err(CodecError::UnexpectedEof)
        }
    }

    fn decode(buf: &[u8], pos: &mut usize) -> (r: Result<Self, CodecError>) {
        match read_be(buf, pos, 2) {
            Ok(v) => {
                proof {
                    lemma_be_decode_fits(buf@, *old(pos) as int, 2);
                }
                Ok(0i16.wrapping_add_unsigned(v as u16))
            },
            Err(e) => Err(e),
        }
    }
}

impl Decoder for i32 {
    open spec fn spec_decode(s: Seq<u8>, i: int) -> Result<(i32, int), CodecError> {
        if i + 4 <= s.len() {
            Ok((i32_of_u32(be_value(s.subrange(i, i + 4)) as u32), i + 4))
        } else {
            Err(CodecError::UnexpectedEof)
        }
    }

    fn decode(buf: &[u8], pos: &mut usize) -> (r: Result<Self, CodecError>) {
        match read_be(buf, pos, 4) {
            Ok(v) => {
                proof {
                    lemma_be_decode_fits(buf@, *old(pos) as int, 4);
                }
                Ok(0i32.wrapping_add_unsigned(v as u32))
            },
            Err(e) => Err(e),
        }
    }
}

impl Decoder for i64 {
    open spec fn spec_decode(s: Seq<u8>, i: int) -> Result<(i64, int), CodecError> {
        if i + 8 <= s.len() {
            Ok((i64_of_u64(be_value(s.subrange(i, i + 8)) as u64), i + 8))
        } else {
            Err(CodecError::UnexpectedEof)
        }
    }

    fn decode(buf: &[u8], pos: &mut usize) -> (r: Result<Self, CodecError>) {
        match read_be(buf, pos, 8) {
            Ok(v) => {
                proof {
                    lemma_be_decode_fits(buf@, *old(pos) as int, 8);
                }
                Ok(0i64.wrapping_add_unsigned(v as u64))
            },
            Err(e) => Err(e),
        }
    }
}

impl Decoder for i128 {
    open spec fn spec_decode(s: Seq<u8>, i: int) -> Result<(i128, int), CodecError> {
        if i + 16 <= s.len() {
            Ok((i128_of_u128(be_value(s.subrange(i, i + 16)) as u128), i + 16))
        } else {
            Err(CodecError::UnexpectedEof)
        }
    }

    fn decode(buf: &[u8], pos: &mut usize) -> (r: Result<Self, CodecError>) {
        match read_be(buf, pos, 16) {
            Ok(v) => {
                proof {
                    lemma_be_decode_fits(buf@, *old(pos) as int, 16);
                }
                Ok(0i128.wrapping_add_unsigned(v))
            },
            Err(e) => Err(e),
        }
    }
}

/// A `width`-byte big-endian number read from within `s` stays below
/// `2^(8 * width)`, so it fits the fixed-width integer of that size.
proof fn lemma_be_decode_fits(s: Seq<u8>, i: int, width: int)
    requires
        0 <= i,
        0 <= width <= 16,
        i + width <= s.len(),
    ensures
        be_value(s.subrange(i, i + width)) < pow256(width as nat),
        pow256(width as nat) <= 0x100000000000000000000000000000000,
{
    lemma_be_value_bound(s.subrange(i, i + width));
    lemma_pow256_le_16(width as nat);
}

} // verus!
