//! Mathematical model of the wire format's byte-level building blocks:
//! big-endian base-256 digit strings and the conversions between signed
//! and unsigned fixed-width integers.
use vstd::prelude::*;

use crate::error::CodecError;

verus! {

/// 256 raised to `width`.
pub open spec fn pow256(width: nat) -> nat
    decreases width,
{
    if width == 0 {
        1
    } else {
        256 * pow256((width - 1) as nat)
    }
}

/// The `width` big-endian base-256 digits of `v`, most significant first.
pub open spec fn be_bytes(v: nat, width: nat) -> Seq<u8>
    decreases width,
{
    if width == 0 {
        seq![]
    } else {
        be_bytes(v / 256, (width - 1) as nat) + seq![(v % 256) as u8]
    }
}

/// The number a byte string denotes in big-endian base 256.
pub open spec fn be_value(s: Seq<u8>) -> nat
    decreases s.len(),
{
    if s.len() == 0 {
        0
    } else {
        be_value(s.drop_last()) * 256 + s.last() as nat
    }
}

pub proof fn lemma_be_bytes_len(v: nat, width: nat)
    ensures
        be_bytes(v, width).len() == width,
    decreases width,
{
    if width > 0 {
        lemma_be_bytes_len(v / 256, (width - 1) as nat);
    }
}

pub proof fn lemma_be_value_bound(s: Seq<u8>)
    ensures
        be_value(s) < pow256(s.len() as nat),
    decreases s.len(),
{
    if s.len() > 0 {
        lemma_be_value_bound(s.drop_last());
    }
}

/// Reading back the digits of `v` yields `v`: the big-endian digit string
/// is a faithful representation of every value below `256^width`.
pub proof fn lemma_be_value_of_be_bytes(v: nat, width: nat)
    requires
        v < pow256(width),
    ensures
        be_value(be_bytes(v, width)) == v,
    decreases width,
{
    if width > 0 {
        let head = be_bytes(v / 256, (width - 1) as nat);
        lemma_be_bytes_len(v / 256, (width - 1) as nat);
        assert((head + seq![(v % 256) as u8]).drop_last() =~= head);
        assert(v / 256 < pow256((width - 1) as nat)) by (nonlinear_arith)
            requires
                v < 256 * pow256((width - 1) as nat),
        ;
        lemma_be_value_of_be_bytes(v / 256, (width - 1) as nat);
        vstd::arithmetic::div_mod::lemma_fundamental_div_mod(v as int, 256);
    }
}

/// Appends the `width` big-endian digits of `v` to `buf`.
pub fn push_be(buf: &mut Vec<u8>, v: u128, width: usize)
    ensures
        final(buf)@ == old(buf)@ + be_bytes(v as nat, width as nat),
    decreases width,
{
    if width == 0 {
        proof {
            assert(buf@ =~= buf@ + be_bytes(v as nat, 0));
        }
    } else {
        push_be(buf, v / 256, width - 1);
        buf.push((v % 256) as u8);
        proof {
            assert(buf@ =~= old(buf)@ + be_bytes(v as nat, width as nat));
        }
    }
}

/// Reads `width` bytes from `buf` at `*pos` as a big-endian number, or
/// fails when fewer than `width` bytes remain.
pub fn read_be(buf: &[u8], pos: &mut usize, width: usize) -> (r: Result<u128, CodecError>)
    requires
        *old(pos) <= buf@.len(),
        width <= 16,
    ensures
        *old(pos) <= *final(pos) <= buf@.len(),
        match r {
            Ok(v) => {
                &&& *old(pos) + width <= buf@.len()
                &&& *final(pos) == *old(pos) + width
                &&& v as nat == be_value(
                    buf@.subrange(*old(pos) as int, (*old(pos) + width) as int),
                )
            },
            Err(e) => {
                &&& e == CodecError::UnexpectedEof
                &&& *old(pos) + width > buf@.len()
                &&& *final(pos) == *old(pos)
            },
        },
{
    let start = *pos;
    if buf.len() - start < width {
        return Err(CodecError::UnexpectedEof);
    }
    let mut v: u128 = 0;
    let mut k: usize = 0;
    proof {
        assert(buf@.subrange(start as int, start as int) =~= Seq::<u8>::empty());
    }
    while k < width
        invariant
            k <= width <= 16,
            start + width <= buf@.len(),
            start + width <= usize::MAX,
            v as nat == be_value(buf@.subrange(start as int, (start + k) as int)),
            v < pow256(k as nat),
        decreases width - k,
    {
        let b = buf[start + k];
        proof {
            let done = buf@.subrange(start as int, (start + k) as int);
            let next = buf@.subrange(start as int, (start + k + 1) as int);
            assert(next.drop_last() =~= done);
            assert(next.last() == b);
            assert((v as nat) * 256 + 255 < pow256((k + 1) as nat)) by (nonlinear_arith)
                requires
                    v < pow256(k as nat),
                    pow256((k + 1) as nat) == 256 * pow256(k as nat),
            ;
            lemma_pow256_le_16(( k + 1) as nat);
        }
        v = v * 256 + b as u128;
        k = k + 1;
    }
    *pos = start + width;
    Ok(v)
}

/// `256^width` never exceeds `2^128` while `width` stays at or below 16.
pub proof fn lemma_pow256_le_16(width: nat)
    requires
        width <= 16,
    ensures
        pow256(width) <= 0x100000000000000000000000000000000,
    decreases 16 - width,
{
    if width == 16 {
        reveal_with_fuel(pow256, 17);
        assert(pow256(16) == 0x100000000000000000000000000000000);
    } else {
        lemma_pow256_le_16((width + 1) as nat);
    }
}

/// The powers of 256 at the widths of the fixed-size integers.
pub proof fn lemma_pow256_values()
    ensures
        pow256(1) == 0x100,
        pow256(2) == 0x10000,
        pow256(4) == 0x100000000,
        pow256(8) == 0x10000000000000000,
        pow256(16) == 0x100000000000000000000000000000000,
{
    reveal_with_fuel(pow256, 17);
}

/// The two's-complement bit image of an `i8`, as a `u8`.
pub open spec fn u8_of_i8(v: i8) -> u8 {
    if v >= 0 {
        v as u8
    } else {
        (v + 0x100) as u8
    }
}

/// The `i8` denoted by a two's-complement `u8` image.
pub open spec fn i8_of_u8(v: u8) -> i8 {
    if v <= i8::MAX as u8 {
        v as i8
    } else {
        (v - 0x100) as i8
    }
}

/// The two's-complement bit image of an `i16`, as a `u16`.
pub open spec fn u16_of_i16(v: i16) -> u16 {
    if v >= 0 {
        v as u16
    } else {
        (v + 0x10000) as u16
    }
}

/// The `i16` denoted by a two's-complement `u16` image.
pub open spec fn i16_of_u16(v: u16) -> i16 {
    if v <= i16::MAX as u16 {
        v as i16
    } else {
        (v - 0x10000) as i16
    }
}

/// The two's-complement bit image of an `i32`, as a `u32`.
pub open spec fn u32_of_i32(v: i32) -> u32 {
    if v >= 0 {
        v as u32
    } else {
        (v + 0x100000000) as u32
    }
}

/// The `i32` denoted by a two's-complement `u32` image.
pub open spec fn i32_of_u32(v: u32) -> i32 {
    if v <= i32::MAX as u32 {
        v as i32
    } else {
        (v - 0x100000000) as i32
    }
}

/// The two's-complement bit image of an `i64`, as a `u64`.
pub open spec fn u64_of_i64(v: i64) -> u64 {
    if v >= 0 {
        v as u64
    } else {
        (v + 0x10000000000000000) as u64
    }
}

/// The `i64` denoted by a two's-complement `u64` image.
pub open spec fn i64_of_u64(v: u64) -> i64 {
    if v <= i64::MAX as u64 {
        v as i64
    } else {
        (v - 0x10000000000000000) as i64
    }
}

/// The two's-complement bit image of an `i128`, as a `u128`.
pub open spec fn u128_of_i128(v: i128) -> u128 {
    if v >= 0 {
        v as u128
    } else {
        (v + 0x100000000000000000000000000000000) as u128
    }
}

/// The `i128` denoted by a two's-complement `u128` image.
pub open spec fn i128_of_u128(v: u128) -> i128 {
    if v <= i128::MAX as u128 {
        v as i128
    } else {
        (v - 0x100000000000000000000000000000000) as i128
    }
}

} // verus!
