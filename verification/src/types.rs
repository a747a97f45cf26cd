//! The protocol's container and variable-length integer types: byte
//! blobs with inferred or explicit lengths, typed length-prefixed
//! sequences, and the 32-bit and 64-bit base-128 integers.
use vstd::prelude::*;

use crate::decoder::Decoder;
use crate::encoder::{lemma_prefix_of_append, Encoder};
use crate::error::CodecError;
use crate::wire::{i32_of_u32, i64_of_u64, u32_of_i32, u64_of_i64};
use core::marker::PhantomData;

verus! {

/// The allocation-safety cap on declared element or byte counts.
pub const MAX_LENGTH: usize = 1024 * 1024;

/// An integer codec that can serve as the length prefix of a container:
/// it converts to and from a plain element count.
///
/// A stored pattern that denotes no usable count (a negative value, or
/// one beyond the cap) reports a length above [`MAX_LENGTH`], so a
/// decoder rejects it; the exact count is only promised inside the cap.
pub trait LengthPrefix: Sized + DeepView<V = Self> {
    /// A length prefix is a plain value: it is its own mathematical model.
    proof fn deep_view_is_self(&self)
        ensures
            self.deep_view() == *self,
    ;

    /// The count this value represents; negative patterns represent none.
    spec fn spec_count(self) -> int;

    /// The value that stands for count `n`.
    spec fn spec_from_len(n: int) -> Self;

    /// The represented count as a plain integer.
    fn len(&self) -> (r: usize)
        ensures
            0 <= self.spec_count() <= MAX_LENGTH as int ==> r as int == self.spec_count(),
            !(0 <= self.spec_count() <= MAX_LENGTH as int) ==> r > MAX_LENGTH,
    ;

    /// The prefix value that stands for `value` elements.
    fn from_len(value: usize) -> (r: Self)
        ensures
            r == Self::spec_from_len(value as int),
    ;

    /// Whether the represented count is zero.
    fn is_empty(&self) -> (r: bool)
        ensures
            r == (self.spec_count() == 0),
    {
        self.len() == 0
    }
}

impl LengthPrefix for VarInt {
    proof fn deep_view_is_self(&self) {
    }

    open spec fn spec_count(self) -> int {
        self.0 as int
    }

    open spec fn spec_from_len(n: int) -> VarInt {
        VarInt(i32_of_u32((n % 0x100000000) as u32))
    }

    fn len(&self) -> (r: usize) {
        0usize.wrapping_add_signed(self.0 as isize)
    }

    fn from_len(value: usize) -> (r: VarInt) {
        let low = ((value as u64) % 0x100000000) as u32;
        VarInt(0i32.wrapping_add_unsigned(low))
    }
}

impl LengthPrefix for VarLong {
    proof fn deep_view_is_self(&self) {
    }

    open spec fn spec_count(self) -> int {
        self.0 as int
    }

    open spec fn spec_from_len(n: int) -> VarLong {
        VarLong(i64_of_u64((n % 0x10000000000000000) as u64))
    }

    fn len(&self) -> (r: usize) {
        if self.0 >= 0 && self.0 <= u32::MAX as i64 {
            self.0 as usize
        } else {
            MAX_LENGTH + 1
        }
    }

    fn from_len(value: usize) -> (r: VarLong) {
        VarLong(0i64.wrapping_add_unsigned(value as u64))
    }
}

/// A byte blob with no explicit length: it occupies all bytes that
/// remain in the source, and is written back as-is.
pub struct LengthInferredVecU8(pub Vec<u8>);

impl View for LengthInferredVecU8 {
    type V = Seq<u8>;

    open spec fn view(&self) -> Seq<u8> {
        self.0@
    }
}

impl DeepView for LengthInferredVecU8 {
    type V = Seq<u8>;

    open spec fn deep_view(&self) -> Seq<u8> {
        self.0@
    }
}

impl Encoder for LengthInferredVecU8 {
    open spec fn wire(&self) -> Seq<u8> {
        self.0@
    }

    open spec fn encodable(&self) -> bool {
        true
    }

    fn byte_len(&self) -> (r: usize) {
        self.0.len()
    }

    fn encode(&self, buf: &mut Vec<u8>) -> (r: Result<(), CodecError>) {
        buf.extend_from_slice(self.0.as_slice());
        proof {
            lemma_prefix_of_append(old(buf)@, self.wire());
        }
        Ok(())
    }
}

impl Decoder for LengthInferredVecU8 {
    open spec fn spec_decode(s: Seq<u8>, i: int) -> Result<(Seq<u8>, int), CodecError> {
        if 0 <= i <= s.len() {
            Ok((s.subrange(i, s.len() as int), s.len() as int))
        } else {
            Err(CodecError::UnexpectedEof)
        }
    }

    fn decode(buf: &[u8], pos: &mut usize) -> (r: Result<Self, CodecError>) {
        let rest = vstd::slice::slice_subrange(buf, *pos, buf.len());
        let data = vstd::slice::slice_to_vec(rest);
        *pos = buf.len();
        Ok(LengthInferredVecU8(data))
    }
}

/// A byte blob preceded by its byte count, carried by the length codec
/// `L`.
pub struct LengthPrefixedVecU8<L>(pub Vec<u8>, pub PhantomData<L>) where L: Encoder + Decoder + LengthPrefix;

impl<L> LengthPrefixedVecU8<L> where L: Encoder + Decoder + LengthPrefix {
    /// Wraps a byte vector for length-prefixed encoding.
    pub fn new(data: Vec<u8>) -> (r: Self)
        ensures
            r.0@ == data@,
    {
        LengthPrefixedVecU8(data, PhantomData)
    }
}

impl<L> View for LengthPrefixedVecU8<L> where L: Encoder + Decoder + LengthPrefix {
    type V = Seq<u8>;

    open spec fn view(&self) -> Seq<u8> {
        self.0@
    }
}

impl<L> DeepView for LengthPrefixedVecU8<L> where L: Encoder + Decoder + LengthPrefix {
    type V = Seq<u8>;

    open spec fn deep_view(&self) -> Seq<u8> {
        self.0@
    }
}

impl<L> Encoder for LengthPrefixedVecU8<L> where L: Encoder + Decoder + LengthPrefix {
    open spec fn wire(&self) -> Seq<u8> {
        L::spec_from_len(self.0@.len() as int).wire() + self.0@
    }

    open spec fn encodable(&self) -> bool {
        L::spec_from_len(self.0@.len() as int).encodable()
    }

    fn byte_len(&self) -> (r: usize) {
        let prefix = L::from_len(self.0.len());
        prefix.byte_len() + self.0.len()
    }

    fn encode(&self, buf: &mut Vec<u8>) -> (r: Result<(), CodecError>) {
        let ghost pre = buf@;
        let prefix = L::from_len(self.0.len());
        match prefix.encode(buf) {
            Ok(()) => {
                buf.extend_from_slice(self.0.as_slice());
                proof {
                    assert(buf@ =~= pre + self.wire());
                    lemma_prefix_of_append(pre, self.wire());
                }
                Ok(())
            },
            Err(e) => Err(e),
        }
    }
}

impl<L> Decoder for LengthPrefixedVecU8<L> where L: Encoder + Decoder + LengthPrefix {
    open spec fn spec_decode(s: Seq<u8>, i: int) -> Result<(Seq<u8>, int), CodecError> {
        match L::spec_decode(s, i) {
            Ok((l, j)) => {
                let c = l.spec_count();
                if !(0 <= c <= MAX_LENGTH as int) {
                    Err(CodecError::SequenceTooLong)
                } else if j + c <= s.len() {
                    Ok((s.subrange(j, j + c), j + c))
                } else {
                    Err(CodecError::UnexpectedEof)
                }
            },
            Err(e) => Err(e),
        }
    }

    fn decode(buf: &[u8], pos: &mut usize) -> (r: Result<Self, CodecError>) {
        let prefix = match L::decode(buf, pos) {
            Ok(l) => l,
            Err(e) => {
                return Err(e);
            },
        };
        proof {
            prefix.deep_view_is_self();
        }
        let len = prefix.len();
        if len > MAX_LENGTH {
            return Err(CodecError::SequenceTooLong);
        }
        if buf.len() - *pos < len {
            return Err(CodecError::UnexpectedEof);
        }
        let body = vstd::slice::slice_subrange(buf, *pos, *pos + len);
        let data = vstd::slice::slice_to_vec(body);
        *pos = *pos + len;
        Ok(LengthPrefixedVecU8(data, PhantomData))
    }
}

/// The concatenated wire images of a sequence of values, in order.
pub open spec fn seq_wire<V: Encoder>(vs: Seq<V>) -> Seq<u8>
    decreases vs.len(),
{
    if vs.len() == 0 {
        Seq::empty()
    } else {
        vs[0].wire() + seq_wire(vs.drop_first())
    }
}

/// Whether every value of the sequence can be encoded.
pub open spec fn seq_encodable<V: Encoder>(vs: Seq<V>) -> bool {
    forall|i: int| 0 <= i < vs.len() ==> (#[trigger] vs[i]).encodable()
}

/// The mathematical parser for `count` consecutive values of one type.
pub open spec fn seq_parse<V: Decoder>(s: Seq<u8>, i: int, count: int) -> Result<
    (Seq<<V as DeepView>::V>, int),
    CodecError,
>
    decreases count,
{
    if count <= 0 {
        Ok((Seq::empty(), i))
    } else {
        match V::spec_decode(s, i) {
            Ok((m, j)) => match seq_parse::<V>(s, j, count - 1) {
                Ok((ms, k)) => Ok((seq![m] + ms, k)),
                Err(e) => Err(e),
            },
            Err(e) => Err(e),
        }
    }
}

/// A typed sequence preceded by its element count, carried by the
/// length codec `L`: the count, then each element's encoding in order.
pub struct LengthPrefixedVec<L, V>(pub Vec<V>, pub PhantomData<L>) where
    L: Encoder + Decoder + LengthPrefix,
    V: Encoder + Decoder;

impl<L, V> LengthPrefixedVec<L, V> where L: Encoder + Decoder + LengthPrefix, V: Encoder + Decoder {
    /// Wraps a vector of values for length-prefixed encoding.
    pub fn new(values: Vec<V>) -> (r: Self)
        ensures
            r.0@ == values@,
    {
        LengthPrefixedVec(values, PhantomData)
    }
}

impl<L, V> View for LengthPrefixedVec<L, V> where
    L: Encoder + Decoder + LengthPrefix,
    V: Encoder + Decoder,
 {
    type V = Seq<V>;

    open spec fn view(&self) -> Seq<V> {
        self.0@
    }
}

impl<L, V> DeepView for LengthPrefixedVec<L, V> where
    L: Encoder + Decoder + LengthPrefix,
    V: Encoder + Decoder,
 {
    type V = Seq<<V as DeepView>::V>;

    open spec fn deep_view(&self) -> Seq<<V as DeepView>::V> {
        self.0.deep_view()
    }
}

impl<L, V> Encoder for LengthPrefixedVec<L, V> where
    L: Encoder + Decoder + LengthPrefix,
    V: Encoder + Decoder,
 {
    open spec fn wire(&self) -> Seq<u8> {
        L::spec_from_len(self.0@.len() as int).wire() + seq_wire(self.0@)
    }

    open spec fn encodable(&self) -> bool {
        L::spec_from_len(self.0@.len() as int).encodable() && seq_encodable(self.0@)
    }

    fn byte_len(&self) -> (r: usize) {
        let ghost vs = self.0@;
        let prefix = L::from_len(self.0.len());
        proof {
            assert(vs.skip(0) =~= vs);
        }
        let mut total = prefix.byte_len();
        let mut i: usize = 0;
        while i < self.0.len()
            invariant
                i <= self.0@.len(),
                vs == self.0@,
                self.wire() == L::spec_from_len(vs.len() as int).wire() + seq_wire(vs),
                self.wire().len() <= usize::MAX,
                total + seq_wire(vs.skip(i as int)).len() == self.wire().len(),
            decreases self.0@.len() - i,
        {
            proof {
                lemma_seq_wire_skip_unfold(vs, i as int);
            }
            total = total + self.0[i].byte_len();
            i = i + 1;
        }
        proof {
            assert(vs.skip(vs.len() as int) =~= Seq::<V>::empty());
        }
        total
    }

    fn encode(&self, buf: &mut Vec<u8>) -> (r: Result<(), CodecError>) {
        let ghost pre = buf@;
        let ghost vs = self.0@;
        let prefix = L::from_len(self.0.len());
        match prefix.encode(buf) {
            Ok(()) => {},
            Err(e) => {
                return Err(e);
            },
        }
        proof {
            assert(vs.skip(0) =~= vs);
            assert(pre + self.wire() =~= buf@ + seq_wire(vs.skip(0)));
        }
        let mut i: usize = 0;
        while i < self.0.len()
            invariant
                i <= self.0@.len(),
                vs == self.0@,
                self.wire() == L::spec_from_len(vs.len() as int).wire() + seq_wire(vs),
                self.encodable() == (L::spec_from_len(vs.len() as int).encodable()
                    && seq_encodable(vs)),
                L::spec_from_len(vs.len() as int).encodable(),
                pre == old(buf)@,
                pre + self.wire() =~= buf@ + seq_wire(vs.skip(i as int)),
                pre.is_prefix_of(buf@),
                forall|t: int| 0 <= t < i ==> (#[trigger] vs[t]).encodable(),
            decreases self.0@.len() - i,
        {
            proof {
                lemma_seq_wire_skip_unfold(vs, i as int);
            }
            let ghost mid = buf@;
            match self.0[i].encode(buf) {
                Ok(()) => {},
                Err(e) => {
                    proof {
                        assert(!vs[i as int].encodable());
                        assert(!seq_encodable(vs));
                        assert(pre == old(buf)@);
                        assert(pre.is_prefix_of(buf@)) by {
                            assert(pre.len() <= mid.len() <= buf@.len());
                            assert forall|t: int| 0 <= t < pre.len() implies pre[t] == buf@[t] by {
                                assert(pre[t] == mid.subrange(0, pre.len() as int)[t]);
                                assert(mid[t] == buf@.subrange(0, mid.len() as int)[t]);
                            }
                            assert(pre =~= buf@.subrange(0, pre.len() as int));
                        }
                    }
                    return Err(e);
                },
            }
            proof {
                assert(pre + self.wire() =~= buf@ + seq_wire(vs.skip(i + 1)));
                assert(pre.is_prefix_of(buf@)) by {
                    assert(pre =~= buf@.subrange(0, pre.len() as int));
                }
            }
            i = i + 1;
        }
        proof {
            assert(vs.skip(vs.len() as int) =~= Seq::<V>::empty());
            assert(buf@ =~= pre + self.wire());
            assert(seq_encodable(vs));
        }
        Ok(())
    }
}

/// Unfolds one element off the concatenated wire image of a suffix.
proof fn lemma_seq_wire_skip_unfold<V: Encoder>(vs: Seq<V>, i: int)
    requires
        0 <= i < vs.len(),
    ensures
        seq_wire(vs.skip(i)) == vs[i].wire() + seq_wire(vs.skip(i + 1)),
{
    assert(vs.skip(i)[0] == vs[i]);
    assert(vs.skip(i).drop_first() =~= vs.skip(i + 1));
}

impl<L, V> Decoder for LengthPrefixedVec<L, V> where
    L: Encoder + Decoder + LengthPrefix,
    V: Encoder + Decoder,
 {
    open spec fn spec_decode(s: Seq<u8>, i: int) -> Result<
        (Seq<<V as DeepView>::V>, int),
        CodecError,
    > {
        match L::spec_decode(s, i) {
            Ok((l, j)) => {
                let c = l.spec_count();
                if !(0 <= c <= MAX_LENGTH as int) {
                    Err(CodecError::SequenceTooLong)
                } else {
                    match seq_parse::<V>(s, j, c) {
                        Ok((ms, k)) => Ok((ms, k)),
                        Err(e) => Err(e),
                    }
                }
            },
            Err(e) => Err(e),
        }
    }

    fn decode(buf: &[u8], pos: &mut usize) -> (r: Result<Self, CodecError>) {
        let prefix = match L::decode(buf, pos) {
            Ok(l) => l,
            Err(e) => {
                return Err(e);
            },
        };
        proof {
            prefix.deep_view_is_self();
        }
        let len = prefix.len();
        if len > MAX_LENGTH {
            return Err(CodecError::SequenceTooLong);
        }
        let ghost j0 = *pos as int;
        let ghost n = len as int;
        let mut out: Vec<V> = Vec::new();
        let mut k: usize = 0;
        proof {
            assert(out.deep_view() =~= Seq::<<V as DeepView>::V>::empty());
            if seq_parse::<V>(buf@, j0, n) is Ok {
                let (ms, e) = seq_parse::<V>(buf@, j0, n)->Ok_0;
                assert(out.deep_view() + ms =~= ms);
            }
        }
        while k < len
            invariant
                k <= len,
                n == len as int,
                *old(pos) <= *pos <= buf@.len(),
                out.deep_view().len() == k,
                match seq_parse::<V>(buf@, *pos as int, n - k) {
                    Ok((ms, e)) => Self::spec_decode(buf@, *old(pos) as int) == Ok::<
                        (Seq<<V as DeepView>::V>, int),
                        CodecError,
                    >((out.deep_view() + ms, e)),
                    Err(e) => Self::spec_decode(buf@, *old(pos) as int) == Err::<
                        (Seq<<V as DeepView>::V>, int),
                        CodecError,
                    >(e),
                },
            decreases len - k,
        {
            let ghost out_pre = out.deep_view();
            let ghost p_pre = *pos as int;
            let v = match V::decode(buf, pos) {
                Ok(v) => v,
                Err(e) => {
                    return Err(e);
                },
            };
            out.push(v);
            k = k + 1;
            proof {
                assert(out.deep_view() =~= out_pre.push(v.deep_view()));
                assert(seq_parse::<V>(buf@, p_pre, n - (k - 1)) == (match seq_parse::<V>(
                    buf@,
                    *pos as int,
                    n - k,
                ) {
                    Ok((ms, e)) => Ok::<(Seq<<V as DeepView>::V>, int), CodecError>(
                        (seq![v.deep_view()] + ms, e),
                    ),
                    Err(e) => Err::<(Seq<<V as DeepView>::V>, int), CodecError>(e),
                }));
                if seq_parse::<V>(buf@, *pos as int, n - k) is Ok {
                    let (ms, e) = seq_parse::<V>(buf@, *pos as int, n - k)->Ok_0;
                    assert(out_pre + (seq![v.deep_view()] + ms) =~= out.deep_view() + ms);
                }
            }
        }
        proof {
            assert(out.deep_view() + Seq::<<V as DeepView>::V>::empty() =~= out.deep_view());
        }
        Ok(LengthPrefixedVec(out, PhantomData))
    }
}

/// A 128-bit identifier, carried as 16 raw bytes in big-endian numeric
/// order.
#[derive(Debug, PartialEq, Eq, Structural, Hash, Clone, Copy, PartialOrd, Ord)]
pub struct Uuid(pub u128);

impl Uuid {
    /// Builds the identifier holding the given 128-bit value.
    pub fn from_u128(v: u128) -> (r: Self)
        ensures
            r.0 == v,
    {
        Uuid(v)
    }

    /// The identifier's 128-bit value.
    pub fn as_u128(&self) -> (r: u128)
        ensures
            r == self.0,
    {
        self.0
    }
}

impl View for Uuid {
    type V = Uuid;

    open spec fn view(&self) -> Uuid {
        *self
    }
}

impl DeepView for Uuid {
    type V = Uuid;

    open spec fn deep_view(&self) -> Uuid {
        *self
    }
}

/// A 32-bit integer carried in base-128 groups with continuation bits.
#[derive(Debug, PartialEq, Eq, Structural, Hash, Clone, Copy, PartialOrd, Ord)]
pub struct VarInt(pub i32);

impl View for VarInt {
    type V = VarInt;

    open spec fn view(&self) -> VarInt {
        *self
    }
}

impl DeepView for VarInt {
    type V = VarInt;

    open spec fn deep_view(&self) -> VarInt {
        *self
    }
}

impl Default for VarInt {
    fn default() -> (r: Self)
        ensures
            r == VarInt(0),
    {
        VarInt(0)
    }
}

impl From<i32> for VarInt {
    fn from(value: i32) -> (r: VarInt) {
        VarInt(value)
    }
}

impl vstd::std_specs::convert::FromSpecImpl<i32> for VarInt {
    open spec fn obeys_from_spec() -> bool {
        true
    }

    open spec fn from_spec(value: i32) -> VarInt {
        VarInt(value)
    }
}

impl From<VarInt> for i32 {
    fn from(value: VarInt) -> (r: i32) {
        value.0
    }
}

impl vstd::std_specs::convert::FromSpecImpl<VarInt> for i32 {
    open spec fn obeys_from_spec() -> bool {
        true
    }

    open spec fn from_spec(value: VarInt) -> i32 {
        value.0
    }
}

/// The base-128 groups of `v`, least significant first, each group's
/// high bit set while more groups follow.
pub open spec fn varint_wire_u(v: u32) -> Seq<u8>
    decreases v,
{
    if v < 0x80 {
        seq![v as u8]
    } else {
        seq![((v % 0x80) + 0x80) as u8] + varint_wire_u(v / 0x80)
    }
}

/// What the group read at index `k` contributes to the decoded value.
/// The fifth group only has room for its low 4 bits: higher bits fall
/// off the end of the 32-bit accumulator.
pub open spec fn varint_group_val(b: u8, k: int) -> int {
    let g = (b as int) % 0x80;
    if k == 0 {
        g
    } else if k == 1 {
        g * 0x80
    } else if k == 2 {
        g * 0x4000
    } else if k == 3 {
        g * 0x200000
    } else {
        (g % 0x10) * 0x10000000
    }
}

/// The mathematical parser for a 32-bit variable-length integer, reading
/// group `k` at position `i` with the lower groups summed in `acc`.
/// More than five groups is a malformed value, whatever their bits.
pub open spec fn varint_parse_rec(s: Seq<u8>, i: int, k: int, acc: int) -> Result<
    (int, int),
    CodecError,
>
    decreases 4 - k,
{
    if i < 0 || i >= s.len() {
        Err(CodecError::UnexpectedEof)
    } else {
        let b = s[i];
        let acc2 = acc + varint_group_val(b, k);
        if b < 0x80 {
            Ok((acc2, i + 1))
        } else if k >= 4 {
            Err(CodecError::MalformedVarInt)
        } else {
            varint_parse_rec(s, i + 1, k + 1, acc2)
        }
    }
}

/// The parser for a whole `VarInt`, reinterpreting the accumulated
/// 32-bit pattern as a signed value.
pub open spec fn varint_parse(s: Seq<u8>, i: int) -> Result<(VarInt, int), CodecError> {
    match varint_parse_rec(s, i, 0, 0) {
        Ok((u, j)) => Ok((VarInt(i32_of_u32((u % 0x100000000) as u32)), j)),
        Err(e) => Err(e),
    }
}

/// The group count of a 32-bit value's encoding: the least number of
/// 7-bit groups that cover all set bits, and at most five.
pub proof fn lemma_varint_wire_u_len(v: u32)
    ensures
        varint_wire_u(v).len() == if v < 0x80 {
            1int
        } else if v < 0x4000 {
            2int
        } else if v < 0x200000 {
            3int
        } else if v < 0x10000000 {
            4int
        } else {
            5int
        },
    decreases v,
{
    if v >= 0x80 {
        lemma_varint_wire_u_len(v / 0x80);
        assert(v / 0x80 < 0x80 <==> v < 0x4000) by (nonlinear_arith);
        assert(v / 0x80 < 0x4000 <==> v < 0x200000) by (nonlinear_arith);
        assert(v / 0x80 < 0x200000 <==> v < 0x10000000) by (nonlinear_arith);
        assert(v / 0x80 < 0x10000000) by (nonlinear_arith)
            requires
                v <= u32::MAX,
        ;
    }
}

impl Encoder for VarInt {
    open spec fn wire(&self) -> Seq<u8> {
        varint_wire_u(u32_of_i32(self.0))
    }

    open spec fn encodable(&self) -> bool {
        true
    }

    fn byte_len(&self) -> (r: usize) {
        let u = 0u32.wrapping_add_signed(self.0);
        proof {
            lemma_varint_wire_u_len(u);
        }
        if u < 0x80 {
            1
        } else if u < 0x4000 {
            2
        } else if u < 0x200000 {
            3
        } else if u < 0x10000000 {
            4
        } else {
            5
        }
    }

    fn encode(&self, buf: &mut Vec<u8>) -> (r: Result<(), CodecError>) {
        let ghost pre = buf@;
        let mut v = 0u32.wrapping_add_signed(self.0);
        proof {
            assert(pre + varint_wire_u(u32_of_i32(self.0)) =~= pre + varint_wire_u(v));
        }
        while v >= 0x80
            invariant
                pre + varint_wire_u(u32_of_i32(self.0)) =~= buf@ + varint_wire_u(v),
                pre.is_prefix_of(buf@),
            decreases v,
        {
            let ghost mid = buf@;
            let ghost v0 = v;
            buf.push(((v % 0x80) + 0x80) as u8);
            v = v / 0x80;
            proof {
                assert(varint_wire_u(v0) =~= seq![((v0 % 0x80) + 0x80) as u8] + varint_wire_u(
                    v0 / 0x80,
                ));
                assert(mid + varint_wire_u(v0) =~= buf@ + varint_wire_u(v));
                assert(pre.is_prefix_of(buf@)) by {
                    assert(pre =~= buf@.subrange(0, pre.len() as int));
                }
            }
        }
        let ghost mid = buf@;
        buf.push(v as u8);
        proof {
            assert(varint_wire_u(v) =~= seq![v as u8]);
            assert(buf@ =~= pre + self.wire());
            lemma_prefix_of_append(pre, self.wire());
        }
        Ok(())
    }
}

impl Decoder for VarInt {
    open spec fn spec_decode(s: Seq<u8>, i: int) -> Result<(VarInt, int), CodecError> {
        varint_parse(s, i)
    }

    fn decode(buf: &[u8], pos: &mut usize) -> (r: Result<Self, CodecError>) {
        let start = *pos;
        let mut value: u32 = 0;
        let mut k: usize = 0;
        let mut p = start;
        loop
            invariant
                *pos == *old(pos),
                start == *old(pos),
                k <= 4,
                p == start + k,
                start <= p <= buf@.len(),
                value < varint_acc_bound(k as int),
                varint_parse_rec(buf@, start as int, 0, 0) == varint_parse_rec(
                    buf@,
                    p as int,
                    k as int,
                    value as int,
                ),
            decreases 4 - k,
        {
            if p >= buf.len() {
                return Err(CodecError::UnexpectedEof);
            }
            let b = buf[p];
            let g = (b % 0x80) as u32;
            let add: u32 = if k == 0 {
                g
            } else if k == 1 {
                g * 0x80
            } else if k == 2 {
                g * 0x4000
            } else if k == 3 {
                g * 0x200000
            } else {
                (g % 0x10) * 0x10000000
            };
            proof {
                assert(add as int == varint_group_val(b, k as int));
            }
            value = value + add;
            p = p + 1;
            if b < 0x80 {
                *pos = p;
                let r = 0i32.wrapping_add_unsigned(value);
                proof {
                    assert(value as int % 0x100000000 == value as int);
                }
                return Ok(VarInt(r));
            }
            if k == 4 {
                return Err(CodecError::MalformedVarInt);
            }
            k = k + 1;
        }
    }
}

/// An exclusive bound on the accumulator after the groups below `k`.
pub open spec fn varint_acc_bound(k: int) -> int {
    if k == 0 {
        1
    } else if k == 1 {
        0x80
    } else if k == 2 {
        0x4000
    } else if k == 3 {
        0x200000
    } else {
        0x10000000
    }
}

/// Parsing from the start of a value's wire image reconstructs, group by
/// group, exactly the accumulated value: the step case of the round trip.
proof fn lemma_varint_parse_wire_rec(s: Seq<u8>, i: int, k: int, acc: int, w: u32)
    requires
        0 <= i,
        0 <= k <= 4,
        i + varint_wire_u(w).len() <= s.len(),
        s.subrange(i, i + varint_wire_u(w).len() as int) =~= varint_wire_u(w),
        0 <= acc < varint_acc_bound(k),
        (w as int) * varint_acc_bound(k) + acc < 0x100000000,
    ensures
        varint_parse_rec(s, i, k, acc) == Ok::<(int, int), CodecError>(
            (acc + (w as int) * varint_acc_bound(k), i + varint_wire_u(w).len()),
        ),
    decreases w,
{
    if w < 0x80 {
        assert(varint_wire_u(w) =~= seq![w as u8]);
        assert(s[i] == s.subrange(i, i + varint_wire_u(w).len() as int)[0]);
        assert(s[i] == w as u8);
        if k == 4 {
            assert(w < 0x10) by (nonlinear_arith)
                requires
                    (w as int) * 0x10000000 + acc < 0x100000000,
                    acc >= 0,
            ;
        }
        let gi = ((w as u8) as int) % 0x80;
        assert(gi == w as int);
        if k == 0 {
            assert(varint_group_val(w as u8, 0) == gi);
            assert(gi == (w as int) * 1);
        } else if k == 1 {
            assert(varint_group_val(w as u8, 1) == gi * 0x80);
        } else if k == 2 {
            assert(varint_group_val(w as u8, 2) == gi * 0x4000);
        } else if k == 3 {
            assert(varint_group_val(w as u8, 3) == gi * 0x200000);
        } else {
            assert(gi % 0x10 == gi);
            assert(varint_group_val(w as u8, 4) == (gi % 0x10) * 0x10000000);
        }
        assert(varint_group_val(w as u8, k) == (w as int) * varint_acc_bound(k));
        assert(varint_parse_rec(s, i, k, acc) == Ok::<(int, int), CodecError>(
            (acc + varint_group_val(w as u8, k), i + 1),
        ));
    } else {
        if k == 4 {
            assert(false) by (nonlinear_arith)
                requires
                    (w as int) * 0x10000000 + acc < 0x100000000,
                    acc >= 0,
                    w >= 0x80,
            ;
        }
        let b = ((w % 0x80) + 0x80) as u8;
        let w2 = w / 0x80;
        let len2 = varint_wire_u(w2).len();
        let full = s.subrange(i, i + varint_wire_u(w).len() as int);
        assert(varint_wire_u(w) =~= seq![b] + varint_wire_u(w2));
        assert(s[i] == full[0]);
        assert(s[i] == b);
        let g = (w as int) % 0x80;
        let acc2 = acc + g * varint_acc_bound(k);
        assert forall|t: int| 0 <= t < len2 implies s[i + 1 + t] == varint_wire_u(w2)[t] by {
            assert(full[1 + t] == varint_wire_u(w)[1 + t]);
        }
        assert(s.subrange(i + 1, i + 1 + len2 as int) =~= varint_wire_u(w2));
        assert(varint_acc_bound(k + 1) == 0x80 * varint_acc_bound(k));
        assert(acc2 < varint_acc_bound(k + 1)) by (nonlinear_arith)
            requires
                0 <= acc < varint_acc_bound(k),
                0 <= g < 0x80,
                acc2 == acc + g * varint_acc_bound(k),
                varint_acc_bound(k + 1) == 0x80 * varint_acc_bound(k),
                varint_acc_bound(k) >= 1,
        ;
        assert((w2 as int) * varint_acc_bound(k + 1) + acc2 == (w as int) * varint_acc_bound(k)
            + acc) by (nonlinear_arith)
            requires
                w2 == w / 0x80,
                g == (w as int) % 0x80,
                acc2 == acc + g * varint_acc_bound(k),
                varint_acc_bound(k + 1) == 0x80 * varint_acc_bound(k),
        ;
        lemma_varint_parse_wire_rec(s, i + 1, k + 1, acc2, w2);
        assert(varint_group_val(b, k) == g * varint_acc_bound(k));
        assert(varint_wire_u(w).len() == 1 + len2);
        assert(varint_parse_rec(s, i, k, acc) == varint_parse_rec(s, i + 1, k + 1, acc2));
    }
}

/// Round trip: decoding the encoding of any 32-bit value yields that
/// value back, wherever the encoding stands in the surrounding stream.
pub proof fn lemma_varint_round_trip(v: VarInt, prefix: Seq<u8>, suffix: Seq<u8>)
    ensures
        varint_parse(prefix + v.wire() + suffix, prefix.len() as int) == Ok::<
            (VarInt, int),
            CodecError,
        >((v, prefix.len() + v.wire().len() as int)),
{
    let s = prefix + v.wire() + suffix;
    let w = u32_of_i32(v.0);
    let len = varint_wire_u(w).len();
    lemma_varint_wire_u_len(w);
    assert(s.subrange(prefix.len() as int, prefix.len() + len as int) =~= varint_wire_u(w));
    lemma_varint_parse_wire_rec(s, prefix.len() as int, 0, 0, w);
    assert((w as int) % 0x100000000 == w as int);
    assert(i32_of_u32(w) == v.0);
}

/// Minimality of the encoded size: a non-negative value takes exactly
/// the least group count that covers its set bits, and a negative value
/// always takes the maximum of five groups.
pub proof fn lemma_varint_byte_len_minimal(v: VarInt)
    ensures
        1 <= v.wire().len() <= 5,
        v.wire().len() < 5 ==> (u32_of_i32(v.0) as int) < varint_acc_bound(v.wire().len() as int),
        v.wire().len() > 1 ==> (u32_of_i32(v.0) as int) >= varint_acc_bound(
            v.wire().len() - 1 as int,
        ),
        v.0 < 0 ==> v.wire().len() == 5,
{
    lemma_varint_wire_u_len(u32_of_i32(v.0));
}

/// A 32-bit variable-length integer whose first five groups all carry
/// the continuation bit is malformed, whatever its payload bits.
pub proof fn lemma_varint_overlong_fails(s: Seq<u8>, i: int)
    requires
        0 <= i,
        i + 5 <= s.len(),
        forall|j: int| i <= j < i + 5 ==> s[j] >= 0x80,
    ensures
        varint_parse(s, i) == Err::<(VarInt, int), CodecError>(CodecError::MalformedVarInt),
{
    let a1 = 0 + varint_group_val(s[i], 0);
    let a2 = a1 + varint_group_val(s[i + 1], 1);
    let a3 = a2 + varint_group_val(s[i + 2], 2);
    let a4 = a3 + varint_group_val(s[i + 3], 3);
    assert(varint_parse_rec(s, i, 0, 0) == varint_parse_rec(s, i + 1, 1, a1));
    assert(varint_parse_rec(s, i + 1, 1, a1) == varint_parse_rec(s, i + 2, 2, a2));
    assert(varint_parse_rec(s, i + 2, 2, a2) == varint_parse_rec(s, i + 3, 3, a3));
    assert(varint_parse_rec(s, i + 3, 3, a3) == varint_parse_rec(s, i + 4, 4, a4));
    assert(varint_parse_rec(s, i + 4, 4, a4) == Err::<(int, int), CodecError>(
        CodecError::MalformedVarInt,
    ));
}

/// A 64-bit integer carried in base-128 groups with continuation bits.
#[derive(Debug, PartialEq, Eq, Structural, Hash, Clone, Copy, PartialOrd, Ord)]
pub struct VarLong(pub i64);

impl View for VarLong {
    type V = VarLong;

    open spec fn view(&self) -> VarLong {
        *self
    }
}

impl DeepView for VarLong {
    type V = VarLong;

    open spec fn deep_view(&self) -> VarLong {
        *self
    }
}

impl Default for VarLong {
    fn default() -> (r: Self)
        ensures
            r == VarLong(0),
    {
        VarLong(0)
    }
}

impl From<i64> for VarLong {
    fn from(value: i64) -> (r: VarLong) {
        VarLong(value)
    }
}

impl vstd::std_specs::convert::FromSpecImpl<i64> for VarLong {
    open spec fn obeys_from_spec() -> bool {
        true
    }

    open spec fn from_spec(value: i64) -> VarLong {
        VarLong(value)
    }
}

impl From<VarLong> for i64 {
    fn from(value: VarLong) -> (r: i64) {
        value.0
    }
}

impl vstd::std_specs::convert::FromSpecImpl<VarLong> for i64 {
    open spec fn obeys_from_spec() -> bool {
        true
    }

    open spec fn from_spec(value: VarLong) -> i64 {
        value.0
    }
}

/// The base-128 groups of `v`, least significant first, each group's
/// high bit set while more groups follow.
pub open spec fn varlong_wire_u(v: u64) -> Seq<u8>
    decreases v,
{
    if v < 0x80 {
        seq![v as u8]
    } else {
        seq![((v % 0x80) + 0x80) as u8] + varlong_wire_u(v / 0x80)
    }
}

/// 128 raised to `k`, for the group positions of a 64-bit value.
pub open spec fn varlong_acc_bound(k: int) -> int {
    if k == 0 {
        1
    } else if k == 1 {
        0x80
    } else if k == 2 {
        0x4000
    } else if k == 3 {
        0x200000
    } else if k == 4 {
        0x10000000
    } else if k == 5 {
        0x800000000
    } else if k == 6 {
        0x40000000000
    } else if k == 7 {
        0x2000000000000
    } else if k == 8 {
        0x100000000000000
    } else {
        0x8000000000000000
    }
}

/// What the group read at index `k` contributes to the decoded value.
/// The tenth group only has room for its lowest bit: higher bits fall
/// off the end of the 64-bit accumulator.
pub open spec fn varlong_group_val(b: u8, k: int) -> int {
    let g = (b as int) % 0x80;
    if k >= 9 {
        (g % 0x2) * 0x8000000000000000
    } else {
        g * varlong_acc_bound(k)
    }
}

/// The mathematical parser for a 64-bit variable-length integer, reading
/// group `k` at position `i` with the lower groups summed in `acc`.
/// More than ten groups is a malformed value, whatever their bits.
pub open spec fn varlong_parse_rec(s: Seq<u8>, i: int, k: int, acc: int) -> Result<
    (int, int),
    CodecError,
>
    decreases 9 - k,
{
    if i < 0 || i >= s.len() {
        Err(CodecError::UnexpectedEof)
    } else {
        let b = s[i];
        let acc2 = acc + varlong_group_val(b, k);
        if b < 0x80 {
            Ok((acc2, i + 1))
        } else if k >= 9 {
            Err(CodecError::MalformedVarLong)
        } else {
            varlong_parse_rec(s, i + 1, k + 1, acc2)
        }
    }
}

/// The parser for a whole `VarLong`, reinterpreting the accumulated
/// 64-bit pattern as a signed value.
pub open spec fn varlong_parse(s: Seq<u8>, i: int) -> Result<(VarLong, int), CodecError> {
    match varlong_parse_rec(s, i, 0, 0) {
        Ok((u, j)) => Ok((VarLong(i64_of_u64((u % 0x10000000000000000) as u64)), j)),
        Err(e) => Err(e),
    }
}

/// The group count of a 64-bit value's encoding: the least number of
/// 7-bit groups that cover all set bits, and at most ten.
pub proof fn lemma_varlong_wire_u_len(v: u64)
    ensures
        varlong_wire_u(v).len() == if v < 0x80 {
            1int
        } else if v < 0x4000 {
            2int
        } else if v < 0x200000 {
            3int
        } else if v < 0x10000000 {
            4int
        } else if v < 0x800000000 {
            5int
        } else if v < 0x40000000000 {
            6int
        } else if v < 0x2000000000000 {
            7int
        } else if v < 0x100000000000000 {
            8int
        } else if v < 0x8000000000000000 {
            9int
        } else {
            10int
        },
    decreases v,
{
    if v >= 0x80 {
        lemma_varlong_wire_u_len(v / 0x80);
        assert(v / 0x80 < 0x80 <==> v < 0x4000) by (nonlinear_arith);
        assert(v / 0x80 < 0x4000 <==> v < 0x200000) by (nonlinear_arith);
        assert(v / 0x80 < 0x200000 <==> v < 0x10000000) by (nonlinear_arith);
        assert(v / 0x80 < 0x10000000 <==> v < 0x800000000) by (nonlinear_arith);
        assert(v / 0x80 < 0x800000000 <==> v < 0x40000000000) by (nonlinear_arith);
        assert(v / 0x80 < 0x40000000000 <==> v < 0x2000000000000) by (nonlinear_arith);
        assert(v / 0x80 < 0x2000000000000 <==> v < 0x100000000000000) by (nonlinear_arith);
        assert(v / 0x80 < 0x100000000000000 <==> v < 0x8000000000000000) by (nonlinear_arith);
        assert(v / 0x80 < 0x8000000000000000) by (nonlinear_arith)
            requires
                v <= u64::MAX,
        ;
    }
}

impl Encoder for VarLong {
    open spec fn wire(&self) -> Seq<u8> {
        varlong_wire_u(u64_of_i64(self.0))
    }

    open spec fn encodable(&self) -> bool {
        true
    }

    fn byte_len(&self) -> (r: usize) {
        let u = 0u64.wrapping_add_signed(self.0);
        proof {
            lemma_varlong_wire_u_len(u);
        }
        if u < 0x80 {
            1
        } else if u < 0x4000 {
            2
        } else if u < 0x200000 {
            3
        } else if u < 0x10000000 {
            4
        } else if u < 0x800000000 {
            5
        } else if u < 0x40000000000 {
            6
        } else if u < 0x2000000000000 {
            7
        } else if u < 0x100000000000000 {
            8
        } else if u < 0x8000000000000000 {
            9
        } else {
            10
        }
    }

    fn encode(&self, buf: &mut Vec<u8>) -> (r: Result<(), CodecError>) {
        let ghost pre = buf@;
        let mut v = 0u64.wrapping_add_signed(self.0);
        proof {
            assert(pre + varlong_wire_u(u64_of_i64(self.0)) =~= pre + varlong_wire_u(v));
        }
        while v >= 0x80
            invariant
                pre + varlong_wire_u(u64_of_i64(self.0)) =~= buf@ + varlong_wire_u(v),
                pre.is_prefix_of(buf@),
            decreases v,
        {
            let ghost mid = buf@;
            let ghost v0 = v;
            buf.push(((v % 0x80) + 0x80) as u8);
            v = v / 0x80;
            proof {
                assert(varlong_wire_u(v0) =~= seq![((v0 % 0x80) + 0x80) as u8] + varlong_wire_u(
                    v0 / 0x80,
                ));
                assert(mid + varlong_wire_u(v0) =~= buf@ + varlong_wire_u(v));
                assert(pre.is_prefix_of(buf@)) by {
                    assert(pre =~= buf@.subrange(0, pre.len() as int));
                }
            }
        }
        buf.push(v as u8);
        proof {
            assert(varlong_wire_u(v) =~= seq![v as u8]);
            assert(buf@ =~= pre + self.wire());
            lemma_prefix_of_append(pre, self.wire());
        }
        Ok(())
    }
}

/// Parsing from the start of a value's wire image reconstructs, group by
/// group, exactly the accumulated value: the step case of the round trip.
proof fn lemma_varlong_parse_wire_rec(s: Seq<u8>, i: int, k: int, acc: int, w: u64)
    requires
        0 <= i,
        0 <= k <= 9,
        i + varlong_wire_u(w).len() <= s.len(),
        s.subrange(i, i + varlong_wire_u(w).len() as int) =~= varlong_wire_u(w),
        0 <= acc < varlong_acc_bound(k),
        (w as int) * varlong_acc_bound(k) + acc < 0x10000000000000000,
    ensures
        varlong_parse_rec(s, i, k, acc) == Ok::<(int, int), CodecError>(
            (acc + (w as int) * varlong_acc_bound(k), i + varlong_wire_u(w).len()),
        ),
    decreases w,
{
    if w < 0x80 {
        assert(varlong_wire_u(w) =~= seq![w as u8]);
        assert(s[i] == s.subrange(i, i + varlong_wire_u(w).len() as int)[0]);
        assert(s[i] == w as u8);
        if k == 9 {
            assert(w < 0x2) by (nonlinear_arith)
                requires
                    (w as int) * 0x8000000000000000 + acc < 0x10000000000000000,
                    acc >= 0,
            ;
        }
        let gi = ((w as u8) as int) % 0x80;
        assert(gi == w as int);
        if k >= 9 {
            assert(gi % 0x2 == gi);
            assert(varlong_group_val(w as u8, k) == (gi % 0x2) * 0x8000000000000000);
        } else {
            assert(varlong_group_val(w as u8, k) == gi * varlong_acc_bound(k));
            assert(gi * varlong_acc_bound(k) == (w as int) * varlong_acc_bound(k));
        }
        assert(varlong_group_val(w as u8, k) == (w as int) * varlong_acc_bound(k));
        assert(varlong_parse_rec(s, i, k, acc) == Ok::<(int, int), CodecError>(
            (acc + varlong_group_val(w as u8, k), i + 1),
        ));
    } else {
        if k == 9 {
            assert(false) by (nonlinear_arith)
                requires
                    (w as int) * 0x8000000000000000 + acc < 0x10000000000000000,
                    acc >= 0,
                    w >= 0x80,
            ;
        }
        let b = ((w % 0x80) + 0x80) as u8;
        let w2 = w / 0x80;
        let len2 = varlong_wire_u(w2).len();
        let full = s.subrange(i, i + varlong_wire_u(w).len() as int);
        assert(varlong_wire_u(w) =~= seq![b] + varlong_wire_u(w2));
        assert(s[i] == full[0]);
        assert(s[i] == b);
        let g = (w as int) % 0x80;
        let acc2 = acc + g * varlong_acc_bound(k);
        assert forall|t: int| 0 <= t < len2 implies s[i + 1 + t] == varlong_wire_u(w2)[t] by {
            assert(full[1 + t] == varlong_wire_u(w)[1 + t]);
        }
        assert(s.subrange(i + 1, i + 1 + len2 as int) =~= varlong_wire_u(w2));
        assert(varlong_acc_bound(k + 1) == 0x80 * varlong_acc_bound(k));
        assert(acc2 < varlong_acc_bound(k + 1)) by (nonlinear_arith)
            requires
                0 <= acc < varlong_acc_bound(k),
                0 <= g < 0x80,
                acc2 == acc + g * varlong_acc_bound(k),
                varlong_acc_bound(k + 1) == 0x80 * varlong_acc_bound(k),
                varlong_acc_bound(k) >= 1,
        ;
        assert((w2 as int) * varlong_acc_bound(k + 1) + acc2 == (w as int) * varlong_acc_bound(k)
            + acc) by (nonlinear_arith)
            requires
                w2 == w / 0x80,
                g == (w as int) % 0x80,
                acc2 == acc + g * varlong_acc_bound(k),
                varlong_acc_bound(k + 1) == 0x80 * varlong_acc_bound(k),
        ;
        lemma_varlong_parse_wire_rec(s, i + 1, k + 1, acc2, w2);
        assert(varlong_group_val(b, k) == g * varlong_acc_bound(k));
        assert(varlong_wire_u(w).len() == 1 + len2);
        assert(varlong_parse_rec(s, i, k, acc) == varlong_parse_rec(s, i + 1, k + 1, acc2));
    }
}

/// Round trip: decoding the encoding of any 64-bit value yields that
/// value back, wherever the encoding stands in the surrounding stream.
pub proof fn lemma_varlong_round_trip(v: VarLong, prefix: Seq<u8>, suffix: Seq<u8>)
    ensures
        varlong_parse(prefix + v.wire() + suffix, prefix.len() as int) == Ok::<
            (VarLong, int),
            CodecError,
        >((v, prefix.len() + v.wire().len() as int)),
{
    let s = prefix + v.wire() + suffix;
    let w = u64_of_i64(v.0);
    let len = varlong_wire_u(w).len();
    lemma_varlong_wire_u_len(w);
    assert(s.subrange(prefix.len() as int, prefix.len() + len as int) =~= varlong_wire_u(w));
    lemma_varlong_parse_wire_rec(s, prefix.len() as int, 0, 0, w);
    assert((w as int) % 0x10000000000000000 == w as int);
    assert(i64_of_u64(w) == v.0);
}

/// Minimality of the encoded size: a non-negative value takes exactly
/// the least group count that covers its set bits, and a negative value
/// always takes the maximum of ten groups.
pub proof fn lemma_varlong_byte_len_minimal(v: VarLong)
    ensures
        1 <= v.wire().len() <= 10,
        v.wire().len() < 10 ==> (u64_of_i64(v.0) as int) < varlong_acc_bound(
            v.wire().len() as int,
        ),
        v.wire().len() > 1 ==> (u64_of_i64(v.0) as int) >= varlong_acc_bound(
            v.wire().len() - 1 as int,
        ),
        v.0 < 0 ==> v.wire().len() == 10,
{
    lemma_varlong_wire_u_len(u64_of_i64(v.0));
}

/// A 64-bit variable-length integer whose first ten groups all carry
/// the continuation bit is malformed, whatever its payload bits.
pub proof fn lemma_varlong_overlong_fails(s: Seq<u8>, i: int)
    requires
        0 <= i,
        i + 10 <= s.len(),
        forall|j: int| i <= j < i + 10 ==> s[j] >= 0x80,
    ensures
        varlong_parse(s, i) == Err::<(VarLong, int), CodecError>(CodecError::MalformedVarLong),
{
    let a1 = 0 + varlong_group_val(s[i], 0);
    let a2 = a1 + varlong_group_val(s[i + 1], 1);
    let a3 = a2 + varlong_group_val(s[i + 2], 2);
    let a4 = a3 + varlong_group_val(s[i + 3], 3);
    let a5 = a4 + varlong_group_val(s[i + 4], 4);
    let a6 = a5 + varlong_group_val(s[i + 5], 5);
    let a7 = a6 + varlong_group_val(s[i + 6], 6);
    let a8 = a7 + varlong_group_val(s[i + 7], 7);
    let a9 = a8 + varlong_group_val(s[i + 8], 8);
    assert(varlong_parse_rec(s, i, 0, 0) == varlong_parse_rec(s, i + 1, 1, a1));
    assert(varlong_parse_rec(s, i + 1, 1, a1) == varlong_parse_rec(s, i + 2, 2, a2));
    assert(varlong_parse_rec(s, i + 2, 2, a2) == varlong_parse_rec(s, i + 3, 3, a3));
    assert(varlong_parse_rec(s, i + 3, 3, a3) == varlong_parse_rec(s, i + 4, 4, a4));
    assert(varlong_parse_rec(s, i + 4, 4, a4) == varlong_parse_rec(s, i + 5, 5, a5));
    assert(varlong_parse_rec(s, i + 5, 5, a5) == varlong_parse_rec(s, i + 6, 6, a6));
    assert(varlong_parse_rec(s, i + 6, 6, a6) == varlong_parse_rec(s, i + 7, 7, a7));
    assert(varlong_parse_rec(s, i + 7, 7, a7) == varlong_parse_rec(s, i + 8, 8, a8));
    assert(varlong_parse_rec(s, i + 8, 8, a8) == varlong_parse_rec(s, i + 9, 9, a9));
    assert(varlong_parse_rec(s, i + 9, 9, a9) == Err::<(int, int), CodecError>(
        CodecError::MalformedVarLong,
    ));
}

impl Decoder for VarLong {
    open spec fn spec_decode(s: Seq<u8>, i: int) -> Result<(VarLong, int), CodecError> {
        varlong_parse(s, i)
    }

    fn decode(buf: &[u8], pos: &mut usize) -> (r: Result<Self, CodecError>) {
        let start = *pos;
        let mut value: u64 = 0;
        let mut k: usize = 0;
        let mut p = start;
        loop
            invariant
                *pos == *old(pos),
                start == *old(pos),
                k <= 9,
                p == start + k,
                start <= p <= buf@.len(),
                value < varlong_acc_bound(k as int),
                varlong_parse_rec(buf@, start as int, 0, 0) == varlong_parse_rec(
                    buf@,
                    p as int,
                    k as int,
                    value as int,
                ),
            decreases 9 - k,
        {
            if p >= buf.len() {
                return Err(CodecError::UnexpectedEof);
            }
            let b = buf[p];
            let g = (b % 0x80) as u64;
            let add: u64 = if k == 9 {
                (g % 0x2) * 0x8000000000000000
            } else if k == 0 {
                g
            } else if k == 1 {
                g * 0x80
            } else if k == 2 {
                g * 0x4000
            } else if k == 3 {
                g * 0x200000
            } else if k == 4 {
                g * 0x10000000
            } else if k == 5 {
                g * 0x800000000
            } else if k == 6 {
                g * 0x40000000000
            } else if k == 7 {
                g * 0x2000000000000
            } else {
                g * 0x100000000000000
            };
            proof {
                assert(add as int == varlong_group_val(b, k as int));
            }
            value = value + add;
            p = p + 1;
            if b < 0x80 {
                *pos = p;
                let r = 0i64.wrapping_add_unsigned(value);
                proof {
                    assert(value as int % 0x10000000000000000 == value as int);
                }
                return Ok(VarLong(r));
            }
            if k == 9 {
                return Err(CodecError::MalformedVarLong);
            }
            k = k + 1;
        }
    }
}

} // verus!
