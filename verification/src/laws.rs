//! The library's cross-cutting guarantees: round trips of the primitive
//! codecs, the shape of optional values on the wire, and the behaviour
//! of length-prefixed sequences, each stated over the mathematical
//! parsers and wire images and proved once for every input.
use vstd::prelude::*;

use crate::decoder::Decoder;
use crate::encoder::{string_wire, Encoder};
use crate::error::CodecError;
use crate::types::{seq_parse, LengthPrefix, LengthPrefixedVec, LengthPrefixedVecU8, MAX_LENGTH};
use crate::types::{lemma_varint_round_trip, Uuid, VarInt};
use crate::wire::{
    be_bytes, be_value, lemma_be_bytes_len, lemma_be_value_of_be_bytes, lemma_pow256_values,
    pow256,
};
use vstd::utf8::{encode_utf8, encode_utf8_decode_utf8, encode_utf8_valid_utf8};

verus! {

/// A big-endian digit string is recovered wherever it stands in a
/// surrounding stream.
proof fn lemma_be_frame(v: nat, width: nat, prefix: Seq<u8>, suffix: Seq<u8>)
    requires
        v < pow256(width),
    ensures
        (prefix + be_bytes(v, width) + suffix).subrange(
            prefix.len() as int,
            prefix.len() + width as int,
        ) =~= be_bytes(v, width),
        be_value(
            (prefix + be_bytes(v, width) + suffix).subrange(
                prefix.len() as int,
                prefix.len() + width as int,
            ),
        ) == v,
        (prefix + be_bytes(v, width) + suffix).len() == prefix.len() + width + suffix.len(),
{
    lemma_be_bytes_len(v, width);
    let s = prefix + be_bytes(v, width) + suffix;
    assert(s.subrange(prefix.len() as int, prefix.len() + width as int) =~= be_bytes(v, width));
    lemma_be_value_of_be_bytes(v, width);
}

/// Round trip: decoding the encoding of a `bool` yields it back.
pub proof fn lemma_bool_round_trip(v: bool, prefix: Seq<u8>, suffix: Seq<u8>)
    ensures
        bool::spec_decode(prefix + v.wire() + suffix, prefix.len() as int) == Ok::<
            (bool, int),
            CodecError,
        >((v, prefix.len() + 1int)),
{
    let s = prefix + v.wire() + suffix;
    assert(s[prefix.len() as int] == if v {
        1u8
    } else {
        0u8
    });
}

/// Round trip: decoding the encoding of a `u8` yields it back.
pub proof fn lemma_u8_round_trip(v: u8, prefix: Seq<u8>, suffix: Seq<u8>)
    ensures
        u8::spec_decode(prefix + v.wire() + suffix, prefix.len() as int) == Ok::<
            (u8, int),
            CodecError,
        >((v, prefix.len() + 1int)),
{
    lemma_pow256_values();
    lemma_be_frame(v as nat, 1, prefix, suffix);
}

/// Round trip: decoding the encoding of a `u16` yields it back.
pub proof fn lemma_u16_round_trip(v: u16, prefix: Seq<u8>, suffix: Seq<u8>)
    ensures
        u16::spec_decode(prefix + v.wire() + suffix, prefix.len() as int) == Ok::<
            (u16, int),
            CodecError,
        >((v, prefix.len() + 2int)),
{
    lemma_pow256_values();
    lemma_be_frame(v as nat, 2, prefix, suffix);
}

/// Round trip: decoding the encoding of a `u32` yields it back.
pub proof fn lemma_u32_round_trip(v: u32, prefix: Seq<u8>, suffix: Seq<u8>)
    ensures
        u32::spec_decode(prefix + v.wire() + suffix, prefix.len() as int) == Ok::<
            (u32, int),
            CodecError,
        >((v, prefix.len() + 4int)),
{
    lemma_pow256_values();
    lemma_be_frame(v as nat, 4, prefix, suffix);
}

/// Round trip: decoding the encoding of a `u64` yields it back.
pub proof fn lemma_u64_round_trip(v: u64, prefix: Seq<u8>, suffix: Seq<u8>)
    ensures
        u64::spec_decode(prefix + v.wire() + suffix, prefix.len() as int) == Ok::<
            (u64, int),
            CodecError,
        >((v, prefix.len() + 8int)),
{
    lemma_pow256_values();
    lemma_be_frame(v as nat, 8, prefix, suffix);
}

/// Round trip: decoding the encoding of a `u128` yields it back.
pub proof fn lemma_u128_round_trip(v: u128, prefix: Seq<u8>, suffix: Seq<u8>)
    ensures
        u128::spec_decode(prefix + v.wire() + suffix, prefix.len() as int) == Ok::<
            (u128, int),
            CodecError,
        >((v, prefix.len() + 16int)),
{
    lemma_pow256_values();
    lemma_be_frame(v as nat, 16, prefix, suffix);
}

/// Round trip: decoding the encoding of a 128-bit identifier yields it
/// back.
pub proof fn lemma_uuid_round_trip(v: Uuid, prefix: Seq<u8>, suffix: Seq<u8>)
    ensures
        Uuid::spec_decode(prefix + v.wire() + suffix, prefix.len() as int) == Ok::<
            (Uuid, int),
            CodecError,
        >((v, prefix.len() + 16int)),
{
    lemma_pow256_values();
    lemma_be_frame(v.0 as nat, 16, prefix, suffix);
}

/// Round trip for strings: a valid UTF-8 string of at most 32767 bytes
/// decodes from its own encoding, wherever it stands in the stream.
pub proof fn lemma_string_round_trip(chars: Seq<char>, prefix: Seq<u8>, suffix: Seq<u8>)
    requires
        encode_utf8(chars).len() <= 32767,
    ensures
        String::spec_decode(prefix + string_wire(chars) + suffix, prefix.len() as int) == Ok::<
            (Seq<char>, int),
            CodecError,
        >((chars, prefix.len() + string_wire(chars).len() as int)),
{
    let body = encode_utf8(chars);
    let n = body.len() as int;
    let l = VarInt::spec_from_len(n);
    let s = prefix + string_wire(chars) + suffix;
    assert(l.0 == n);
    assert(s =~= prefix + l.wire() + (body + suffix));
    lemma_varint_round_trip(l, prefix, body + suffix);
    let j = prefix.len() + l.wire().len() as int;
    assert(s.subrange(j, j + n) =~= body);
    encode_utf8_valid_utf8(chars);
    encode_utf8_decode_utf8(chars);
}

/// A string whose declared byte length exceeds 32767 is rejected as
/// soon as the length is read, before any body byte — even when the
/// stream holds fewer bytes than the declared length.
pub proof fn lemma_string_cap_checked_first(s: Seq<u8>, i: int, l: VarInt, j: int)
    requires
        VarInt::spec_decode(s, i) == Ok::<(VarInt, int), CodecError>((l, j)),
        !(0 <= l.0 <= 32767),
    ensures
        String::spec_decode(s, i) == Err::<(Seq<char>, int), CodecError>(
            CodecError::StringTooLong,
        ),
{
}

/// An absent optional value is a single zero byte; a present one is a
/// single one byte followed by the value's own encoding.
pub proof fn lemma_option_wire<V: Encoder>(v: Option<V>)
    ensures
        v is None ==> v.wire() =~= seq![0u8],
        v is Some ==> v.wire() =~= seq![1u8] + v->0.wire(),
{
}

/// Round trip for optional values: given that the inner value decodes
/// from its own encoding at its position, the optional value decodes
/// from the presence byte followed by that encoding.
pub proof fn lemma_option_round_trip<V: Encoder + Decoder>(
    v: Option<V>,
    prefix: Seq<u8>,
    suffix: Seq<u8>,
)
    requires
        match v {
            None => true,
            Some(inner) => V::spec_decode(prefix + v.wire() + suffix, prefix.len() + 1int) == Ok::<
                (<V as DeepView>::V, int),
                CodecError,
            >((inner.deep_view(), prefix.len() + 1int + inner.wire().len() as int)),
        },
    ensures
        Option::<V>::spec_decode(prefix + v.wire() + suffix, prefix.len() as int) == Ok::<
            (Option<<V as DeepView>::V>, int),
            CodecError,
        >((v.deep_view(), prefix.len() + v.wire().len() as int)),
{
    let s = prefix + v.wire() + suffix;
    match v {
        None => {
            assert(s[prefix.len() as int] == 0u8);
        },
        Some(inner) => {
            assert(s[prefix.len() as int] == 1u8);
        },
    }
}

/// A declared element count above the cap is rejected with
/// `SequenceTooLong` as soon as the prefix is read, before any element
/// or payload byte is examined.
pub proof fn lemma_sequence_cap_rejected<L, V>(s: Seq<u8>, i: int, l: L, j: int) where
    L: Encoder + Decoder + LengthPrefix,
    V: Encoder + Decoder,

    requires
        L::spec_decode(s, i) == Ok::<(L, int), CodecError>((l, j)),
        !(0 <= l.spec_count() <= MAX_LENGTH as int),
    ensures
        LengthPrefixedVec::<L, V>::spec_decode(s, i) == Err::<
            (Seq<<V as DeepView>::V>, int),
            CodecError,
        >(CodecError::SequenceTooLong),
        LengthPrefixedVecU8::<L>::spec_decode(s, i) == Err::<(Seq<u8>, int), CodecError>(
            CodecError::SequenceTooLong,
        ),
{
}

/// Round trip for length-prefixed byte blobs: a blob of at most the cap
/// decodes from its own encoding, wherever it stands in the stream.
pub proof fn lemma_prefixed_bytes_round_trip(
    v: LengthPrefixedVecU8<VarInt>,
    prefix: Seq<u8>,
    suffix: Seq<u8>,
)
    requires
        v.0@.len() <= MAX_LENGTH,
    ensures
        LengthPrefixedVecU8::<VarInt>::spec_decode(prefix + v.wire() + suffix, prefix.len() as int)
            == Ok::<(Seq<u8>, int), CodecError>((v.0@, prefix.len() + v.wire().len() as int)),
{
    let n = v.0@.len() as int;
    let l = VarInt::spec_from_len(n);
    let s = prefix + v.wire() + suffix;
    assert(l.0 == n);
    assert(s =~= prefix + l.wire() + (v.0@ + suffix));
    lemma_varint_round_trip(l, prefix, v.0@ + suffix);
    let j = prefix.len() + l.wire().len() as int;
    assert(s.subrange(j, j + n) =~= v.0@);
}

/// The concatenated wire image of plain bytes is those bytes themselves.
proof fn lemma_seq_wire_u8(bs: Seq<u8>)
    ensures
        crate::types::seq_wire(bs) =~= bs,
    decreases bs.len(),
{
    if bs.len() > 0 {
        lemma_seq_wire_u8(bs.drop_first());
        assert(be_bytes(bs[0] as nat / 256, 0) =~= Seq::<u8>::empty());
        assert(bs[0].wire() =~= seq![bs[0]]);
        assert(seq![bs[0]] + bs.drop_first() =~= bs);
    }
}

/// Round trip for length-prefixed sequences of plain bytes: a sequence
/// of at most the cap decodes from its own encoding, wherever it stands
/// in the stream.
/// A run of plain bytes standing verbatim in the stream parses as that
/// many one-byte elements.
proof fn lemma_u8_run_parses(s: Seq<u8>, j: int, bs: Seq<u8>)
    requires
        0 <= j,
        j + bs.len() <= s.len(),
        s.subrange(j, j + bs.len() as int) =~= bs,
    ensures
        seq_parse::<u8>(s, j, bs.len() as int) == Ok::<(Seq<u8>, int), CodecError>(
            (bs, j + bs.len() as int),
        ),
    decreases bs.len(),
{
    if bs.len() == 0 {
        assert(bs =~= Seq::<u8>::empty());
    } else {
        let one = s.subrange(j, j + 1);
        assert(one =~= seq![bs[0]]);
        assert(be_value(seq![bs[0]].drop_last()) == 0) by {
            assert(seq![bs[0]].drop_last() =~= Seq::<u8>::empty());
        }
        assert(be_value(one) == bs[0]);
        assert(u8::spec_decode(s, j) == Ok::<(u8, int), CodecError>((bs[0], j + 1)));
        assert(s.subrange(j + 1, j + 1 + bs.drop_first().len() as int) =~= bs.drop_first());
        lemma_u8_run_parses(s, j + 1, bs.drop_first());
        assert(seq![bs[0]] + bs.drop_first() =~= bs);
    }
}

/// Round trip for length-prefixed sequences of plain bytes: a sequence
/// of at most the cap decodes from its own encoding, wherever it stands
/// in the stream.
pub proof fn lemma_prefixed_u8_sequence_round_trip(
    v: LengthPrefixedVec<VarInt, u8>,
    prefix: Seq<u8>,
    suffix: Seq<u8>,
)
    requires
        v.0@.len() <= MAX_LENGTH,
    ensures
        LengthPrefixedVec::<VarInt, u8>::spec_decode(
            prefix + v.wire() + suffix,
            prefix.len() as int,
        ) == Ok::<(Seq<u8>, int), CodecError>(
            (v.0.deep_view(), prefix.len() + v.wire().len() as int),
        ),
{
    let bs = v.0@;
    let n = bs.len() as int;
    let l = VarInt::spec_from_len(n);
    let s = prefix + v.wire() + suffix;
    assert(l.0 == n);
    lemma_seq_wire_u8(bs);
    assert(s =~= prefix + l.wire() + (bs + suffix));
    lemma_varint_round_trip(l, prefix, bs + suffix);
    let j = prefix.len() + l.wire().len() as int;
    assert(s.subrange(j, j + n) =~= bs);
    lemma_u8_run_parses(s, j, bs);
    assert(v.0.deep_view() =~= bs);
}

/// Round trip for a run of elements: when each element of a sequence
/// decodes from its own encoding at consecutive positions, parsing that
/// many elements yields exactly the sequence of their models.
pub proof fn lemma_seq_parse_of_elements<V: Encoder + Decoder>(s: Seq<u8>, vs: Seq<V>, ps: Seq<int>)
    requires
        ps.len() == vs.len() + 1,
        forall|k: int|
            0 <= k < vs.len() ==> V::spec_decode(s, #[trigger] ps[k]) == Ok::<
                (<V as DeepView>::V, int),
                CodecError,
            >((vs[k].deep_view(), ps[k + 1])),
    ensures
        seq_parse::<V>(s, ps[0], vs.len() as int) == Ok::<
            (Seq<<V as DeepView>::V>, int),
            CodecError,
        >((Seq::new(vs.len(), |k: int| vs[k].deep_view()), ps[vs.len() as int])),
    decreases vs.len(),
{
    if vs.len() == 0 {
        assert(Seq::new(0, |k: int| vs[k].deep_view()) =~= Seq::<<V as DeepView>::V>::empty());
    } else {
        let vs2 = vs.drop_first();
        let ps2 = ps.drop_first();
        assert(forall|k: int|
            0 <= k < vs2.len() ==> V::spec_decode(s, #[trigger] ps2[k]) == Ok::<
                (<V as DeepView>::V, int),
                CodecError,
            >((vs2[k].deep_view(), ps2[k + 1])));
        lemma_seq_parse_of_elements(s, vs2, ps2);
        assert(V::spec_decode(s, ps[0]) == Ok::<(<V as DeepView>::V, int), CodecError>(
            (vs[0].deep_view(), ps[1]),
        ));
        assert(seq![vs[0].deep_view()] + Seq::new(vs2.len(), |k: int| vs2[k].deep_view())
            =~= Seq::new(vs.len(), |k: int| vs[k].deep_view()));
        assert(ps2[vs2.len() as int] == ps[vs.len() as int]);
    }
}

} // verus!
