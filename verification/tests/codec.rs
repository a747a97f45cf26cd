use std::marker::PhantomData;

use blocky::decoder::Decoder;
use blocky::encoder::Encoder;
use blocky::error::CodecError;
use blocky::types::{
    LengthInferredVecU8, LengthPrefix, LengthPrefixedVec, LengthPrefixedVecU8, Uuid, VarInt,
    VarLong, MAX_LENGTH,
};

#[test]
fn test_bool_codec() {
    let mut buf = Vec::new();
    true.encode(&mut buf).unwrap();
    false.encode(&mut buf).unwrap();
    assert_eq!(buf, vec![1, 0]);
    assert!(bool::from_bytes(&[0]).unwrap() == false);
    assert!(bool::from_bytes(&[1]).unwrap() == true);
    assert_eq!(bool::from_bytes(&[2]), Err(CodecError::InvalidBoolean));
    assert_eq!(bool::from_bytes(&[]), Err(CodecError::UnexpectedEof));
}

#[test]
fn test_fixed_int_big_endian() {
    let mut buf = Vec::new();
    0x1234u16.encode(&mut buf).unwrap();
    assert_eq!(buf, vec![0x12, 0x34]);
    let mut buf = Vec::new();
    0xDEADBEEFu32.encode(&mut buf).unwrap();
    assert_eq!(buf, vec![0xDE, 0xAD, 0xBE, 0xEF]);
    let mut buf = Vec::new();
    (-2i16).encode(&mut buf).unwrap();
    assert_eq!(buf, vec![0xFF, 0xFE]);
    let mut buf = Vec::new();
    (-1i64).encode(&mut buf).unwrap();
    assert_eq!(buf, vec![0xFF; 8]);
    assert_eq!(u16::from_bytes(&[0x12, 0x34]).unwrap(), 0x1234);
    assert_eq!(i32::from_bytes(&[0xFF, 0xFF, 0xFF, 0xFE]).unwrap(), -2);
    assert_eq!(u64::from_bytes(&[0, 0, 0, 0, 0, 0, 1, 0]).unwrap(), 256);
    assert_eq!(u16::from_bytes(&[0x12]), Err(CodecError::UnexpectedEof));
}

#[test]
fn test_fixed_int_round_trips() {
    let mut buf = Vec::new();
    0x0102030405060708090A0B0C0D0E0F10u128.encode(&mut buf).unwrap();
    assert_eq!(buf.len(), 16);
    assert_eq!(
        u128::from_bytes(&buf).unwrap(),
        0x0102030405060708090A0B0C0D0E0F10u128
    );
    let mut buf = Vec::new();
    (-123i8).encode(&mut buf).unwrap();
    assert_eq!(i8::from_bytes(&buf).unwrap(), -123);
    let mut buf = Vec::new();
    (-99999999999i128).encode(&mut buf).unwrap();
    assert_eq!(i128::from_bytes(&buf).unwrap(), -99999999999);
}

#[test]
fn test_uuid_codec() {
    let id = Uuid::from_u128(0x11223344556677889900AABBCCDDEEFF);
    let mut buf = Vec::new();
    id.encode(&mut buf).unwrap();
    assert_eq!(
        buf,
        vec![
            0x11, 0x22, 0x33, 0x44, 0x55, 0x66, 0x77, 0x88, 0x99, 0x00, 0xAA, 0xBB, 0xCC, 0xDD,
            0xEE, 0xFF
        ]
    );
    let back = Uuid::from_bytes(&buf).unwrap();
    assert_eq!(back.as_u128(), id.as_u128());
    assert_eq!(id.byte_len(), 16);
}

#[test]
fn test_string_round_trip() {
    let text = String::from("hello, world");
    let bytes = text.to_bytes().unwrap();
    assert_eq!(bytes[0], 12);
    let back = String::from_bytes(&bytes).unwrap();
    assert_eq!(back, text);
    assert_eq!(text.byte_len(), 13);
}

#[test]
fn test_string_unicode_round_trip() {
    let text = String::from("héllo ☃ wörld");
    let bytes = text.to_bytes().unwrap();
    let back = String::from_bytes(&bytes).unwrap();
    assert_eq!(back, text);
}

#[test]
fn test_string_empty_round_trip() {
    let text = String::new();
    let bytes = text.to_bytes().unwrap();
    assert_eq!(bytes, vec![0]);
    let back = String::from_bytes(&bytes).unwrap();
    assert_eq!(back, text);
}

#[test]
fn test_string_encode_too_long_fails() {
    let text = "x".repeat(32768);
    let mut buf = Vec::new();
    assert_eq!(text.encode(&mut buf), Err(CodecError::StringTooLong));
    assert!(buf.is_empty());
    let ok = "x".repeat(32767);
    assert!(ok.encode(&mut buf).is_ok());
}

#[test]
fn test_string_decode_cap_checked_before_body() {
    // A declared length of 40000 must fail even though the stream holds
    // almost nothing after the length prefix.
    let mut bytes = Vec::new();
    VarInt(40000).encode(&mut bytes).unwrap();
    bytes.push(b'x');
    assert_eq!(String::from_bytes(&bytes), Err(CodecError::StringTooLong));
    // A negative declared length is also a cap failure, not a read attempt.
    let mut bytes = Vec::new();
    VarInt(-1).encode(&mut bytes).unwrap();
    assert_eq!(String::from_bytes(&bytes), Err(CodecError::StringTooLong));
}

#[test]
fn test_string_decode_invalid_utf8() {
    let mut bytes = Vec::new();
    VarInt(2).encode(&mut bytes).unwrap();
    bytes.push(0xFF);
    bytes.push(0xFE);
    assert_eq!(String::from_bytes(&bytes), Err(CodecError::InvalidUtf8));
}

#[test]
fn test_string_decode_short_body() {
    let mut bytes = Vec::new();
    VarInt(5).encode(&mut bytes).unwrap();
    bytes.push(b'h');
    assert_eq!(String::from_bytes(&bytes), Err(CodecError::UnexpectedEof));
}

#[test]
fn test_option_absent_single_zero_byte() {
    let value: Option<VarInt> = None;
    let bytes = value.to_bytes().unwrap();
    assert_eq!(bytes, vec![0]);
    let back = Option::<VarInt>::from_bytes(&bytes).unwrap();
    assert_eq!(back, None);
}

#[test]
fn test_option_present_flag_then_value() {
    let value = Some(VarInt(300));
    let bytes = value.to_bytes().unwrap();
    let mut expected = vec![1u8];
    VarInt(300).encode(&mut expected).unwrap();
    assert_eq!(bytes, expected);
    let back = Option::<VarInt>::from_bytes(&bytes).unwrap();
    assert_eq!(back, Some(VarInt(300)));
}

#[test]
fn test_option_string_round_trip() {
    let value = Some(String::from("signed"));
    let bytes = value.to_bytes().unwrap();
    let back = Option::<String>::from_bytes(&bytes).unwrap();
    assert_eq!(back, Some(String::from("signed")));
}

#[test]
fn test_option_bad_flag() {
    assert_eq!(
        Option::<VarInt>::from_bytes(&[2, 0]),
        Err(CodecError::InvalidBoolean)
    );
}

#[test]
fn test_length_inferred_blob() {
    let blob = LengthInferredVecU8(vec![9, 8, 7]);
    let bytes = blob.to_bytes().unwrap();
    assert_eq!(bytes, vec![9, 8, 7]);
    let back = LengthInferredVecU8::from_bytes(&[1, 2, 3, 4]).unwrap();
    assert_eq!(back.0, vec![1, 2, 3, 4]);
    assert_eq!(blob.byte_len(), 3);
}

#[test]
fn test_length_prefixed_blob_round_trip() {
    let blob = LengthPrefixedVecU8::<VarInt>::new(vec![5, 6, 7, 8]);
    let bytes = blob.to_bytes().unwrap();
    assert_eq!(bytes, vec![4, 5, 6, 7, 8]);
    let back = LengthPrefixedVecU8::<VarInt>::from_bytes(&bytes).unwrap();
    assert_eq!(back.0, vec![5, 6, 7, 8]);
}

#[test]
fn test_length_prefixed_blob_too_long() {
    let mut bytes = Vec::new();
    VarInt((MAX_LENGTH + 1) as i32).encode(&mut bytes).unwrap();
    assert!(matches!(
        LengthPrefixedVecU8::<VarInt>::from_bytes(&bytes),
        Err(CodecError::SequenceTooLong)
    ));
}

#[test]
fn test_prefixed_sequence_count_zero() {
    let seq = LengthPrefixedVec::<VarInt, u16>::new(vec![]);
    let bytes = seq.to_bytes().unwrap();
    assert_eq!(bytes, vec![0]);
    let back = LengthPrefixedVec::<VarInt, u16>::from_bytes(&bytes).unwrap();
    assert!(back.0.is_empty());
}

#[test]
fn test_prefixed_sequence_count_one() {
    let seq = LengthPrefixedVec::<VarInt, u16>::new(vec![0x0102]);
    let bytes = seq.to_bytes().unwrap();
    assert_eq!(bytes, vec![1, 0x01, 0x02]);
    let back = LengthPrefixedVec::<VarInt, u16>::from_bytes(&bytes).unwrap();
    assert_eq!(back.0, vec![0x0102]);
}

#[test]
fn test_prefixed_sequence_count_large() {
    let values: Vec<u16> = (0..1000u16).collect();
    let seq = LengthPrefixedVec::<VarInt, u16>::new(values.clone());
    let bytes = seq.to_bytes().unwrap();
    assert_eq!(bytes.len(), seq.byte_len());
    let back = LengthPrefixedVec::<VarInt, u16>::from_bytes(&bytes).unwrap();
    assert_eq!(back.0, values);
}

#[test]
fn test_prefixed_sequence_declared_count_over_cap() {
    // The cap must trip on the declared count alone, before any element
    // is read: the stream ends right after the count.
    let mut bytes = Vec::new();
    VarInt(1048577).encode(&mut bytes).unwrap();
    assert!(matches!(
        LengthPrefixedVec::<VarInt, u16>::from_bytes(&bytes),
        Err(CodecError::SequenceTooLong)
    ));
    // A negative declared count is rejected the same way.
    let mut bytes = Vec::new();
    VarInt(-1).encode(&mut bytes).unwrap();
    assert!(matches!(
        LengthPrefixedVec::<VarInt, u16>::from_bytes(&bytes),
        Err(CodecError::SequenceTooLong)
    ));
}

#[test]
fn test_prefixed_sequence_short_elements() {
    let mut bytes = Vec::new();
    VarInt(3).encode(&mut bytes).unwrap();
    bytes.push(7);
    assert!(matches!(
        LengthPrefixedVec::<VarInt, u8>::from_bytes(&bytes),
        Err(CodecError::UnexpectedEof)
    ));
}

#[test]
fn test_length_prefix_counts() {
    assert_eq!(VarInt(5).len(), 5);
    assert_eq!(VarInt::from_len(5), VarInt(5));
    assert!(VarInt(0).is_empty());
    assert!(!VarInt(3).is_empty());
    assert!(VarInt(-1).len() > MAX_LENGTH);
    assert_eq!(VarLong(9).len(), 9);
    assert_eq!(VarLong::from_len(9), VarLong(9));
    assert!(VarLong(-2).len() > MAX_LENGTH);
}

#[test]
fn test_decode_leaves_trailing_bytes() {
    let mut bytes = Vec::new();
    VarInt(7).encode(&mut bytes).unwrap();
    bytes.extend_from_slice(&[0xAA, 0xBB]);
    let mut pos = 0usize;
    let v = VarInt::decode(&bytes, &mut pos).unwrap();
    assert_eq!(v, VarInt(7));
    assert_eq!(pos, 1);
}

#[test]
fn test_phantom_marker_construction() {
    let blob = LengthPrefixedVecU8::<VarInt>(vec![1], PhantomData);
    assert_eq!(blob.to_bytes().unwrap(), vec![1, 1]);
}
