use blocky::decoder::Decoder;
use blocky::error::CodecError;
use blocky::encoder::Encoder;
use blocky::types::{VarInt, VarLong};

#[test]
fn test_varint_decode_single_byte() {
    let varint = VarInt::from_bytes(&[0x01]).unwrap();
    assert_eq!(varint.0, 1);
}

#[test]
fn test_varint_decode_multi_byte() {
    let varint = VarInt::from_bytes(&[0x80, 0x01]).unwrap();
    assert_eq!(varint.0, 128);
}

#[test]
fn test_varint_decode_max_positive() {
    let varint = VarInt::from_bytes(&[0xFF, 0xFF, 0xFF, 0xFF, 0x07]).unwrap();
    assert_eq!(varint.0, 2147483647);
}

#[test]
fn test_varint_decode_negative_one() {
    let varint = VarInt::from_bytes(&[0xFF, 0xFF, 0xFF, 0xFF, 0x0F]).unwrap();
    assert_eq!(varint.0, -1);
}

#[test]
fn test_varint_decode_min_negative() {
    let varint = VarInt::from_bytes(&[0x80, 0x80, 0x80, 0x80, 0x08]).unwrap();
    assert_eq!(varint.0, -2147483648);
}

#[test]
fn test_varint_decode_too_large() {
    assert!(VarInt::from_bytes(&[0xFF, 0xFF, 0xFF, 0xFF, 0xFF, 0x01]).is_err());
}

#[test]
fn test_varlong_decode_single_byte() {
    let varlong = VarLong::from_bytes(&[0x01]).unwrap();
    assert_eq!(varlong.0, 1);
}

#[test]
fn test_varlong_decode_multi_byte() {
    let varlong = VarLong::from_bytes(&[0x80, 0x01]).unwrap();
    assert_eq!(varlong.0, 128);
}

#[test]
fn test_varlong_decode_max_positive() {
    let varlong =
        VarLong::from_bytes(&[0xFF, 0xFF, 0xFF, 0xFF, 0xFF, 0xFF, 0xFF, 0xFF, 0x7F]).unwrap();
    assert_eq!(varlong.0, 9223372036854775807);
}

#[test]
fn test_varlong_decode_negative_one() {
    let varlong =
        VarLong::from_bytes(&[0xFF, 0xFF, 0xFF, 0xFF, 0xFF, 0xFF, 0xFF, 0xFF, 0xFF, 0x01])
            .unwrap();
    assert_eq!(varlong.0, -1);
}

#[test]
fn test_varlong_decode_min_negative() {
    let varlong =
        VarLong::from_bytes(&[0x80, 0x80, 0x80, 0x80, 0x80, 0x80, 0x80, 0x80, 0x80, 0x01])
            .unwrap();
    assert_eq!(varlong.0, -9223372036854775808);
}

#[test]
fn test_varlong_decode_too_large() {
    assert!(VarLong::from_bytes(&[
        0xFF, 0xFF, 0xFF, 0xFF, 0xFF, 0xFF, 0xFF, 0xFF, 0xFF, 0xFF, 0x01
    ])
    .is_err());
}

#[test]
fn test_varint_encode_single_byte() {
    let varint = VarInt(1);
    let mut buf = Vec::new();
    varint.encode(&mut buf).unwrap();
    assert_eq!(buf, vec![0x01]);
}

#[test]
fn test_varint_encode_multi_byte() {
    let varint = VarInt(128);
    let mut buf = Vec::new();
    varint.encode(&mut buf).unwrap();
    assert_eq!(buf, vec![0x80, 0x01]);
}

#[test]
fn test_varint_encode_max_positive() {
    let varint = VarInt(2147483647);
    let mut buf = Vec::new();
    varint.encode(&mut buf).unwrap();
    assert_eq!(buf, vec![0xFF, 0xFF, 0xFF, 0xFF, 0x07]);
}

#[test]
fn test_varint_encode_negative_one() {
    let varint = VarInt(-1);
    let mut buf = Vec::new();
    varint.encode(&mut buf).unwrap();
    assert_eq!(buf, vec![0xFF, 0xFF, 0xFF, 0xFF, 0x0F]);
}

#[test]
fn test_varint_encode_min_negative() {
    let varint = VarInt(-2147483648);
    let mut buf = Vec::new();
    varint.encode(&mut buf).unwrap();
    assert_eq!(buf, vec![0x80, 0x80, 0x80, 0x80, 0x08]);
}

#[test]
fn test_varlong_encode_single_byte() {
    let varlong = VarLong(1);
    let mut buf = Vec::new();
    varlong.encode(&mut buf).unwrap();
    assert_eq!(buf, vec![0x01]);
}

#[test]
fn test_varlong_encode_multi_byte() {
    let varlong = VarLong(128);
    let mut buf = Vec::new();
    varlong.encode(&mut buf).unwrap();
    assert_eq!(buf, vec![0x80, 0x01]);
}

#[test]
fn test_varlong_encode_max_positive() {
    let varlong = VarLong(9223372036854775807);
    let mut buf = Vec::new();
    varlong.encode(&mut buf).unwrap();
    assert_eq!(buf, vec![0xFF, 0xFF, 0xFF, 0xFF, 0xFF, 0xFF, 0xFF, 0xFF, 0x7F]);
}

#[test]
fn test_varlong_encode_negative_one() {
    let varlong = VarLong(-1);
    let mut buf = Vec::new();
    varlong.encode(&mut buf).unwrap();
    assert_eq!(buf, vec![0xFF, 0xFF, 0xFF, 0xFF, 0xFF, 0xFF, 0xFF, 0xFF, 0xFF, 0x01]);
}

#[test]
fn test_varlong_encode_min_negative() {
    let varlong = VarLong(-9223372036854775808);
    let mut buf = Vec::new();
    varlong.encode(&mut buf).unwrap();
    assert_eq!(buf, vec![0x80, 0x80, 0x80, 0x80, 0x80, 0x80, 0x80, 0x80, 0x80, 0x01]);
}

#[test]
fn test_varint_round_trip_many_values() {
    let values = [
        0, 1, -1, 127, 128, 255, 300, 16383, 16384, 2097151, 2097152, 2147483647, -2147483648,
        -42, 1000000,
    ];
    for &v in values.iter() {
        let mut buf = Vec::new();
        VarInt(v).encode(&mut buf).unwrap();
        assert_eq!(buf.len(), VarInt(v).byte_len());
        let back = VarInt::from_bytes(&buf).unwrap();
        assert_eq!(back.0, v);
    }
}

#[test]
fn test_varlong_round_trip_many_values() {
    let values: [i64; 12] = [
        0,
        1,
        -1,
        127,
        128,
        2147483647,
        2147483648,
        -2147483648,
        9223372036854775807,
        -9223372036854775808,
        -7,
        34359738368,
    ];
    for &v in values.iter() {
        let mut buf = Vec::new();
        VarLong(v).encode(&mut buf).unwrap();
        assert_eq!(buf.len(), VarLong(v).byte_len());
        let back = VarLong::from_bytes(&buf).unwrap();
        assert_eq!(back.0, v);
    }
}

#[test]
fn test_varint_byte_len_minimal() {
    assert_eq!(VarInt(0).byte_len(), 1);
    assert_eq!(VarInt(127).byte_len(), 1);
    assert_eq!(VarInt(128).byte_len(), 2);
    assert_eq!(VarInt(16383).byte_len(), 2);
    assert_eq!(VarInt(16384).byte_len(), 3);
    assert_eq!(VarInt(2147483647).byte_len(), 5);
    assert_eq!(VarInt(-1).byte_len(), 5);
    assert_eq!(VarInt(-2147483648).byte_len(), 5);
}

#[test]
fn test_varlong_byte_len_minimal() {
    assert_eq!(VarLong(0).byte_len(), 1);
    assert_eq!(VarLong(127).byte_len(), 1);
    assert_eq!(VarLong(128).byte_len(), 2);
    assert_eq!(VarLong(9223372036854775807).byte_len(), 9);
    assert_eq!(VarLong(-1).byte_len(), 10);
    assert_eq!(VarLong(-9223372036854775808).byte_len(), 10);
}

#[test]
fn test_varint_decode_eof() {
    assert_eq!(VarInt::from_bytes(&[]), Err(CodecError::UnexpectedEof));
    assert_eq!(VarInt::from_bytes(&[0x80]), Err(CodecError::UnexpectedEof));
    assert_eq!(
        VarInt::from_bytes(&[0xFF, 0xFF, 0xFF, 0xFF, 0xFF]),
        Err(CodecError::MalformedVarInt)
    );
}

#[test]
fn test_varint_conversions() {
    let v: VarInt = 77.into();
    assert_eq!(v, VarInt(77));
    let n: i32 = v.into();
    assert_eq!(n, 77);
    let l: VarLong = (-5i64).into();
    assert_eq!(l, VarLong(-5));
    let m: i64 = l.into();
    assert_eq!(m, -5);
    assert_eq!(VarInt::default(), VarInt(0));
    assert_eq!(VarLong::default(), VarLong(0));
}
