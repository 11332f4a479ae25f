use std::collections::VecDeque;

use bincode::budget::ReadBudget;
use bincode::config::{standard, legacy, Config, Limit};
use bincode::enc::VecWriter;
use bincode::error::DecodeError;
use bincode::varint::{varint_size_u128, varint_size_u32, varint_size_u64};
use bincode::{borrow_decode_from_slice, decode_from_slice, encode_into_writer, encode_to_vec, encoded_size};

fn all_configs() -> Vec<Config> {
    vec![
        standard(),
        standard().with_big_endian(),
        standard().with_fixed_int_encoding(),
        standard().with_big_endian().with_fixed_int_encoding(),
        legacy(),
        legacy().with_big_endian(),
        legacy().with_variable_int_encoding(),
    ]
}

#[test]
fn test_varint_wire_bytes() {
    // a small value lives inline in the tag byte
    assert_eq!(encode_to_vec(5u32, standard()).unwrap(), vec![5]);
    assert_eq!(encode_to_vec(250u32, standard()).unwrap(), vec![250]);
    // past the inline band: a 16-bit tier tag, then the payload
    assert_eq!(encode_to_vec(251u32, standard()).unwrap(), vec![251, 251, 0]);
    assert_eq!(
        encode_to_vec(251u32, standard().with_big_endian()).unwrap(),
        vec![251, 0, 251]
    );
    assert_eq!(
        encode_to_vec(0x1_0000u32, standard()).unwrap(),
        vec![252, 0, 0, 1, 0]
    );
    // fixed encoding always writes the native width
    assert_eq!(
        encode_to_vec(5u32, standard().with_fixed_int_encoding()).unwrap(),
        vec![5, 0, 0, 0]
    );
    assert_eq!(
        encode_to_vec(5u32, standard().with_fixed_int_encoding().with_big_endian()).unwrap(),
        vec![0, 0, 0, 5]
    );
    // a u8 is always one raw byte, never tagged
    assert_eq!(encode_to_vec(255u8, standard()).unwrap(), vec![255]);
}

#[test]
fn test_varint_signed_wire_bytes() {
    // the signed inline band is zigzagged: magnitudes alternate by sign
    assert_eq!(encode_to_vec(0i32, standard()).unwrap(), vec![0]);
    assert_eq!(encode_to_vec(-1i32, standard()).unwrap(), vec![1]);
    assert_eq!(encode_to_vec(1i32, standard()).unwrap(), vec![2]);
    assert_eq!(encode_to_vec(125i32, standard()).unwrap(), vec![250]);
    assert_eq!(encode_to_vec(-125i32, standard()).unwrap(), vec![249]);
    // past the band: two's complement at the 16-bit tier
    assert_eq!(encode_to_vec(126i32, standard()).unwrap(), vec![251, 126, 0]);
    assert_eq!(encode_to_vec(-126i32, standard()).unwrap(), vec![251, 130, 255]);
}

#[test]
fn test_round_trip_integers() {
    for c in all_configs() {
        for v in [0u32, 1, 5, 250, 251, 252, 65535, 65536, 100_000, u32::MAX] {
            let data = encode_to_vec(v, c).unwrap();
            assert_eq!(encoded_size(&v, c).unwrap(), data.len());
            let (back, used): (u32, usize) = decode_from_slice(&data, c).unwrap();
            assert_eq!(back, v);
            assert_eq!(used, data.len());
        }
        for v in [0i64, 1, -1, 125, -125, 126, -126, 32767, -32768, 5_000_000_000, i64::MIN, i64::MAX] {
            let data = encode_to_vec(v, c).unwrap();
            assert_eq!(encoded_size(&v, c).unwrap(), data.len());
            let (back, used): (i64, usize) = decode_from_slice(&data, c).unwrap();
            assert_eq!(back, v);
            assert_eq!(used, data.len());
        }
        for v in [0u128, 250, 65536, u64::MAX as u128, u64::MAX as u128 + 1, u128::MAX] {
            let data = encode_to_vec(v, c).unwrap();
            assert_eq!(encoded_size(&v, c).unwrap(), data.len());
            let (back, _): (u128, usize) = decode_from_slice(&data, c).unwrap();
            assert_eq!(back, v);
        }
        for v in [true, false] {
            let data = encode_to_vec(v, c).unwrap();
            let (back, _): (bool, usize) = decode_from_slice(&data, c).unwrap();
            assert_eq!(back, v);
        }
        for v in [0i8, 1, -1, i8::MIN, i8::MAX] {
            let data = encode_to_vec(v, c).unwrap();
            let (back, _): (i8, usize) = decode_from_slice(&data, c).unwrap();
            assert_eq!(back, v);
        }
        for v in [0usize, 5, 251, usize::MAX] {
            let data = encode_to_vec(v, c).unwrap();
            let (back, _): (usize, usize) = decode_from_slice(&data, c).unwrap();
            assert_eq!(back, v);
        }
    }
}

#[test]
fn test_round_trip_containers() {
    for c in all_configs() {
        let v: Vec<u32> = vec![5, 6, 7, 8, 300, 70000];
        let data = encode_to_vec(&v, c).unwrap();
        assert_eq!(encoded_size(&v, c).unwrap(), data.len());
        let (back, used): (Vec<u32>, usize) = decode_from_slice(&data, c).unwrap();
        assert_eq!(back, v);
        assert_eq!(used, data.len());

        let empty: Vec<u32> = vec![];
        let data = encode_to_vec(&empty, c).unwrap();
        let (back, _): (Vec<u32>, usize) = decode_from_slice(&data, c).unwrap();
        assert_eq!(back, empty);

        let nested: Vec<Vec<u8>> = vec![vec![1, 2], vec![], vec![255]];
        let data = encode_to_vec(&nested, c).unwrap();
        assert_eq!(encoded_size(&nested, c).unwrap(), data.len());
        let (back, _): (Vec<Vec<u8>>, usize) = decode_from_slice(&data, c).unwrap();
        assert_eq!(back, nested);

        let s = String::from("héllo, wörld");
        let data = encode_to_vec(&s, c).unwrap();
        assert_eq!(encoded_size(&s, c).unwrap(), data.len());
        let (back, _): (String, usize) = decode_from_slice(&data, c).unwrap();
        assert_eq!(back, s);

        let o: Option<u32> = Some(300);
        let data = encode_to_vec(&o, c).unwrap();
        assert_eq!(encoded_size(&o, c).unwrap(), data.len());
        let (back, _): (Option<u32>, usize) = decode_from_slice(&data, c).unwrap();
        assert_eq!(back, o);

        let n: Option<u32> = None;
        let data = encode_to_vec(&n, c).unwrap();
        let (back, _): (Option<u32>, usize) = decode_from_slice(&data, c).unwrap();
        assert_eq!(back, n);

        let b: Box<u64> = Box::new(12345);
        let data = encode_to_vec(&b, c).unwrap();
        let (back, _): (Box<u64>, usize) = decode_from_slice(&data, c).unwrap();
        assert_eq!(back, b);
    }
}

#[test]
fn test_round_trip_deque_and_shared() {
    for c in all_configs() {
        let q: VecDeque<u32> = VecDeque::from(vec![5, 6, 7, 300]);
        let data = encode_to_vec(&q, c).unwrap();
        assert_eq!(encoded_size(&q, c).unwrap(), data.len());
        let (back, used): (VecDeque<u32>, usize) = decode_from_slice(&data, c).unwrap();
        assert_eq!(back, q);
        assert_eq!(used, data.len());
        let (borrowed, _): (VecDeque<u32>, usize) = borrow_decode_from_slice(&data, c).unwrap();
        assert_eq!(borrowed, q);
        // a deque and a vector of the same elements share one wire format
        let (as_vec, _): (Vec<u32>, usize) = decode_from_slice(&data, c).unwrap();
        assert_eq!(as_vec, vec![5, 6, 7, 300]);
    }

    let rc: std::rc::Rc<u32> = std::rc::Rc::new(300);
    let data = encode_to_vec(&rc, standard()).unwrap();
    let (back, _): (std::rc::Rc<u32>, usize) = decode_from_slice(&data, standard()).unwrap();
    assert_eq!(back, rc);

    let arc: std::sync::Arc<String> = std::sync::Arc::new(String::from("shared"));
    let data = encode_to_vec(&arc, standard()).unwrap();
    let (back, _): (std::sync::Arc<String>, usize) = decode_from_slice(&data, standard()).unwrap();
    assert_eq!(back, arc);
}

#[test]
fn test_round_trip_byte_arrays() {
    // the standard preset skips the statically known length
    let a: [u8; 4] = [9, 8, 7, 6];
    let data = encode_to_vec(a, standard()).unwrap();
    assert_eq!(data, vec![9, 8, 7, 6]);
    let (back, _): ([u8; 4], usize) = decode_from_slice(&data, standard()).unwrap();
    assert_eq!(back, a);

    // the legacy preset writes the length and validates it on decode
    let data = encode_to_vec(a, legacy()).unwrap();
    assert_eq!(data, vec![4, 0, 0, 0, 0, 0, 0, 0, 9, 8, 7, 6]);
    assert_eq!(encoded_size(&a, legacy()).unwrap(), data.len());
    let (back, _): ([u8; 4], usize) = decode_from_slice(&data, legacy()).unwrap();
    assert_eq!(back, a);
}

#[test]
fn test_fixed_array_length_mismatch() {
    // a three-byte vector's encoding declares length 3; a four-byte array
    // rejects it, carrying both the found and the required size
    let v: Vec<u8> = vec![1, 2, 3];
    let data = encode_to_vec(&v, legacy()).unwrap();
    let r: Result<([u8; 4], usize), DecodeError> = decode_from_slice(&data, legacy());
    assert_eq!(
        r.unwrap_err(),
        DecodeError::ArrayLengthMismatch { found: 3, required: 4 }
    );
}

#[test]
fn test_budget_enforced() {
    // a buffer declaring 1000 elements claims 4000 bytes up front and
    // fails against a small limit before any element is read
    let big: Vec<u32> = vec![0; 1000];
    let data = encode_to_vec(&big, standard()).unwrap();
    let r: Result<(Vec<u32>, usize), DecodeError> =
        decode_from_slice(&data, standard().with_limit(100));
    assert_eq!(r.unwrap_err(), DecodeError::LimitExceeded);

    // a hostile length field declaring 2^32 elements fails just as fast,
    // with no allocation proportional to the declared length
    let mut hostile: Vec<u8> = vec![253, 0, 0, 0, 0, 1, 0, 0, 0];
    hostile.extend_from_slice(&[0; 16]);
    let r: Result<(Vec<u64>, usize), DecodeError> =
        decode_from_slice(&hostile, standard().with_limit(1024));
    assert_eq!(r.unwrap_err(), DecodeError::LimitExceeded);

    // within the limit, the same shape of buffer decodes
    let small: Vec<u32> = vec![1, 2, 3];
    let data = encode_to_vec(&small, standard()).unwrap();
    let (back, _): (Vec<u32>, usize) = decode_from_slice(&data, standard().with_limit(100)).unwrap();
    assert_eq!(back, small);
}

#[test]
fn test_borrow_equivalence() {
    for c in all_configs() {
        let v: Vec<u32> = vec![5, 6, 7, 300];
        let data = encode_to_vec(&v, c).unwrap();
        let owned: (Vec<u32>, usize) = decode_from_slice(&data, c).unwrap();
        let borrowed: (Vec<u32>, usize) = borrow_decode_from_slice(&data, c).unwrap();
        assert_eq!(owned, borrowed);

        let s = String::from("zero copy");
        let data = encode_to_vec(&s, c).unwrap();
        let owned: (String, usize) = decode_from_slice(&data, c).unwrap();
        let borrowed: (String, usize) = borrow_decode_from_slice(&data, c).unwrap();
        assert_eq!(owned, borrowed);
    }
}

#[test]
fn test_borrowed_bytes_alias_input() {
    // a borrowed byte slice points straight into the encoded buffer
    let payload: Vec<u8> = vec![10, 20, 30];
    let data = encode_to_vec(&payload, standard()).unwrap();
    let (slice, used): (&[u8], usize) = borrow_decode_from_slice(&data, standard()).unwrap();
    assert_eq!(slice, &[10, 20, 30]);
    assert_eq!(used, data.len());
    assert_eq!(slice.as_ptr(), data[1..].as_ptr());
}

#[test]
fn test_borrowed_str_aliases_input() {
    // borrowed text points straight into the encoded buffer
    let s = String::from("zero copy text");
    let data = encode_to_vec(&s, standard()).unwrap();
    let (text, used): (&str, usize) = borrow_decode_from_slice(&data, standard()).unwrap();
    assert_eq!(text, "zero copy text");
    assert_eq!(used, data.len());
    assert_eq!(text.as_bytes().as_ptr(), data[1..].as_ptr());

    // a str reference encodes exactly as the owned string
    let direct = encode_to_vec("zero copy text", standard()).unwrap();
    assert_eq!(direct, data);
    assert_eq!(encoded_size(&"zero copy text", standard()).unwrap(), data.len());

    // invalid bytes are rejected on the borrowed path too
    let bad: Vec<u8> = vec![0xFF];
    let encoded = encode_to_vec(&bad, standard()).unwrap();
    let r: Result<(&str, usize), DecodeError> = borrow_decode_from_slice(&encoded, standard());
    assert_eq!(r.unwrap_err(), DecodeError::Utf8);
}

#[test]
fn test_decode_errors() {
    // a tag announcing a payload that never comes
    let r: Result<(u32, usize), DecodeError> = decode_from_slice(&[251], standard());
    assert_eq!(r.unwrap_err(), DecodeError::UnexpectedEnd);

    // an empty buffer
    let r: Result<(u32, usize), DecodeError> = decode_from_slice(&[], standard());
    assert_eq!(r.unwrap_err(), DecodeError::UnexpectedEnd);

    // the one tag byte outside the defined set
    let r: Result<(u32, usize), DecodeError> = decode_from_slice(&[255], standard());
    assert_eq!(r.unwrap_err(), DecodeError::MalformedTag { found: 255 });

    // a tier too wide for the requested integer width
    let r: Result<(u16, usize), DecodeError> =
        decode_from_slice(&[253, 0, 0, 0, 0, 0, 0, 0, 0], standard());
    assert_eq!(r.unwrap_err(), DecodeError::MalformedTag { found: 253 });

    // a boolean byte outside 0 and 1
    let r: Result<(bool, usize), DecodeError> = decode_from_slice(&[2], standard());
    assert_eq!(r.unwrap_err(), DecodeError::MalformedTag { found: 2 });

    // bytes that are not valid UTF-8
    let bad: Vec<u8> = vec![0xFF, 0xFE];
    let data = encode_to_vec(&bad, standard()).unwrap();
    let r: Result<(String, usize), DecodeError> = decode_from_slice(&data, standard());
    assert_eq!(r.unwrap_err(), DecodeError::Utf8);

    // a discriminant with no matching variant
    let r: Result<(Option<u32>, usize), DecodeError> = decode_from_slice(&[5, 9], standard());
    assert_eq!(r.unwrap_err(), DecodeError::UnexpectedVariant { found: 5 });
}

#[test]
fn test_unsigned_tier_boundaries() {
    assert_eq!(varint_size_u32(250), 1);
    assert_eq!(varint_size_u32(251), 3);
    assert_eq!(varint_size_u32(65535), 3);
    assert_eq!(varint_size_u32(65536), 5);
    assert_eq!(varint_size_u64(u32::MAX as u64), 5);
    assert_eq!(varint_size_u64(u32::MAX as u64 + 1), 9);
    assert_eq!(varint_size_u128(u64::MAX as u128), 9);
    assert_eq!(varint_size_u128(u64::MAX as u128 + 1), 17);
    // the size functions mirror the encode path exactly
    for v in [0u128, 250, 251, 65535, 65536, u32::MAX as u128 + 1, u128::MAX] {
        let data = encode_to_vec(v, standard()).unwrap();
        assert_eq!(varint_size_u128(v), data.len());
    }
}

#[test]
fn test_encode_into_writer() {
    let w = VecWriter::new();
    let w = encode_into_writer(7u32, w, standard()).unwrap();
    let w = encode_into_writer(300u32, w, standard()).unwrap();
    assert_eq!(w.collect(), vec![7, 251, 44, 1]);
}

#[test]
fn test_decode_from_reader() {
    let data = encode_to_vec(vec![1u32, 2, 3], standard()).unwrap();
    let reader = bincode::de::SliceReader::new(&data);
    let back: Vec<u32> = bincode::decode_from_reader(reader, standard()).unwrap();
    assert_eq!(back, vec![1, 2, 3]);
}

#[test]
fn test_read_budget_claims() {
    let mut b = ReadBudget::new(Limit::Bytes(10));
    assert!(b.claim(4).is_ok());
    assert_eq!(b.remaining, Limit::Bytes(6));
    assert_eq!(b.claim(7).unwrap_err(), DecodeError::LimitExceeded);
    assert_eq!(b.remaining, Limit::Bytes(6));
    b.release(2);
    assert_eq!(b.remaining, Limit::Bytes(8));
    assert!(b.claim_container(2, 4).is_ok());
    assert_eq!(b.remaining, Limit::Bytes(0));
    assert_eq!(
        b.claim_container(usize::MAX, 2).unwrap_err(),
        DecodeError::LimitExceeded
    );

    let mut u = ReadBudget::new(Limit::Unlimited);
    assert!(u.claim(usize::MAX).is_ok());
    assert_eq!(u.remaining, Limit::Unlimited);
}

#[test]
fn test_string_wire_format() {
    let s = String::from("abc");
    let data = encode_to_vec(&s, standard()).unwrap();
    assert_eq!(data, vec![3, 97, 98, 99]);
    assert_eq!(encoded_size(&s, standard()).unwrap(), 4);
}
