use bincode::small::{SmallU32x2, SmallU32x8, SmallU8x24};

#[test]
fn test_smallvec() {
    let start = SmallU32x8::from_vec(vec![5, 6, 7, 8]);

    let encoded_size = bincode::encoded_size(&start, bincode::config::standard()).unwrap();
    let data = bincode::encode_to_vec(&start, bincode::config::standard()).unwrap();
    assert_eq!(data.len(), encoded_size);

    let decoded_unspilled: SmallU32x8 =
        bincode::decode_from_slice(&data, bincode::config::standard())
            .unwrap()
            .0;
    assert_eq!(start.as_slice(), decoded_unspilled.as_slice());

    // The backing array size doesn't actually matter
    let decoded_spilled: SmallU32x2 =
        bincode::decode_from_slice(&data, bincode::config::standard())
            .unwrap()
            .0;
    assert_eq!(start.as_slice(), decoded_spilled.as_slice());

    // And, in fact, we can even decode as a Vec
    let decoded_vec: Vec<u32> = bincode::decode_from_slice(&data, bincode::config::standard())
        .unwrap()
        .0;
    assert_eq!(start.as_slice(), decoded_vec.as_slice());
}

#[test]
fn test_smallvec_bytes() {
    let start = SmallU8x24::from_vec(b"Hello, world!".to_vec());

    let encoded_size = bincode::encoded_size(&start, bincode::config::standard()).unwrap();
    let data = bincode::encode_to_vec(&start, bincode::config::standard()).unwrap();
    assert_eq!(data.len(), encoded_size);

    let decoded: SmallU8x24 = bincode::decode_from_slice(&data, bincode::config::standard())
        .unwrap()
        .0;
    assert_eq!(start.as_slice(), decoded.as_slice());
}

#[test]
fn test_smallvec_wire_format() {
    // The length prefix, then each element as a varint: all inline bytes
    // for the small values used here.
    let start = SmallU32x8::from_vec(vec![5, 6, 7, 8]);
    let data = bincode::encode_to_vec(&start, bincode::config::standard()).unwrap();
    assert_eq!(data, vec![4, 5, 6, 7, 8]);
}
