use shasper::ssz::{
    decode_u32_vector, decode_u8_vector, encode_u32_vector, encode_u8_vector,
    bool_vector_size, decode_bool_vector, decode_fixed_composite, decode_u64_vector, decode_variable_composite, encode_bool_vector,
    encode_fixed_composite, encode_u64_vector, encode_variable_composite, u64_vector_size, Error,
};

#[test]
fn bool_vector_packs_lsb_first() {
    let bits = vec![true, false, true, true, false, false, false, false, true];
    assert_eq!(encode_bool_vector(&bits), vec![0b0000_1101, 0b0000_0001]);
    assert_eq!(encode_bool_vector(&[]), Vec::<u8>::new());
    assert_eq!(encode_bool_vector(&[false; 8]), vec![0]);
}

#[test]
fn bool_vector_round_trip() {
    let bits: Vec<bool> = (0..21).map(|i| i % 3 == 0 || i % 5 == 0).collect();
    let bytes = encode_bool_vector(&bits);
    assert_eq!(bytes.len(), 3);
    assert_eq!(decode_bool_vector(&bytes, bits.len()).unwrap().items, bits);
    assert_eq!(encode_bool_vector(&bits), bytes);
}

#[test]
fn bool_vector_decode_errors() {
    assert_eq!(decode_bool_vector(&[0xff], 9).unwrap_err(), Error::IncorrectSize);
    assert_eq!(decode_bool_vector(&[0xff, 0x00], 8).unwrap_err(), Error::InvalidLength);
    assert_eq!(decode_bool_vector(&[], 0).unwrap().items, Vec::<bool>::new());
    assert_eq!(decode_bool_vector(&[0b10], 2).unwrap().items, vec![false, true]);
}

#[test]
fn u64_vector_little_endian() {
    let xs = vec![1u64, 0x0102_0304_0506_0708, u64::MAX];
    let bytes = encode_u64_vector(&xs);
    assert_eq!(bytes.len(), 24);
    assert_eq!(&bytes[0..8], &[1, 0, 0, 0, 0, 0, 0, 0]);
    assert_eq!(&bytes[8..16], &[8, 7, 6, 5, 4, 3, 2, 1]);
    assert_eq!(decode_u64_vector(&bytes, 3).unwrap().items, xs);
}

#[test]
fn u64_vector_decode_errors() {
    assert_eq!(decode_u64_vector(&[0u8; 12], 1).unwrap_err(), Error::IncorrectSize);
    assert_eq!(decode_u64_vector(&[0u8; 16], 1).unwrap_err(), Error::InvalidLength);
    assert_eq!(decode_u64_vector(&[], 0).unwrap().items, Vec::<u64>::new());
}

#[test]
fn fixed_sizes() {
    assert_eq!(bool_vector_size(0), 0);
    assert_eq!(bool_vector_size(8), 1);
    assert_eq!(bool_vector_size(9), 2);
    assert_eq!(u64_vector_size(3), Some(24));
    assert_eq!(u64_vector_size(usize::MAX), None);
}

#[test]
fn fixed_composite_round_trip() {
    let items = vec![vec![1u8, 2, 3], vec![4, 5, 6], vec![7, 8, 9]];
    let bytes = encode_fixed_composite(&items);
    assert_eq!(bytes, vec![1, 2, 3, 4, 5, 6, 7, 8, 9]);
    assert_eq!(decode_fixed_composite(&bytes, 3, 3).unwrap(), items);
    assert_eq!(decode_fixed_composite(&bytes, 3, 2).unwrap_err(), Error::InvalidLength);
    assert_eq!(decode_fixed_composite(&bytes, 4, 2).unwrap_err(), Error::IncorrectSize);
}

#[test]
fn variable_composite_offsets() {
    let items = vec![vec![1u8, 2], vec![], vec![3u8, 4, 5]];
    let bytes = encode_variable_composite(&items);
    assert_eq!(bytes, vec![0, 0, 0, 0, 2, 0, 0, 0, 2, 0, 0, 0, 1, 2, 3, 4, 5]);
    assert_eq!(decode_variable_composite(&bytes, 3).unwrap(), items);
    assert_eq!(decode_variable_composite(&[], 0).unwrap(), Vec::<Vec<u8>>::new());
}

#[test]
fn variable_composite_errors() {
    assert_eq!(decode_variable_composite(&[0, 0, 0], 1).unwrap_err(), Error::IncorrectSize);
    // first offset not zero
    assert_eq!(decode_variable_composite(&[1, 0, 0, 0, 9], 1).unwrap_err(), Error::InvalidLength);
    // an offset past the end of the section
    assert_eq!(decode_variable_composite(&[0, 0, 0, 0, 3, 0, 0, 0, 1, 2], 2).unwrap_err(), Error::InvalidLength);
    // trailing bytes behind an empty vector
    assert_eq!(decode_variable_composite(&[7], 0).unwrap_err(), Error::InvalidLength);
}

#[test]
fn u32_and_u8_vectors() {
    let xs = vec![1u32, 0x0102_0304, u32::MAX];
    let bytes = encode_u32_vector(&xs);
    assert_eq!(bytes, vec![1, 0, 0, 0, 4, 3, 2, 1, 255, 255, 255, 255]);
    assert_eq!(decode_u32_vector(&bytes, 3).unwrap().items, xs);
    assert_eq!(decode_u32_vector(&bytes[..10], 3).unwrap_err(), Error::IncorrectSize);
    assert_eq!(decode_u32_vector(&bytes, 2).unwrap_err(), Error::InvalidLength);
    assert_eq!(encode_u8_vector(&[5, 6]), vec![5, 6]);
    assert_eq!(decode_u8_vector(&[5, 6], 2).unwrap().items, vec![5, 6]);
    assert_eq!(decode_u8_vector(&[5, 6], 3).unwrap_err(), Error::InvalidLength);
}
