use maelstrom::codec::{
    append_bytes, bytes_eq, copy_bytes, encode_u16, encode_u24, encode_u32, encode_u64, encode_u8,
    encode_vec, CodecError, Cursor, VecSize,
};
use maelstrom::utils::zero;

#[test]
fn integers_are_written_high_byte_first() {
    let mut buffer = vec![9u8];
    encode_u8(&mut buffer, 0xab);
    encode_u16(&mut buffer, 0x1234);
    encode_u24(&mut buffer, 0x0a0b0c);
    encode_u32(&mut buffer, 0xdeadbeef);
    encode_u64(&mut buffer, 0x0102030405060708);
    assert_eq!(
        buffer,
        vec![
            9, 0xab, 0x12, 0x34, 0x0a, 0x0b, 0x0c, 0xde, 0xad, 0xbe, 0xef, 1, 2, 3, 4, 5, 6, 7, 8
        ]
    );
}

#[test]
fn vectors_are_written_behind_their_length() {
    let mut buffer = Vec::new();
    assert_eq!(encode_vec(VecSize::VecU8, &mut buffer, &[1, 2, 3]), Ok(()));
    assert_eq!(encode_vec(VecSize::VecU16, &mut buffer, &[4]), Ok(()));
    assert_eq!(encode_vec(VecSize::VecU24, &mut buffer, &[5]), Ok(()));
    assert_eq!(encode_vec(VecSize::VecU32, &mut buffer, &[]), Ok(()));
    assert_eq!(buffer, vec![3, 1, 2, 3, 0, 1, 4, 0, 0, 1, 5, 0, 0, 0, 0]);
}

#[test]
fn a_vector_too_long_for_its_prefix_is_refused() {
    let mut buffer = vec![7u8];
    let long = vec![0u8; 256];
    assert_eq!(
        encode_vec(VecSize::VecU8, &mut buffer, &long),
        Err(CodecError::EncodingError)
    );
    assert_eq!(buffer, vec![7u8]);
    assert_eq!(encode_vec(VecSize::VecU16, &mut buffer, &long), Ok(()));
    assert_eq!(buffer.len(), 1 + 2 + 256);
    assert_eq!(&buffer[..3], &[7, 1, 0]);
}

#[test]
fn integers_are_read_back() {
    let bytes = vec![
        0xab, 0x12, 0x34, 0x0a, 0x0b, 0x0c, 0xde, 0xad, 0xbe, 0xef, 1, 2, 3, 4, 5, 6, 7, 8,
    ];
    let mut cursor = Cursor::new(&bytes);
    assert_eq!(cursor.decode_u8(), Ok(0xab));
    assert_eq!(cursor.decode_u16(), Ok(0x1234));
    assert_eq!(cursor.decode_u24(), Ok(0x0a0b0c));
    assert_eq!(cursor.decode_u32(), Ok(0xdeadbeef));
    assert_eq!(cursor.has_more(), 8);
    assert_eq!(cursor.decode_u64(), Ok(0x0102030405060708));
    assert!(cursor.is_empty());
    assert_eq!(cursor.decode_u8(), Err(CodecError::DecodingError));
}

#[test]
fn vectors_are_read_back() {
    let bytes = vec![3, 1, 2, 3, 0, 1, 4, 0, 0, 1, 5, 0, 0, 0, 0];
    let mut cursor = Cursor::new(&bytes);
    assert_eq!(cursor.decode_vec(VecSize::VecU8), Ok(vec![1, 2, 3]));
    assert_eq!(cursor.decode_vec(VecSize::VecU16), Ok(vec![4]));
    assert_eq!(cursor.decode_vec(VecSize::VecU24), Ok(vec![5]));
    assert_eq!(cursor.decode_vec(VecSize::VecU32), Ok(vec![]));
    assert!(cursor.is_empty());
}

#[test]
fn a_vector_that_ends_early_is_refused_and_nothing_is_read() {
    let bytes = vec![3, 1, 2];
    let mut cursor = Cursor::new(&bytes);
    assert_eq!(
        cursor.decode_vec(VecSize::VecU8),
        Err(CodecError::DecodingError)
    );
    assert_eq!(cursor.has_more(), 3);
    assert_eq!(cursor.decode_u16(), Ok(0x0301));
    assert_eq!(cursor.decode_u16(), Err(CodecError::DecodingError));
    assert_eq!(cursor.consume(2), Err(CodecError::DecodingError));
    assert_eq!(cursor.consume(1), Ok(vec![2]));
}

#[test]
fn byte_helpers() {
    assert!(bytes_eq(&[1, 2], &[1, 2]));
    assert!(!bytes_eq(&[1, 2], &[1, 3]));
    assert!(!bytes_eq(&[1, 2], &[1]));
    assert_eq!(copy_bytes(&[4, 5]), vec![4, 5]);
    let mut buffer = vec![1u8];
    append_bytes(&mut buffer, &[2, 3]);
    assert_eq!(buffer, vec![1, 2, 3]);
    assert_eq!(zero(3), vec![0, 0, 0]);
    assert_eq!(zero(0), Vec::<u8>::new());
}
