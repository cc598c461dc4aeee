use u4pak::codec::{decode_u32, decode_u64, encode_u32, encode_u64};
use u4pak::error::Error;

#[test]
fn u32_is_written_least_significant_byte_first() {
    let mut out = vec![0xAA];
    encode_u32(&mut out, 0x1234_5678);
    assert_eq!(out, vec![0xAA, 0x78, 0x56, 0x34, 0x12]);
}

#[test]
fn u64_is_written_least_significant_byte_first() {
    let mut out = Vec::new();
    encode_u64(&mut out, 0x0102_0304_0506_0708);
    assert_eq!(out, vec![8, 7, 6, 5, 4, 3, 2, 1]);
}

#[test]
fn u32_extremes_round_trip() {
    for v in [0u32, 1, 255, 256, 65535, 65536, 0x00FF_FFFF, 0x0100_0000, u32::MAX] {
        let mut out = Vec::new();
        encode_u32(&mut out, v);
        assert_eq!(out.len(), 4);
        assert_eq!(decode_u32(&out, 0), Ok((v, 4)));
    }
}

#[test]
fn u64_extremes_round_trip() {
    for v in [0u64, 1, 0xFFFF_FFFF, 0x1_0000_0000, 0x1234_5678_9ABC_DEF0, u64::MAX] {
        let mut out = vec![9, 9, 9];
        encode_u64(&mut out, v);
        assert_eq!(out.len(), 11);
        assert_eq!(decode_u64(&out, 3), Ok((v, 11)));
    }
}

#[test]
fn u32_decodes_at_a_position() {
    let data = [0xFF, 0x01, 0x00, 0x00, 0x00, 0xFF];
    assert_eq!(decode_u32(&data, 1), Ok((1, 5)));
    assert_eq!(decode_u32(&data, 2), Ok((0xFF00_0000, 6)));
}

#[test]
fn short_data_is_truncated() {
    assert_eq!(decode_u32(&[1, 2, 3], 0), Err(Error::Truncated));
    assert_eq!(decode_u32(&[1, 2, 3, 4], 1), Err(Error::Truncated));
    assert_eq!(decode_u32(&[], 0), Err(Error::Truncated));
    assert_eq!(decode_u64(&[1, 2, 3, 4, 5, 6, 7], 0), Err(Error::Truncated));
    assert_eq!(decode_u64(&[0; 8], 1), Err(Error::Truncated));
    assert_eq!(decode_u64(&[0; 8], usize::MAX), Err(Error::Truncated));
}
