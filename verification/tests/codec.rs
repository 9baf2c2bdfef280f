use jstring::codec::{decode_discriminant, encode_discriminant};

#[test]
fn encode_is_big_endian() {
    assert_eq!(
        encode_discriminant(0x0102_0304_0506_0708),
        [1, 2, 3, 4, 5, 6, 7, 8]
    );
    assert_eq!(encode_discriminant(1), [0, 0, 0, 0, 0, 0, 0, 1]);
    assert_eq!(encode_discriminant(0x1234_5678_9abc_def0), 0x1234_5678_9abc_def0u64.to_be_bytes());
}

#[test]
fn decode_is_big_endian() {
    assert_eq!(decode_discriminant(&[1, 2, 3, 4, 5, 6, 7, 8]), 0x0102_0304_0506_0708);
    assert_eq!(decode_discriminant(&[0, 0, 0, 0, 0, 0, 0, 31]), 31);
    assert_eq!(
        decode_discriminant(&[0xff, 0, 0, 0, 0, 0, 0, 0]),
        u64::from_be_bytes([0xff, 0, 0, 0, 0, 0, 0, 0])
    );
}

#[test]
fn codec_round_trips() {
    for logical in [0u64, 1, 2, 31, 0x7fff_dead_beef_0010, u64::MAX] {
        assert_eq!(decode_discriminant(&encode_discriminant(logical)), logical);
        assert_eq!(encode_discriminant(logical)[7], (logical & 0xff) as u8);
    }
    let raw = [9u8, 8, 7, 6, 5, 4, 3, 2];
    assert_eq!(encode_discriminant(decode_discriminant(&raw)), raw);
}
