use jstring::utf8::{at_char_boundary, char_at, encode_char, last_char_start, scalar_width, validate_utf8};

#[test]
fn widths_of_first_characters() {
    assert_eq!(scalar_width(b"a", 0), 1);
    assert_eq!(scalar_width("\u{e9}".as_bytes(), 0), 2);
    assert_eq!(scalar_width("\u{20ac}".as_bytes(), 0), 3);
    assert_eq!(scalar_width("\u{1f496}".as_bytes(), 0), 4);
    assert_eq!(scalar_width("a\u{20ac}".as_bytes(), 1), 3);
    assert_eq!(scalar_width("a\u{20ac}".as_bytes(), 2), 0);
    assert_eq!(scalar_width(&[0xe2, 0x82], 0), 0);
    assert_eq!(scalar_width(&[0xed, 0xa0, 0x80], 0), 0);
    assert_eq!(scalar_width(&[0xc0, 0x80], 0), 0);
    assert_eq!(scalar_width(&[0xf8, 0x80, 0x80, 0x80], 0), 0);
}

#[test]
fn validation_reports_the_offset() {
    assert!(validate_utf8("gr\u{fc}n".as_bytes()).is_ok());
    assert_eq!(validate_utf8(&[b'a', b'b', 0xff, b'c']).err().unwrap().valid_up_to(), 2);
    assert_eq!(validate_utf8(&[0xe2, 0x82, 0xac, 0xe2, 0x82]).err().unwrap().valid_up_to(), 3);
}

#[test]
fn every_character_encodes_as_std_does() {
    let mut buffer = [0u8; 4];
    for scalar in (0u32..0x11_0000).step_by(7).chain([0x7f, 0x80, 0x7ff, 0x800, 0xffff, 0x10000, 0x10ffff]) {
        if let Some(ch) = char::from_u32(scalar) {
            let ours = encode_char(ch);
            assert_eq!(&ours[..], ch.encode_utf8(&mut buffer).as_bytes());
            assert_eq!(char_at(&ours, 0), (ch, ch.len_utf8()));
        }
    }
}

#[test]
fn boundaries_and_last_character() {
    let text = "ab\u{e9}\u{1f496}";
    let bytes = text.as_bytes();
    for index in 0..=bytes.len() + 2 {
        assert_eq!(at_char_boundary(bytes, index), text.is_char_boundary(index));
    }
    assert_eq!(last_char_start(bytes), 4);
    assert_eq!(last_char_start(b"x"), 0);
    assert_eq!(char_at(bytes, 2), ('\u{e9}', 2));
}
