use jstring::raw_string::{Mode, RawJavaString};
use std::mem;

#[test]
fn new_does_not_use_heap() {
    let string = RawJavaString::new();
    assert!(string.is_interned(), "Empty RawJavaString isn't interned!");
}

#[test]
fn option_size() {
    assert!(
        mem::size_of::<Option<RawJavaString>>() == 2 * mem::size_of::<usize>(),
        "Size of Option<JavaString> is incorrect!"
    );
}

#[test]
fn size() {
    assert!(
        mem::size_of::<RawJavaString>() == 2 * mem::size_of::<usize>(),
        "Size of JavaString is incorrect!"
    );
}

#[test]
fn from_bytes() {
    let bytes: &[u8] = &[12, 3, 2, 1];
    let string = RawJavaString::from_bytes(bytes);
    assert!(string.is_interned(), "String should be interned but isn't.");

    assert!(
        bytes == string.get_bytes(),
        "String should have value `{:?}`, but instead has value `{:?}`",
        bytes,
        string.get_bytes()
    );
}

#[test]
fn from_bytes_large_with_nulls() {
    let bytes: &[u8] = &[0; 127];

    let string = RawJavaString::from_bytes(bytes);
    assert!(
        !string.is_interned(),
        "String shouldn't be interned but is."
    );

    assert!(
        bytes == string.get_bytes(),
        "String should have value `{:?}`, but instead has value `{:?}`",
        bytes,
        string.get_bytes()
    );
}

#[test]
fn large_interned() {
    let zeros = vec![0u8; RawJavaString::max_intern_len()];
    let ones = vec![1u8; RawJavaString::max_intern_len()];
    let bytes: &[u8] = &zeros;
    let bytes_2: &[u8] = &ones;

    let mut string = RawJavaString::from_bytes(bytes);
    assert!(string.is_interned(), "String should be interned but isn't.");

    assert!(
        bytes == string.get_bytes(),
        "String should have value `{:?}`, but instead has value `{:?}`",
        bytes,
        string.get_bytes()
    );

    string.set_bytes(bytes_2);
    assert!(string.is_interned(), "String should be interned but isn't.");

    assert!(
        bytes_2 == string.get_bytes(),
        "String should have value `{:?}`, but instead has value `{:?}`",
        bytes,
        string.get_bytes()
    );
}

#[test]
fn from_bytes_large() {
    let bytes: &[u8] = &[1; 255];

    let string = RawJavaString::from_bytes(bytes);
    assert!(
        !string.is_interned(),
        "String shouldn't be interned but is."
    );

    assert!(
        bytes == string.get_bytes(),
        "String should have value `{:?}`, but instead has value `{:?}`",
        bytes,
        string.get_bytes()
    );
}

#[test]
fn inline_capacity_is_fifteen() {
    assert_eq!(RawJavaString::max_intern_len(), 15);
    assert_eq!(RawJavaString::max_intern_len(), 2 * mem::size_of::<usize>() - 1);
}

#[test]
fn empty_is_inline_with_length_zero() {
    let string = RawJavaString::from_bytes(&[]);
    assert_eq!(string.classify(), Mode::Inline { length: 0 });
    assert_eq!(string.len(), 0);
    assert_eq!(string.read_ptr(), 1);
    assert!(string.get_bytes().is_empty());
}

#[test]
fn capacity_boundary_lands_on_opposite_sides() {
    let at = vec![7u8; 15];
    let over = vec![7u8; 16];
    let inline = RawJavaString::from_bytes(&at);
    let heap = RawJavaString::from_bytes(&over);
    assert!(inline.is_interned());
    assert!(!heap.is_interned());
    assert_eq!(inline.classify(), Mode::Inline { length: 15 });
    assert!(matches!(heap.classify(), Mode::Heap { length: 16, .. }));
    assert_eq!(inline.get_bytes(), &at[..]);
    assert_eq!(heap.get_bytes(), &over[..]);
}

#[test]
fn discriminant_holds_tag_and_late_bytes() {
    let bytes: Vec<u8> = (1u8..=10).collect();
    let string = RawJavaString::from_bytes(&bytes);
    // bytes 9 and 10 lead the second word; the tag (10 << 1) | 1 ends it
    assert_eq!(string.read_ptr(), 0x090a_0000_0000_0015);
    assert_eq!(string.len(), 10);
}

#[test]
fn heap_pointer_is_even_and_not_null() {
    let bytes = vec![3u8; 40];
    let string = RawJavaString::from_bytes(&bytes);
    let pointer = string.read_ptr();
    assert_ne!(pointer, 0);
    assert_eq!(pointer % 2, 0);
    match string.classify() {
        Mode::Heap { pointer: seen, length } => {
            assert_eq!(seen, pointer);
            assert_eq!(length, 40);
        }
        Mode::Inline { .. } => panic!("a string of 40 bytes is inline"),
    }
}

#[test]
fn concatenation_keeps_order() {
    let parts: [&[u8]; 4] = [b"ab", b"", b"cde", b"f"];
    let string = RawJavaString::from_bytes_array(&parts);
    assert!(string.is_interned());
    assert_eq!(string.get_bytes(), b"abcdef");

    let long: [&[u8]; 3] = [b"0123456789", b"abcdef", b"!"];
    let string = RawJavaString::from_bytes_array(&long);
    assert!(!string.is_interned());
    assert_eq!(string.get_bytes(), b"0123456789abcdef!");
    assert_eq!(string.len(), 17);

    let none: [&[u8]; 0] = [];
    let string = RawJavaString::from_bytes_array(&none);
    assert!(string.is_interned());
    assert_eq!(string.len(), 0);
}

#[test]
fn replace_moves_between_modes() {
    let mut string = RawJavaString::from_bytes(&[0xAA; 15]);
    assert!(string.is_interned());
    string.set_bytes(&[0xBB; 15]);
    assert!(string.is_interned());
    assert_eq!(string.get_bytes(), &[0xBB; 15]);
    string.set_bytes(&[0xCC; 100]);
    assert!(!string.is_interned());
    assert_eq!(string.get_bytes(), &[0xCC; 100][..]);
    string.set_bytes(b"x");
    assert!(string.is_interned());
    assert_eq!(string.get_bytes(), b"x");
}

#[test]
fn clone_is_deep() {
    let first = RawJavaString::from_bytes(&[5u8; 64]);
    let mut copy = first.clone();
    assert_ne!(first.read_ptr(), copy.read_ptr());
    copy.set_bytes(b"changed");
    assert_eq!(first.get_bytes(), &[5u8; 64][..]);
    assert_eq!(copy.get_bytes(), b"changed");

    let mut first = RawJavaString::from_bytes(b"short");
    let copy = first.clone();
    first.set_bytes(&[9u8; 33]);
    assert_eq!(copy.get_bytes(), b"short");
    assert_eq!(first.get_bytes(), &[9u8; 33][..]);
}

#[test]
fn into_bytes_gives_the_content() {
    assert_eq!(RawJavaString::from_bytes(b"abc").into_bytes(), b"abc".to_vec());
    assert_eq!(RawJavaString::from_bytes(&[1u8; 20]).into_bytes(), vec![1u8; 20]);
}

#[test]
fn many_heap_handles_come_and_go() {
    for round in 0..1000usize {
        let bytes = vec![(round % 251) as u8; 16 + round % 64];
        let string = RawJavaString::from_bytes(&bytes);
        assert!(!string.is_interned());
        assert_eq!(string.get_bytes(), &bytes[..]);
    }
}

#[test]
fn write_ptr_sets_length_and_late_bytes() {
    let mut string = RawJavaString::from_bytes(b"abcdefgh");
    // two more bytes, 'i' and 'j', and the tag of length 10
    string.write_ptr(0x696a_0000_0000_0015);
    assert_eq!(string.read_ptr(), 0x696a_0000_0000_0015);
    assert_eq!(string.get_bytes(), b"abcdefghij");
    string.write_ptr(1);
    assert_eq!(string.len(), 0);
    assert!(string.is_interned());
}

#[test]
fn handle_derefs_to_its_bytes() {
    let string = RawJavaString::from_bytes(b"bytes");
    let bytes: &[u8] = &string;
    assert_eq!(bytes, b"bytes");
    assert_eq!(string.first(), Some(&b'b'));
}

#[test]
fn four_byte_character_stays_inline() {
    let string = RawJavaString::from_bytes(&[240, 159, 146, 150]);
    assert!(string.is_interned());
    assert_eq!(string.classify(), Mode::Inline { length: 4 });
    assert_eq!(string.get_bytes(), &[240, 159, 146, 150]);
    assert_eq!(string.read_ptr(), 9);
}

#[test]
fn empty_discriminant_is_one() {
    assert_eq!(RawJavaString::new().read_ptr(), 1);
    assert_eq!(RawJavaString::from_bytes_array(&[]).read_ptr(), 1);
}

#[test]
fn clone_starts_from_clean_storage() {
    let mut string = RawJavaString::from_bytes(b"abcdefgh");
    string.write_ptr(0x696a_0000_0000_0011);
    assert_eq!(string.get_bytes(), b"abcdefgh");
    assert_eq!(string.read_ptr(), 0x696a_0000_0000_0011);
    assert_eq!(string.clone().read_ptr(), 0x11);
}
