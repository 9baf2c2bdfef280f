use jstring::{JavaString, Utf16Error};
use std::cmp::Ordering;

#[test]
fn sparkle_heart_is_inline_text() {
    let sparkle_heart = vec![240, 159, 146, 150];
    let sparkle_heart = JavaString::from_utf8(&sparkle_heart).unwrap();
    assert!(sparkle_heart == "💖");
    assert_eq!(sparkle_heart.as_bytes(), &[240, 159, 146, 150]);
    assert_eq!(sparkle_heart.len(), 4);
}

#[test]
fn invalid_bytes_are_rejected() {
    let sparkle_heart = vec![0, 159, 146, 150];
    assert!(JavaString::from_utf8(&sparkle_heart).is_err());
    let error = JavaString::from_utf8(&sparkle_heart).err().unwrap();
    assert_eq!(error.valid_up_to(), 1);
}

#[test]
fn validation_agrees_with_std() {
    let cases: [&[u8]; 16] = [
        b"",
        b"plain ascii",
        "h\u{e9}llo w\u{f6}rld".as_bytes(),
        "\u{20ac}\u{10348}\u{7ff}\u{800}\u{ffff}\u{10000}\u{10ffff}".as_bytes(),
        &[0xc0, 0x80],
        &[0xc1, 0xbf],
        &[0xe0, 0x9f, 0xbf],
        &[0xed, 0xa0, 0x80],
        &[0xed, 0x9f, 0xbf],
        &[0xf0, 0x8f, 0xbf, 0xbf],
        &[0xf4, 0x90, 0x80, 0x80],
        &[0xf4, 0x8f, 0xbf, 0xbf],
        &[0xf5, 0x80, 0x80, 0x80],
        &[b'a', b'b', 0xe2, 0x82],
        &[b'a', 0x80, b'b'],
        &[0xff],
    ];
    for bytes in cases {
        match (JavaString::from_utf8(bytes), std::str::from_utf8(bytes)) {
            (Ok(ours), Ok(theirs)) => assert_eq!(ours.as_str(), theirs),
            (Err(ours), Err(theirs)) => assert_eq!(ours.valid_up_to(), theirs.valid_up_to()),
            _ => panic!("disagreement on {:?}", bytes),
        }
    }
}

#[test]
fn new_is_empty() {
    let string = JavaString::new();
    assert!(string.is_empty());
    assert_eq!(string.capacity(), 0);
    assert_eq!(JavaString::with_capacity(10).len(), 0);
    assert_eq!(string.as_str(), "");
}

#[test]
fn push_str_appends() {
    let mut s = JavaString::from("foo");

    s.push_str("bar");
    assert!(s == "foobar");

    s.push_str("foobar");
    assert!(s == "foobarfoobar");

    s.push_str("0123456789");
    assert_eq!(s.as_bytes(), b"foobarfoobar0123456789");
    assert_eq!(s.capacity(), s.len());
}

#[test]
fn push_appends_one_character() {
    let mut s = JavaString::from("foo");

    s.push('b');
    assert!(s == "foob");

    s.push('a');
    assert!(s == "fooba");

    s.push('r');
    assert!(s == "foobar");

    s.push('\u{e9}');
    s.push('\u{20ac}');
    s.push('\u{1f496}');
    assert_eq!(s.as_str(), "foobar\u{e9}\u{20ac}\u{1f496}");
    assert_eq!(s.len(), 6 + 2 + 3 + 4);
}

#[test]
fn pop_takes_the_last_character() {
    let mut s = JavaString::from("foo");

    assert_eq!(s.pop(), Some('o'));
    assert_eq!(s.pop(), Some('o'));
    assert_eq!(s.pop(), Some('f'));
    assert_eq!(s.pop(), None);
    assert!(s.is_empty());

    let mut s = JavaString::from("a\u{e9}\u{20ac}\u{1f496}");
    assert_eq!(s.pop(), Some('\u{1f496}'));
    assert_eq!(s.pop(), Some('\u{20ac}'));
    assert_eq!(s.pop(), Some('\u{e9}'));
    assert_eq!(s.as_str(), "a");
}

#[test]
fn remove_takes_the_character_at_an_offset() {
    let mut s = JavaString::from("foo");

    assert_eq!(s.remove(0), 'f');
    assert_eq!(s.remove(1), 'o');
    assert_eq!(s.remove(0), 'o');
    assert!(s.is_empty());

    let mut s = JavaString::from("a\u{20ac}b and a tail that is long enough");
    assert_eq!(s.remove(1), '\u{20ac}');
    assert_eq!(s.as_str(), "ab and a tail that is long enough");
}

#[test]
fn truncate_keeps_a_prefix() {
    let mut s = JavaString::from("hello, wide world of text");
    s.truncate(12);
    assert_eq!(s.as_str(), "hello, wide ");
    s.truncate(12);
    assert_eq!(s.len(), 12);
    s.truncate(0);
    assert!(s.is_empty());
}

#[test]
fn char_boundaries() {
    let s = JavaString::from("a\u{20ac}b");
    assert!(s.is_char_boundary(0));
    assert!(s.is_char_boundary(1));
    assert!(!s.is_char_boundary(2));
    assert!(!s.is_char_boundary(3));
    assert!(s.is_char_boundary(4));
    assert!(s.is_char_boundary(5));
    assert!(!s.is_char_boundary(6));
}

#[test]
fn reservations_change_nothing() {
    let mut s = JavaString::from("abc");
    s.reserve(100);
    s.reserve_exact(100);
    assert_eq!(s.try_reserve(100), Ok(()));
    assert_eq!(s.try_reserve_exact(100), Ok(()));
    s.shrink_to_fit();
    s.shrink_to(1);
    assert_eq!(s.capacity(), 3);
    assert_eq!(s.into_bytes(), b"abc".to_vec());
}

#[test]
fn utf16_is_decoded() {
    let units: Vec<u16> = "m\u{fc}sic \u{1d11e}".encode_utf16().collect();
    let s = JavaString::from_utf16(&units).ok().unwrap();
    assert_eq!(s.as_str(), "m\u{fc}sic \u{1d11e}");
    assert!(JavaString::from_utf16(&[0xD834]).err() == Some(Utf16Error {}));
}

#[test]
fn lossy_decoding_replaces_what_is_invalid() {
    assert_eq!(JavaString::from_utf8_lossy(b"Hello \xF0\x90\x80World"), "Hello \u{fffd}World");
    assert_eq!(JavaString::from_utf8_lossy(&[240, 159, 146, 150]), "\u{1f496}");
}

#[test]
fn unchecked_construction_keeps_the_bytes() {
    let s = JavaString::from_utf8_unchecked("long enough to need the heap".as_bytes().to_vec());
    assert_eq!(s.as_str(), "long enough to need the heap");
}

#[test]
fn strings_convert_and_deref() {
    let s = JavaString::from(String::from("owned text"));
    let text: &str = &s;
    assert_eq!(text, "owned text");
    assert!(s.starts_with("owned"));
    assert_eq!(s.chars().count(), 10);
}

#[test]
fn order_is_that_of_the_bytes() {
    let a = JavaString::from("apple");
    let b = JavaString::from("apples and a good deal more");
    let c = JavaString::from("banana");
    assert_eq!(a.cmp(&b), Ordering::Less);
    assert_eq!(b.cmp(&a), Ordering::Greater);
    assert_eq!(b.cmp(&c), Ordering::Less);
    assert_eq!(a.cmp(&a.clone()), Ordering::Equal);
    assert!(a < b && b < c && c > a);
    assert_eq!(a.partial_cmp(&c), "apple".partial_cmp("banana"));
    assert!(a == a.clone());
    assert!(a != b);
    assert!(a == *"apple");
}

#[test]
fn clone_does_not_follow_later_changes() {
    let mut first = JavaString::from("the first string, which lives on the heap");
    let copy = first.clone();
    first.push_str("!");
    assert_eq!(copy.as_str(), "the first string, which lives on the heap");
    assert_eq!(first.as_str(), "the first string, which lives on the heap!");
}

#[test]
fn string_is_two_words() {
    assert_eq!(std::mem::size_of::<JavaString>(), 2 * std::mem::size_of::<usize>());
    assert_eq!(std::mem::size_of::<Option<JavaString>>(), 2 * std::mem::size_of::<usize>());
}
