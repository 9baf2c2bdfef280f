use jstring::lexical::order;

#[test]
fn order_of_byte_slices() {
    assert_eq!(order(b"", b""), 0);
    assert_eq!(order(b"", b"a"), -1);
    assert_eq!(order(b"a", b""), 1);
    assert_eq!(order(b"abc", b"abd"), -1);
    assert_eq!(order(b"abd", b"abc"), 1);
    assert_eq!(order(b"abc", b"abc"), 0);
    assert_eq!(order(b"ab", b"abc"), -1);
    assert_eq!(order(&[0xff], &[0x00, 0x01]), 1);
}
