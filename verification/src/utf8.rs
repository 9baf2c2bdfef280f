//! Checking and producing UTF-8, byte by byte.

use crate::error::Utf8Error;
use vstd::prelude::*;
use vstd::utf8::*;

verus! {

/// The length of the character that starts at `bytes[at]`, or 0 where no
/// well-formed character starts there.
pub fn scalar_width(bytes: &[u8], at: usize) -> (width: usize)
    requires
        at < bytes@.len(),
    ensures
        valid_first_scalar(bytes@.skip(at as int)) ==> width == length_of_first_scalar(
            bytes@.skip(at as int),
        ) && 1 <= width <= 4 && at + width <= bytes@.len(),
        !valid_first_scalar(bytes@.skip(at as int)) ==> width == 0,
{
    let ghost rest = bytes@.skip(at as int);
    let left = bytes.len() - at;
    let b0 = bytes[at];
    assert(rest[0] == b0);
    if b0 <= 0x7f {
        let scalar: u32 = (b0 & 0x7f) as u32;
        if 0xD800 <= scalar && scalar <= 0xDFFF {
            0
        } else {
            1
        }
    } else if 0xc0 <= b0 && b0 <= 0xdf {
        if left < 2 {
            return 0;
        }
        let b1 = bytes[at + 1];
        assert(rest[1] == b1);
        if !(0x80 <= b1 && b1 <= 0xbf) {
            return 0;
        }
        let scalar: u32 = (((b0 & 0x1f) as u32) << 6) | ((b1 & 0x3f) as u32);
        if 0x80 <= scalar && !(0xD800 <= scalar && scalar <= 0xDFFF) {
            2
        } else {
            0
        }
    } else if 0xe0 <= b0 && b0 <= 0xef {
        if left < 3 {
            return 0;
        }
        let b1 = bytes[at + 1];
        let b2 = bytes[at + 2];
        assert(rest[1] == b1 && rest[2] == b2);
        if !(0x80 <= b1 && b1 <= 0xbf && 0x80 <= b2 && b2 <= 0xbf) {
            return 0;
        }
        let scalar: u32 = (((b0 & 0x0f) as u32) << 12) | (((b1 & 0x3f) as u32) << 6) | ((b2
            & 0x3f) as u32);
        if 0x800 <= scalar && !(0xD800 <= scalar && scalar <= 0xDFFF) {
            3
        } else {
            0
        }
    } else if 0xf0 <= b0 && b0 <= 0xf7 {
        if left < 4 {
            return 0;
        }
        let b1 = bytes[at + 1];
        let b2 = bytes[at + 2];
        let b3 = bytes[at + 3];
        assert(rest[1] == b1 && rest[2] == b2 && rest[3] == b3);
        if !(0x80 <= b1 && b1 <= 0xbf && 0x80 <= b2 && b2 <= 0xbf && 0x80 <= b3 && b3 <= 0xbf) {
            return 0;
        }
        let scalar: u32 = (((b0 & 0x07) as u32) << 18) | (((b1 & 0x3f) as u32) << 12) | (((b2
            & 0x3f) as u32) << 6) | ((b3 & 0x3f) as u32);
        if 0x10000 <= scalar && scalar <= 0x10ffff && !(0xD800 <= scalar && scalar <= 0xDFFF) {
            4
        } else {
            0
        }
    } else {
        0
    }
}

/// Checks that `bytes` are well-formed UTF-8, and tells where they stop
/// being so.
pub fn validate_utf8(bytes: &[u8]) -> (result: Result<(), Utf8Error>)
    ensures
        result is Ok <==> valid_utf8(bytes@),
        result matches Err(error) ==> error.offset() < bytes@.len() && valid_utf8(
            bytes@.take(error.offset() as int),
        ) && !valid_first_scalar(bytes@.skip(error.offset() as int)),
{
    let length = bytes.len();
    let mut at: usize = 0;
    assert(bytes@.subrange(0, 0) =~= Seq::<u8>::empty());
    while at < length
        invariant
            at <= length,
            length == bytes@.len(),
            partial_valid_utf8(bytes@, at as int),
        decreases length - at,
    {
        let width = scalar_width(bytes, at);
        if width == 0 {
            proof {
                partial_valid_partial_invalid_utf8(bytes@, at as int);
            }
            return Err(Utf8Error::at(at));
        }
        proof {
            partial_valid_utf8_extend(bytes@, at as int);
        }
        at = at + width;
    }
    assert(bytes@.subrange(0, at as int) =~= bytes@);
    Ok(())
}

/// The character with the scalar value `scalar`, if there is one.
///
/// Trusted: `char::from_u32`, which gives a character for every Unicode
/// scalar value and `None` for a surrogate and for a value above `0x10FFFF`.
#[verifier::external_body]
fn char_from_scalar(scalar: u32) -> (found: Option<char>)
    ensures
        is_scalar(scalar) ==> found == Some(scalar as char),
        !is_scalar(scalar) ==> found is None,
{
    char::from_u32(scalar)
}

/// The scalar value that the well-formed character at `bytes[at]` encodes.
fn scalar_at(bytes: &[u8], at: usize) -> (scalar: u32)
    requires
        at < bytes@.len(),
        valid_first_scalar(bytes@.skip(at as int)),
    ensures
        scalar == decode_first_scalar(bytes@.skip(at as int)),
{
    let ghost rest = bytes@.skip(at as int);
    let b0 = bytes[at];
    assert(rest[0] == b0);
    if b0 <= 0x7f {
        (b0 & 0x7f) as u32
    } else if 0xc0 <= b0 && b0 <= 0xdf {
        let b1 = bytes[at + 1];
        assert(rest[1] == b1);
        (((b0 & 0x1f) as u32) << 6) | ((b1 & 0x3f) as u32)
    } else if 0xe0 <= b0 && b0 <= 0xef {
        let b1 = bytes[at + 1];
        let b2 = bytes[at + 2];
        assert(rest[1] == b1 && rest[2] == b2);
        (((b0 & 0x0f) as u32) << 12) | (((b1 & 0x3f) as u32) << 6) | ((b2 & 0x3f) as u32)
    } else {
        let b1 = bytes[at + 1];
        let b2 = bytes[at + 2];
        let b3 = bytes[at + 3];
        assert(rest[1] == b1 && rest[2] == b2 && rest[3] == b3);
        (((b0 & 0x07) as u32) << 18) | (((b1 & 0x3f) as u32) << 12) | (((b2 & 0x3f) as u32) << 6)
            | ((b3 & 0x3f) as u32)
    }
}

/// A well-formed first character decodes to a scalar value: not a surrogate,
/// and not above `0x10FFFF`.
pub proof fn lemma_first_scalar_is_scalar(bytes: Seq<u8>)
    requires
        valid_first_scalar(bytes),
    ensures
        is_scalar(decode_first_scalar(bytes)),
        1 <= length_of_first_scalar(bytes) <= 4,
        length_of_first_scalar(bytes) <= bytes.len(),
        encode_scalar(decode_first_scalar(bytes)) == take_first_scalar(bytes),
{
    let b0 = bytes[0];
    if is_leading_byte_width_1(b0) {
        assert((b0 & 0x7f) as u32 <= 0x7f) by (bit_vector);
        assert(b0 & 0x7f == b0) by (bit_vector)
            requires
                b0 <= 0x7f,
        ;
        assert((((b0 & 0x7f) as u32) & 0x7f) as u8 == b0) by (bit_vector)
            requires
                b0 <= 0x7f,
        ;
        assert(encode_scalar(decode_first_scalar(bytes)) =~= take_first_scalar(bytes));
    } else if is_leading_byte_width_2(b0) {
        let b1 = bytes[1];
        let scalar = (((b0 & 0x1f) as u32) << 6) | ((b1 & 0x3f) as u32);
        assert(scalar <= 0x7ff && 0xC0 | ((scalar >> 6) & 0x1F) as u8 == b0 && 0x80 | (scalar
            & 0x3F) as u8 == b1) by (bit_vector)
            requires
                scalar == (((b0 & 0x1f) as u32) << 6) | ((b1 & 0x3f) as u32),
                0xc0 <= b0 <= 0xdf,
                0x80 <= b1 <= 0xbf,
        ;
        assert(encode_scalar(decode_first_scalar(bytes)) =~= take_first_scalar(bytes));
    } else if is_leading_byte_width_3(b0) {
        let b1 = bytes[1];
        let b2 = bytes[2];
        let scalar = (((b0 & 0x0f) as u32) << 12) | (((b1 & 0x3f) as u32) << 6) | ((b2
            & 0x3f) as u32);
        assert(scalar <= 0xffff && 0xE0 | ((scalar >> 12) & 0x0F) as u8 == b0 && 0x80 | ((scalar
            >> 6) & 0x3F) as u8 == b1 && 0x80 | (scalar & 0x3F) as u8 == b2) by (bit_vector)
            requires
                scalar == (((b0 & 0x0f) as u32) << 12) | (((b1 & 0x3f) as u32) << 6) | ((b2
                    & 0x3f) as u32),
                0xe0 <= b0 <= 0xef,
                0x80 <= b1 <= 0xbf,
                0x80 <= b2 <= 0xbf,
        ;
        assert(encode_scalar(decode_first_scalar(bytes)) =~= take_first_scalar(bytes));
    } else {
        let b1 = bytes[1];
        let b2 = bytes[2];
        let b3 = bytes[3];
        let scalar = (((b0 & 0x07) as u32) << 18) | (((b1 & 0x3f) as u32) << 12) | (((b2
            & 0x3f) as u32) << 6) | ((b3 & 0x3f) as u32);
        assert(0xF0 | ((scalar >> 18) & 0x7) as u8 == b0 && 0x80 | ((scalar >> 12) & 0x3F) as u8
            == b1 && 0x80 | ((scalar >> 6) & 0x3F) as u8 == b2 && 0x80 | (scalar & 0x3F) as u8
            == b3) by (bit_vector)
            requires
                scalar == (((b0 & 0x07) as u32) << 18) | (((b1 & 0x3f) as u32) << 12) | (((b2
                    & 0x3f) as u32) << 6) | ((b3 & 0x3f) as u32),
                0xf0 <= b0 <= 0xf7,
                0x80 <= b1 <= 0xbf,
                0x80 <= b2 <= 0xbf,
                0x80 <= b3 <= 0xbf,
        ;
        assert(encode_scalar(decode_first_scalar(bytes)) =~= take_first_scalar(bytes));
    }
}

/// The character that starts at `bytes[at]`, a character boundary of
/// well-formed `bytes`, and the number of bytes that encode it.
pub fn char_at(bytes: &[u8], at: usize) -> (found: (char, usize))
    requires
        valid_utf8(bytes@),
        at < bytes@.len(),
        is_char_boundary(bytes@, at as int),
    ensures
        found.0 == decode_utf8(bytes@.skip(at as int))[0],
        found.1 == length_of_first_scalar(bytes@.skip(at as int)),
        found.1 == encode_scalar(found.0 as u32).len(),
        encode_scalar(found.0 as u32) == bytes@.subrange(at as int, at + found.1),
        1 <= found.1 <= 4,
        at + found.1 <= bytes@.len(),
        is_char_boundary(bytes@, at + found.1),
{
    let ghost rest = bytes@.skip(at as int);
    proof {
        valid_utf8_split(bytes@, at as int);
        assert(bytes@.subrange(at as int, bytes@.len() as int) =~= rest);
        lemma_first_scalar_is_scalar(rest);
        assert(take_first_scalar(rest) =~= bytes@.subrange(
            at as int,
            at + length_of_first_scalar(rest),
        ));
    }
    let width = scalar_width(bytes, at);
    let scalar = scalar_at(bytes, at);
    proof {
        char_u32_cast(scalar as char, scalar);
        lemma_boundary_after(bytes@, at as int);
    }
    match char_from_scalar(scalar) {
        Some(ch) => (ch, width),
        None => ('\0', width),
    }
}

/// After the character that starts at a boundary comes the next boundary.
pub proof fn lemma_boundary_after(bytes: Seq<u8>, at: int)
    requires
        valid_utf8(bytes),
        0 <= at < bytes.len(),
        is_char_boundary(bytes, at),
    ensures
        valid_first_scalar(bytes.skip(at)),
        is_char_boundary(bytes, at + length_of_first_scalar(bytes.skip(at))),
    decreases bytes.len(),
{
    valid_utf8_split(bytes, at);
    assert(bytes.subrange(at, bytes.len() as int) =~= bytes.skip(at));
    if at == 0 {
        assert(bytes.skip(0) =~= bytes);
        is_char_boundary_start_end_of_seq(pop_first_scalar(bytes));
        reveal_with_fuel(is_char_boundary, 2);
    } else {
        let first = length_of_first_scalar(bytes);
        let rest = pop_first_scalar(bytes);
        reveal_with_fuel(is_char_boundary, 2);
        assert(is_char_boundary(rest, at - first));
        if at - first < rest.len() {
            lemma_boundary_after(rest, at - first);
            assert(rest.skip(at - first) =~= bytes.skip(at));
        }
    }
}

/// The UTF-8 encoding of `ch`.
pub fn encode_char(ch: char) -> (bytes: Vec<u8>)
    ensures
        bytes@ == encode_scalar(ch as u32),
        bytes@ == encode_utf8(seq![ch]),
        1 <= bytes@.len() <= 4,
{
    let scalar = ch as u32;
    let mut bytes: Vec<u8> = Vec::new();
    proof {
        char_is_scalar(ch);
        reveal_with_fuel(encode_utf8, 2);
        assert(seq![ch].drop_first() =~= Seq::<char>::empty());
    }
    if scalar <= 0x7F {
        bytes.push((scalar & 0x7F) as u8);
    } else if scalar <= 0x7FF {
        bytes.push(0xC0 | ((scalar >> 6) & 0x1F) as u8);
        bytes.push(0x80 | (scalar & 0x3F) as u8);
    } else if scalar <= 0xFFFF {
        bytes.push(0xE0 | ((scalar >> 12) & 0x0F) as u8);
        bytes.push(0x80 | ((scalar >> 6) & 0x3F) as u8);
        bytes.push(0x80 | (scalar & 0x3F) as u8);
    } else {
        bytes.push(0xF0 | ((scalar >> 18) & 0x7) as u8);
        bytes.push(0x80 | ((scalar >> 12) & 0x3F) as u8);
        bytes.push(0x80 | ((scalar >> 6) & 0x3F) as u8);
        bytes.push(0x80 | (scalar & 0x3F) as u8);
    }
    assert(bytes@ =~= encode_scalar(scalar));
    assert(encode_utf8(seq![ch]) =~= encode_scalar(scalar));
    bytes
}

/// Tells whether `index` is the first byte of a character of well-formed
/// `bytes`, or their end.
pub fn at_char_boundary(bytes: &[u8], index: usize) -> (boundary: bool)
    requires
        valid_utf8(bytes@),
    ensures
        boundary == is_char_boundary(bytes@, index as int),
{
    proof {
        is_char_boundary_start_end_of_seq(bytes@);
    }
    if index == 0 || index == bytes.len() {
        true
    } else if index > bytes.len() {
        proof {
            if is_char_boundary(bytes@, index as int) {
                lemma_boundary_in_range(bytes@, index as int);
            }
        }
        false
    } else {
        proof {
            is_char_boundary_iff_not_is_continuation_byte(bytes@, index as int);
        }
        let byte = bytes[index];
        !(0x80 <= byte && byte <= 0xbf)
    }
}

/// A character boundary lies within the bytes or at their end.
pub proof fn lemma_boundary_in_range(bytes: Seq<u8>, index: int)
    requires
        valid_utf8(bytes),
        is_char_boundary(bytes, index),
    ensures
        0 <= index <= bytes.len(),
    decreases bytes.len(),
{
    reveal_with_fuel(vstd::utf8::is_char_boundary, 2);
    if index != 0 && 0 <= index <= bytes.len() && bytes.len() > 0 {
        lemma_boundary_in_range(pop_first_scalar(bytes), index - length_of_first_scalar(bytes));
    }
}

/// Where the last character of well-formed, non-empty `bytes` starts.
pub fn last_char_start(bytes: &[u8]) -> (start: usize)
    requires
        valid_utf8(bytes@),
        bytes@.len() > 0,
    ensures
        start < bytes@.len(),
        is_char_boundary(bytes@, start as int),
        valid_first_scalar(bytes@.skip(start as int)),
        length_of_first_scalar(bytes@.skip(start as int)) == bytes@.len() - start,
        decode_utf8(bytes@) == decode_utf8(bytes@.take(start as int)).push(
            decode_utf8(bytes@.skip(start as int))[0],
        ),
{
    let mut start: usize = bytes.len() - 1;
    while start > 0 && 0x80 <= bytes[start] && bytes[start] <= 0xbf
        invariant
            start < bytes@.len(),
            forall|j: int| start < j < bytes@.len() ==> is_continuation_byte(#[trigger] bytes@[j]),
        decreases start,
    {
        start = start - 1;
    }
    proof {
        let whole = bytes@;
        let tail = whole.skip(start as int);
        if start > 0 {
            is_char_boundary_iff_not_is_continuation_byte(whole, start as int);
        }
        valid_utf8_split(whole, start as int);
        decode_utf8_split(whole, start as int);
        assert(whole.subrange(start as int, whole.len() as int) =~= tail);
        assert(whole.subrange(0, start as int) =~= whole.take(start as int));
        reveal_with_fuel(valid_utf8, 2);
        reveal_with_fuel(decode_utf8, 2);
        lemma_first_scalar_is_scalar(tail);
        let width = length_of_first_scalar(tail);
        let after = pop_first_scalar(tail);
        if width < tail.len() {
            assert(valid_first_scalar(after));
            assert(after[0] == whole[start + width]);
            assert(is_continuation_byte(whole[start + width]));
        }
        assert(after =~= Seq::<u8>::empty());
        assert(decode_utf8(tail) =~= seq![decode_first_scalar(tail) as char]);
    }
    start
}

} // verus!
