//! The string type: a handle whose bytes are always well-formed UTF-8.

use crate::decoding::{lossy_decoding, lossy_text_of, text_of, text_of_utf16, utf16_decoding};
use crate::error::{CollectionAllocErr, Utf16Error, Utf8Error};
use crate::raw_string::{concat, RawJavaString, INLINE_CAPACITY};
use crate::utf8::{at_char_boundary, char_at, encode_char, last_char_start, validate_utf8};
use crate::utf8::{lemma_boundary_after, lemma_boundary_in_range};
use std::borrow::Cow;
use vstd::prelude::*;
use vstd::string::StringSliceAdditionalSpecFns;
use vstd::utf8::*;

verus! {

/// A UTF-8 encoded string of two machine words. It never holds room to
/// spare: every change builds the content anew.
pub struct JavaString {
    data: RawJavaString,
}

impl View for JavaString {
    type V = Seq<char>;

    /// The characters of the string: those that its bytes encode.
    open spec fn view(&self) -> Seq<char> {
        decode_utf8(self.spec_bytes())
    }
}

impl JavaString {
    #[verifier::type_invariant]
    spec fn well_formed(self) -> bool {
        valid_utf8(self.data@)
    }

    /// The bytes of the string.
    pub closed spec fn spec_bytes(&self) -> Seq<u8> {
        self.data@
    }

    /// True when the string lives in its handle, without a heap buffer.
    pub closed spec fn is_inline(&self) -> bool {
        self.data.is_inline()
    }

    /// A string is inline exactly when it has at most fifteen bytes.
    pub open spec fn mode_fits(&self) -> bool {
        self.is_inline() <==> self.spec_bytes().len() <= INLINE_CAPACITY
    }

    /// Creates a new empty string. It needs no heap buffer.
    pub fn new() -> (string: Self)
        ensures
            string.spec_bytes() == Seq::<u8>::empty(),
            string@ == Seq::<char>::empty(),
            string.is_inline(),
    {
        JavaString { data: RawJavaString::new() }
    }

    /// Creates a new empty string, whatever capacity is asked for.
    pub fn with_capacity(_len: usize) -> (string: Self)
        ensures
            string.spec_bytes() == Seq::<u8>::empty(),
            string@ == Seq::<char>::empty(),
            string.is_inline(),
    {
        Self::new()
    }

    /// Builds a string from `bytes` if they are well-formed UTF-8, and says
    /// where they stop being so if they are not.
    pub fn from_utf8(bytes: &[u8]) -> (result: Result<Self, Utf8Error>)
        ensures
            result is Ok <==> valid_utf8(bytes@),
            result matches Ok(string) ==> string.spec_bytes() == bytes@ && string@ == decode_utf8(
                bytes@,
            ) && string.mode_fits(),
            result matches Err(error) ==> error.offset() < bytes@.len() && valid_utf8(
                bytes@.take(error.offset() as int),
            ) && !valid_first_scalar(bytes@.skip(error.offset() as int)),
    {
        match validate_utf8(bytes) {
            Ok(()) => Ok(JavaString { data: RawJavaString::from_bytes(bytes) }),
            Err(error) => Err(error),
        }
    }

    /// Builds a string that holds the characters of `string`.
    pub fn from_str(string: &str) -> (built: Self)
        ensures
            built.spec_bytes() == string.spec_bytes(),
            built@ == string@,
            built.mode_fits(),
    {
        broadcast use {encode_utf8_valid_utf8, encode_utf8_decode_utf8};

        JavaString { data: RawJavaString::from_bytes(string.as_bytes()) }
    }

    /// Converts the string into its bytes.
    pub fn into_bytes(self) -> (bytes: Vec<u8>)
        ensures
            bytes@ == self.spec_bytes(),
            valid_utf8(bytes@),
    {
        proof {
            use_type_invariant(&self);
        }
        self.data.into_bytes()
    }

    /// Returns the bytes of the string.
    pub fn as_bytes(&self) -> (bytes: &[u8])
        ensures
            bytes@ == self.spec_bytes(),
            valid_utf8(bytes@),
            decode_utf8(bytes@) == self@,
    {
        proof {
            use_type_invariant(self);
        }
        self.data.get_bytes()
    }

    /// Returns the length of the string in bytes.
    pub fn len(&self) -> (length: usize)
        ensures
            length == self.spec_bytes().len(),
    {
        self.data.len()
    }

    /// Returns true if the string holds no bytes.
    pub fn is_empty(&self) -> (empty: bool)
        ensures
            empty == (self.spec_bytes().len() == 0),
    {
        self.data.len() == 0
    }

    /// Appends `string` to the end of this string.
    pub fn push_str(&mut self, string: &str)
        requires
            old(self).spec_bytes().len() + string.spec_bytes().len() <= usize::MAX,
        ensures
            final(self).spec_bytes() == old(self).spec_bytes() + string.spec_bytes(),
            final(self)@ == old(self)@ + string@,
            final(self).mode_fits(),
    {
        broadcast use {encode_utf8_valid_utf8, encode_utf8_decode_utf8, valid_utf8_concat};

        proof {
            use_type_invariant(&*self);
        }
        let parts: [&[u8]; 2] = [self.data.get_bytes(), string.as_bytes()];
        proof {
            lemma_concat_pair(parts@);
            lemma_decode_concat(self.data@, string.spec_bytes());
        }
        let data = RawJavaString::from_bytes_array(parts.as_slice());
        self.data = data;
    }

    /// Returns the capacity of the string, which is its length: it never
    /// holds room to spare.
    pub fn capacity(&self) -> (capacity: usize)
        ensures
            capacity == self.spec_bytes().len(),
    {
        self.len()
    }

    /// Does nothing: the string never holds room to spare.
    pub fn reserve(&mut self, _additional: usize)
        ensures
            *final(self) == *old(self),
    {
    }

    /// Does nothing: the string never holds room to spare.
    pub fn reserve_exact(&mut self, _additional: usize)
        ensures
            *final(self) == *old(self),
    {
    }

    /// Does nothing, and so always succeeds.
    pub fn try_reserve(&mut self, _additional: usize) -> (result: Result<(), CollectionAllocErr>)
        ensures
            result is Ok,
            *final(self) == *old(self),
    {
        Ok(())
    }

    /// Does nothing, and so always succeeds.
    pub fn try_reserve_exact(&mut self, _additional: usize) -> (result: Result<
        (),
        CollectionAllocErr,
    >)
        ensures
            result is Ok,
            *final(self) == *old(self),
    {
        Ok(())
    }

    /// Does nothing: there is never any room to give back.
    pub fn shrink_to_fit(&mut self)
        ensures
            *final(self) == *old(self),
    {
    }

    /// Does nothing: there is never any room to give back.
    pub fn shrink_to(&mut self, _min_capacity: usize)
        ensures
            *final(self) == *old(self),
    {
    }
    /// Builds a string from bytes that are known to be well-formed UTF-8,
    /// without checking them again.
    pub fn from_utf8_unchecked(bytes: Vec<u8>) -> (string: Self)
        requires
            valid_utf8(bytes@),
        ensures
            string.spec_bytes() == bytes@,
            string@ == decode_utf8(bytes@),
            string.mode_fits(),
    {
        JavaString { data: RawJavaString::from_bytes(bytes.as_slice()) }
    }

    /// Decodes `v`, putting U+FFFD where it is not well-formed UTF-8.
    pub fn from_utf8_lossy<'a>(v: &'a [u8]) -> (text: Cow<'a, str>)
        ensures
            text@ == lossy_decoding(v@),
            valid_utf8(v@) ==> text@ == decode_utf8(v@),
    {
        lossy_text_of(v)
    }

    /// Decodes the UTF-16 code units `v` into a string, or fails where they
    /// are not well-formed.
    pub fn from_utf16(v: &[u16]) -> (result: Result<Self, Utf16Error>)
        ensures
            result is Ok <==> utf16_decoding(v@) is Some,
            result matches Ok(string) ==> Some(string@) == utf16_decoding(v@) && string.mode_fits(),
    {
        match text_of_utf16(v) {
            Ok(text) => Ok(Self::from_str(text.as_str())),
            Err(_) => Err(Utf16Error {}),
        }
    }

    /// Returns the string as a string slice.
    pub fn as_str(&self) -> (text: &str)
        ensures
            text@ == self@,
            text.spec_bytes() == self.spec_bytes(),
    {
        broadcast use encode_utf8_decode_utf8;

        proof {
            use_type_invariant(self);
        }
        match text_of(self.data.get_bytes()) {
            Some(text) => text,
            None => "",
        }
    }

    /// Tells whether `index` is the first byte of a character of the string,
    /// or its end.
    pub fn is_char_boundary(&self, index: usize) -> (boundary: bool)
        ensures
            boundary == is_char_boundary(self.spec_bytes(), index as int),
            boundary ==> index <= self.spec_bytes().len(),
    {
        proof {
            use_type_invariant(self);
            if is_char_boundary(self.spec_bytes(), index as int) {
                lemma_boundary_in_range(self.spec_bytes(), index as int);
            }
        }
        at_char_boundary(self.data.get_bytes(), index)
    }

    /// Appends `ch` to the end of this string.
    pub fn push(&mut self, ch: char)
        requires
            old(self).spec_bytes().len() + encode_scalar(ch as u32).len() <= usize::MAX,
        ensures
            final(self)@ == old(self)@.push(ch),
            final(self).spec_bytes() == old(self).spec_bytes() + encode_scalar(ch as u32),
            final(self).mode_fits(),
    {
        broadcast use {encode_utf8_valid_utf8, encode_utf8_decode_utf8};

        proof {
            use_type_invariant(&*self);
        }
        let encoded = encode_char(ch);
        let parts: [&[u8]; 2] = [self.data.get_bytes(), encoded.as_slice()];
        proof {
            lemma_concat_pair(parts@);
            lemma_decode_concat(self.data@, encoded@);
            assert(decode_utf8(encoded@) == seq![ch]);
            assert(self@ + seq![ch] =~= self@.push(ch));
        }
        let data = RawJavaString::from_bytes_array(parts.as_slice());
        self.data = data;
    }

    /// Shortens the string to its first `new_len` bytes, which must end at a
    /// character boundary.
    pub fn truncate(&mut self, new_len: usize)
        requires
            is_char_boundary(old(self).spec_bytes(), new_len as int),
        ensures
            final(self).spec_bytes() == old(self).spec_bytes().take(new_len as int),
            final(self)@ == decode_utf8(old(self).spec_bytes().take(new_len as int)),
            final(self)@.is_prefix_of(old(self)@),
            final(self).mode_fits(),
    {
        proof {
            use_type_invariant(&*self);
            lemma_boundary_in_range(self.data@, new_len as int);
            valid_utf8_split(self.data@, new_len as int);
            decode_utf8_split(self.data@, new_len as int);
            assert(self.data@.subrange(0, new_len as int) =~= self.data@.take(new_len as int));
        }
        let kept = vstd::slice::slice_subrange(self.data.get_bytes(), 0, new_len);
        let data = RawJavaString::from_bytes(kept);
        self.data = data;
    }

    /// Removes the last character of the string and returns it, or returns
    /// `None` if the string is empty.
    pub fn pop(&mut self) -> (popped: Option<char>)
        ensures
            popped is None <==> old(self)@.len() == 0,
            popped is None ==> final(self).spec_bytes() == old(self).spec_bytes(),
            popped is None ==> final(self).is_inline() == old(self).is_inline(),
            popped is Some ==> final(self).mode_fits(),
            popped matches Some(ch) ==> old(self)@ == final(self)@.push(ch) && old(
                self,
            ).spec_bytes() == final(self).spec_bytes() + encode_scalar(ch as u32),
    {
        proof {
            use_type_invariant(&*self);
            lemma_empty_text(self.data@);
        }
        let bytes = self.data.get_bytes();
        if bytes.len() == 0 {
            return None;
        }
        let start = last_char_start(bytes);
        let (ch, width) = char_at(bytes, start);
        proof {
            valid_utf8_split(bytes@, start as int);
            assert(bytes@.subrange(0, start as int) =~= bytes@.take(start as int));
            assert(bytes@ =~= bytes@.take(start as int) + bytes@.subrange(
                start as int,
                start + width,
            ));
        }
        let kept = vstd::slice::slice_subrange(bytes, 0, start);
        let data = RawJavaString::from_bytes(kept);
        self.data = data;
        Some(ch)
    }

    /// Removes the character that starts at byte `idx` and returns it.
    /// `idx` must be a character boundary before the end of the string.
    pub fn remove(&mut self, idx: usize) -> (removed: char)
        requires
            idx < old(self).spec_bytes().len(),
            is_char_boundary(old(self).spec_bytes(), idx as int),
        ensures
            removed == decode_utf8(old(self).spec_bytes().skip(idx as int))[0],
            final(self).spec_bytes() == old(self).spec_bytes().take(idx as int) + old(
                self,
            ).spec_bytes().skip(idx + encode_scalar(removed as u32).len()),
            ({
                let before = decode_utf8(old(self).spec_bytes().take(idx as int)).len() as int;
                &&& before < old(self)@.len()
                &&& removed == old(self)@[before]
                &&& final(self)@ == old(self)@.remove(before)
            }),
            final(self).mode_fits(),
    {
        proof {
            use_type_invariant(&*self);
        }
        let bytes = self.data.get_bytes();
        let length = bytes.len();
        let (ch, width) = char_at(bytes, idx);
        assert(idx + width <= length);
        let next = idx + width;
        proof {
            lemma_remove(bytes@, idx as int);
        }
        let parts: [&[u8]; 2] = [
            vstd::slice::slice_subrange(bytes, 0, idx),
            vstd::slice::slice_subrange(bytes, next, length),
        ];
        proof {
            lemma_concat_pair(parts@);
            assert(bytes@.subrange(0, idx as int) =~= bytes@.take(idx as int));
            assert(bytes@.subrange(next as int, bytes@.len() as int) =~= bytes@.skip(next as int));
        }
        let data = RawJavaString::from_bytes_array(parts.as_slice());
        self.data = data;
        ch
    }
}

impl Clone for JavaString {
    /// A clone holds the same text in storage of its own.
    fn clone(&self) -> (copy: Self)
        ensures
            copy.spec_bytes() == self.spec_bytes(),
            copy.is_inline() == self.is_inline(),
    {
        proof {
            use_type_invariant(self);
        }
        JavaString { data: self.data.clone() }
    }
}

/// Only the empty byte sequence decodes to no characters.
pub proof fn lemma_empty_text(bytes: Seq<u8>)
    requires
        valid_utf8(bytes),
    ensures
        decode_utf8(bytes).len() == 0 <==> bytes.len() == 0,
{
}

/// Taking out the character that starts at the boundary `idx` leaves
/// well-formed bytes, which decode to the characters without that one.
pub proof fn lemma_remove(bytes: Seq<u8>, idx: int)
    requires
        valid_utf8(bytes),
        0 <= idx < bytes.len(),
        is_char_boundary(bytes, idx),
    ensures
        ({
            let width = length_of_first_scalar(bytes.skip(idx));
            let before = decode_utf8(bytes.take(idx)).len() as int;
            let left = bytes.take(idx) + bytes.skip(idx + width);
            &&& valid_utf8(left)
            &&& before < decode_utf8(bytes).len()
            &&& decode_utf8(bytes)[before] == decode_utf8(bytes.skip(idx))[0]
            &&& decode_utf8(left) == decode_utf8(bytes).remove(before)
        }),
{
    let head = bytes.take(idx);
    let tail = bytes.skip(idx);
    let width = length_of_first_scalar(tail);
    let rest = bytes.skip(idx + width);
    valid_utf8_split(bytes, idx);
    decode_utf8_split(bytes, idx);
    lemma_boundary_after(bytes, idx);
    assert(bytes.subrange(0, idx) =~= head);
    assert(bytes.subrange(idx, bytes.len() as int) =~= tail);
    assert(pop_first_scalar(tail) =~= rest);
    lemma_decode_concat(head, rest);
    assert(decode_utf8(tail) =~= seq![decode_utf8(tail)[0]] + decode_utf8(rest));
    assert(decode_utf8(head + rest) =~= decode_utf8(bytes).remove(decode_utf8(head).len() as int));
}

/// Two parts concatenate to the first followed by the second.
pub proof fn lemma_concat_pair(parts: Seq<&[u8]>)
    requires
        parts.len() == 2,
    ensures
        concat(parts) == parts[0]@ + parts[1]@,
{
    reveal_with_fuel(concat, 3);
    assert(parts.drop_last().drop_last() =~= Seq::<&[u8]>::empty());
    assert(concat(parts) =~= parts[0]@ + parts[1]@);
}

/// Well-formed bytes followed by well-formed bytes decode to the characters
/// of the first followed by those of the second.
pub proof fn lemma_decode_concat(first: Seq<u8>, second: Seq<u8>)
    requires
        valid_utf8(first),
        valid_utf8(second),
    ensures
        valid_utf8(first + second),
        decode_utf8(first + second) == decode_utf8(first) + decode_utf8(second),
    decreases first.len(),
{
    valid_utf8_concat(first, second);
    if first.len() == 0 {
        assert(first + second =~= second);
    } else {
        let rest = pop_first_scalar(first);
        assert(pop_first_scalar(first + second) =~= rest + second);
        lemma_decode_concat(rest, second);
        assert(decode_utf8(first + second) =~= decode_utf8(first) + decode_utf8(second));
    }
}

} // verus!
