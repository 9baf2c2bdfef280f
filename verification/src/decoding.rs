//! What the standard library does for this one: reading bytes as text, and
//! decoding with losses or from UTF-16. Each function here is trusted, its
//! contract stated and not proved.

use std::borrow::Cow;
use vstd::prelude::*;
use vstd::string::StringSliceAdditionalSpecFns;
use vstd::utf8::{decode_utf8, valid_utf8};

verus! {

/// The characters that `String::from_utf8_lossy` reads in `bytes`: those
/// that they encode, with U+FFFD in place of what is not well-formed.
pub uninterp spec fn lossy_decoding(bytes: Seq<u8>) -> Seq<char>;

/// The characters that `String::from_utf16` reads in `units`, or `None`
/// where they are not well-formed UTF-16.
pub uninterp spec fn utf16_decoding(units: Seq<u16>) -> Option<Seq<char>>;

/// The error of `String::from_utf16`, which says nothing but that it failed.
#[verifier::external_type_specification]
#[verifier::external_body]
pub struct ExFromUtf16Error(std::string::FromUtf16Error);

/// Reads `bytes` as text.
///
/// Trusted: `core::str::from_utf8`, which gives the bytes back as a string
/// slice exactly when they are well-formed UTF-8.
#[verifier::external_body]
pub(crate) fn text_of(bytes: &[u8]) -> (text: Option<&str>)
    ensures
        text is Some <==> valid_utf8(bytes@),
        text matches Some(text) ==> text.spec_bytes() == bytes@,
{
    std::str::from_utf8(bytes).ok()
}

/// Decodes `bytes`, putting U+FFFD where they are not well-formed.
///
/// Trusted: `String::from_utf8_lossy`. Its result is named, not spelled
/// out; of well-formed bytes it is the text that they encode.
#[verifier::external_body]
pub(crate) fn lossy_text_of<'a>(bytes: &'a [u8]) -> (text: Cow<'a, str>)
    ensures
        text@ == lossy_decoding(bytes@),
        valid_utf8(bytes@) ==> text@ == decode_utf8(bytes@),
{
    String::from_utf8_lossy(bytes)
}

/// Decodes the UTF-16 code units `units`.
///
/// Trusted: `String::from_utf16`. Its result is named, not spelled out.
#[verifier::external_body]
pub(crate) fn text_of_utf16(units: &[u16]) -> (result: Result<String, std::string::FromUtf16Error>)
    ensures
        result matches Ok(text) ==> utf16_decoding(units@) == Some(text@),
        result is Err ==> utf16_decoding(units@) is None,
{
    String::from_utf16(units)
}

} // verus!
