//! A string in two machine words.
//!
//! A [`JavaString`] holds UTF-8 text. Up to fifteen bytes live in the handle
//! itself; a longer text lives in a heap buffer that the handle owns. There
//! is no capacity field and no room to spare: the content never changes in
//! place, and every change builds the content anew.
//!
//! [`raw_string`] holds the handle and its primitives, [`codec`] the encoding
//! of its discriminant. The handle is laid out for hosts with words of
//! sixty-four bits.

pub mod codec;
pub mod compare;
pub mod convert;
pub mod decoding;
pub mod error;
pub mod java_string;
pub mod lexical;
pub mod raw_string;
pub mod utf8;

pub use error::{CollectionAllocErr, Utf16Error, Utf8Error};
pub use java_string::JavaString;
