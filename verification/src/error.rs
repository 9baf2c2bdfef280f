//! The errors that the string's constructors report.

use vstd::prelude::*;

verus! {

/// The bytes handed to a constructor are not well-formed UTF-8.
#[derive(Clone, Copy, Debug, PartialEq, Eq)]
pub struct Utf8Error {
    valid_up_to: usize,
}

impl Utf8Error {
    /// The offset of the first byte that does not start a well-formed
    /// character, in spec code.
    pub closed spec fn offset(&self) -> nat {
        self.valid_up_to as nat
    }

    pub(crate) fn at(valid_up_to: usize) -> (error: Self)
        ensures
            error.offset() == valid_up_to,
    {
        Utf8Error { valid_up_to }
    }

    /// Returns the offset up to which the bytes were well-formed: the offset
    /// of the first byte that does not start a well-formed character.
    pub fn valid_up_to(&self) -> (offset: usize)
        ensures
            offset == self.offset(),
    {
        self.valid_up_to
    }
}

/// The code units handed to a constructor are not well-formed UTF-16.
#[derive(Clone, Copy, Debug, PartialEq, Eq)]
pub struct Utf16Error {}

/// Room for more bytes could not be had. No function of this library
/// returns it: a string never holds room to spare, so none is ever asked for.
#[derive(Clone, Copy, Debug, PartialEq, Eq)]
pub struct CollectionAllocErr {}

} // verus!
