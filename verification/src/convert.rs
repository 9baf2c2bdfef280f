//! The conversions of the standard library, for the string.

use crate::java_string::JavaString;
use crate::raw_string::RawJavaString;
use std::ops::Deref;
use vstd::prelude::*;
use vstd::std_specs::convert::FromSpecImpl;
use vstd::string::StringSliceAdditionalSpecFns;

verus! {

impl<'a> From<&'a str> for JavaString {
    /// Builds a string that holds the characters of `string`.
    fn from(string: &'a str) -> (built: Self)
        ensures
            built@ == string@,
            built.spec_bytes() == string.spec_bytes(),
            built.mode_fits(),
    {
        JavaString::from_str(string)
    }
}

impl<'a> FromSpecImpl<&'a str> for JavaString {
    open spec fn obeys_from_spec() -> bool {
        false
    }

    open spec fn from_spec(string: &'a str) -> Self {
        choose|built: JavaString| built@ == string@
    }
}

impl From<String> for JavaString {
    /// Builds a string that holds the characters of `string`.
    fn from(string: String) -> (built: Self)
        ensures
            built@ == string@,
            built.mode_fits(),
    {
        JavaString::from_str(string.as_str())
    }
}

impl FromSpecImpl<String> for JavaString {
    open spec fn obeys_from_spec() -> bool {
        false
    }

    open spec fn from_spec(string: String) -> Self {
        choose|built: JavaString| built@ == string@
    }
}

impl Deref for JavaString {
    type Target = str;

    fn deref(&self) -> (text: &str)
        ensures
            text@ == self@,
    {
        self.as_str()
    }
}

impl Deref for RawJavaString {
    type Target = [u8];

    fn deref(&self) -> (bytes: &[u8])
        ensures
            bytes@ == self@,
    {
        self.get_bytes()
    }
}

} // verus!
