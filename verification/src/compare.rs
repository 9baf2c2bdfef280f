//! Equality and order of strings: those of their bytes, taken in order.

use crate::java_string::JavaString;
use crate::lexical::{lemma_sign_zero, order, sign};
use std::cmp::Ordering;
use vstd::prelude::*;
use vstd::std_specs::cmp::{PartialEqSpecImpl, PartialOrdSpecImpl};

verus! {

/// The order that a sign stands for.
pub open spec fn order_of(sign: int) -> Ordering {
    if sign < 0 {
        Ordering::Less
    } else if sign == 0 {
        Ordering::Equal
    } else {
        Ordering::Greater
    }
}

impl JavaString {
    /// Compares two strings by their bytes, which is the order of their
    /// characters' code points.
    pub fn cmp(&self, other: &Self) -> (result: Ordering)
        ensures
            result == order_of(sign(self.spec_bytes(), other.spec_bytes())),
            result == Ordering::Equal <==> self.spec_bytes() == other.spec_bytes(),
    {
        proof {
            lemma_sign_zero(self.spec_bytes(), other.spec_bytes());
        }
        let found = order(self.as_bytes(), other.as_bytes());
        if found < 0 {
            Ordering::Less
        } else if found == 0 {
            Ordering::Equal
        } else {
            Ordering::Greater
        }
    }

    /// Tells whether the string holds the text `other`.
    pub fn eq_str(&self, other: &str) -> (same: bool)
        ensures
            same == (self@ == other@),
    {
        broadcast use vstd::utf8::encode_utf8_decode_utf8;

        let left = self.as_bytes();
        let right = other.as_bytes();
        proof {
            lemma_sign_zero(left@, right@);
            vstd::utf8::decode_utf8_encode_utf8(left@);
        }
        order(left, right) == 0
    }
}

impl PartialEq for JavaString {
    fn eq(&self, other: &Self) -> (same: bool) {
        proof {
            lemma_sign_zero(self.spec_bytes(), other.spec_bytes());
        }
        order(self.as_bytes(), other.as_bytes()) == 0
    }
}

impl PartialEqSpecImpl for JavaString {
    open spec fn obeys_eq_spec() -> bool {
        true
    }

    open spec fn eq_spec(&self, other: &Self) -> bool {
        self.spec_bytes() == other.spec_bytes()
    }
}

impl Eq for JavaString {

}

impl PartialOrd for JavaString {
    fn partial_cmp(&self, other: &Self) -> (result: Option<Ordering>) {
        Some(self.cmp(other))
    }
}

impl PartialOrdSpecImpl for JavaString {
    open spec fn obeys_partial_cmp_spec() -> bool {
        true
    }

    open spec fn partial_cmp_spec(&self, other: &Self) -> Option<Ordering> {
        Some(order_of(sign(self.spec_bytes(), other.spec_bytes())))
    }
}

impl PartialEq<str> for JavaString {
    fn eq(&self, other: &str) -> (same: bool) {
        self.eq_str(other)
    }
}

impl PartialEqSpecImpl<str> for JavaString {
    open spec fn obeys_eq_spec() -> bool {
        true
    }

    open spec fn eq_spec(&self, other: &str) -> bool {
        self@ == other@
    }
}

impl<'a> PartialEq<&'a str> for JavaString {
    fn eq(&self, other: &&'a str) -> (same: bool) {
        self.eq_str(*other)
    }
}

impl<'a> PartialEqSpecImpl<&'a str> for JavaString {
    open spec fn obeys_eq_spec() -> bool {
        true
    }

    open spec fn eq_spec(&self, other: &&'a str) -> bool {
        self@ == other@
    }
}

} // verus!
