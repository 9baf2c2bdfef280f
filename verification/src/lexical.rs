//! The order of byte sequences.

use vstd::prelude::*;

verus! {

/// The sign of the order of two byte sequences: that of the first bytes in
/// which they differ, or of their lengths where one is the start of the
/// other. It is -1 where `left` comes first, 0 where the two are equal and
/// 1 where `right` comes first.
pub open spec fn sign(left: Seq<u8>, right: Seq<u8>) -> int
    decreases left.len(),
{
    if left.len() == 0 && right.len() == 0 {
        0
    } else if left.len() == 0 {
        -1
    } else if right.len() == 0 {
        1
    } else if left[0] < right[0] {
        -1
    } else if left[0] > right[0] {
        1
    } else {
        sign(left.drop_first(), right.drop_first())
    }
}

/// Two byte sequences have the sign 0 exactly when they are equal.
pub proof fn lemma_sign_zero(left: Seq<u8>, right: Seq<u8>)
    ensures
        sign(left, right) == 0 <==> left == right,
        -1 <= sign(left, right) <= 1,
    decreases left.len(),
{
    if left.len() > 0 && right.len() > 0 && left[0] == right[0] {
        lemma_sign_zero(left.drop_first(), right.drop_first());
        if left.drop_first() == right.drop_first() {
            assert(left =~= seq![left[0]] + left.drop_first());
            assert(right =~= seq![right[0]] + right.drop_first());
        }
    } else if left.len() == 0 && right.len() == 0 {
        assert(left =~= right);
    }
}

/// Swapping the two sides negates the sign.
pub proof fn lemma_sign_swap(left: Seq<u8>, right: Seq<u8>)
    ensures
        sign(right, left) == -sign(left, right),
    decreases left.len(),
{
    if left.len() > 0 && right.len() > 0 && left[0] == right[0] {
        lemma_sign_swap(left.drop_first(), right.drop_first());
    }
}

/// Compares two byte slices byte by byte.
pub fn order(left: &[u8], right: &[u8]) -> (result: i8)
    ensures
        result == sign(left@, right@),
{
    let mut at: usize = 0;
    assert(left@.skip(0) =~= left@ && right@.skip(0) =~= right@);
    while at < left.len() && at < right.len()
        invariant
            at <= left@.len(),
            at <= right@.len(),
            sign(left@, right@) == sign(left@.skip(at as int), right@.skip(at as int)),
        decreases left@.len() - at,
    {
        let l = left[at];
        let r = right[at];
        if l < r {
            return -1;
        }
        if l > r {
            return 1;
        }
        proof {
            assert(left@.skip(at as int).drop_first() =~= left@.skip(at + 1));
            assert(right@.skip(at as int).drop_first() =~= right@.skip(at + 1));
        }
        at = at + 1;
    }
    if at < right.len() {
        -1
    } else if at < left.len() {
        1
    } else {
        0
    }
}

} // verus!
