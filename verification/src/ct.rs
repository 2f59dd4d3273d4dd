//! Comparison and selection that take the same time whatever the data are.
//! The two primitives come from `subtle`, which `elliptic_curve` re-exports.

use elliptic_curve::subtle::{Choice, ConditionallySelectable, ConstantTimeEq};
use vstd::prelude::*;

verus! {

/// Calls `subtle`'s `ConstantTimeEq::ct_eq` on two slices of words. That
/// function answers no at once when the lengths differ, and otherwise
/// compares every pair of words, whatever it finds: the contract claims that
/// the answer is yes exactly when the two slices hold the same words.
#[verifier::external_body]
pub(crate) fn ct_eq_words(a: &[u32], b: &[u32]) -> (r: bool)
    ensures
        r == (a@ == b@),
{
    bool::from(a.ct_eq(b))
}

/// Calls `subtle`'s `ConditionallySelectable::conditional_select` on two
/// words, which masks rather than branches: the contract claims that it
/// gives `b` when the flag is set and `a` when it is not.
#[verifier::external_body]
pub(crate) fn ct_select_word(a: u32, b: u32, flag: bool) -> (r: u32)
    ensures
        r == if flag {
            b
        } else {
            a
        },
{
    u32::conditional_select(&a, &b, Choice::from(flag as u8))
}

} // verus!
