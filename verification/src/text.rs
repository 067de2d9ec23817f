//! Comparing strings.

use crate::order::{compare_text, lemma_text_equal, Rank};
use vstd::prelude::*;

verus! {

/// `<` on `str`. The standard library orders strings lexicographically by
/// their bytes, which is the order of their code points: the contract says
/// that the result is that order, taken character by character.
#[verifier::external_body]
pub(crate) fn text_precedes(a: &str, b: &str) -> (r: bool)
    ensures
        r == (compare_text(a@, b@) == Rank::Less),
{
    a < b
}

/// `==` on `str`: whether the two strings hold the same characters.
#[verifier::external_body]
pub(crate) fn text_matches(a: &str, b: &str) -> (r: bool)
    ensures
        r == (a@ == b@),
{
    a == b
}

/// Three-way comparison of two strings by code points.
pub fn compare_strings(a: &str, b: &str) -> (r: Rank)
    ensures
        r == compare_text(a@, b@),
{
    proof {
        lemma_text_equal(a@, b@);
    }
    if text_matches(a, b) {
        Rank::Equal
    } else if text_precedes(a, b) {
        Rank::Less
    } else {
        Rank::Greater
    }
}

} // verus!
