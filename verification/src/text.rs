//! Comparison of string slices.

use vstd::prelude::*;

verus! {

/// `==` of std on two string slices. Trusted: the result is taken to say
/// whether the two hold the same characters.
#[verifier::external_body]
pub(crate) fn str_eq(a: &str, b: &str) -> (same: bool)
    ensures
        same == (a@ == b@),
{
    a == b
}

} // verus!
