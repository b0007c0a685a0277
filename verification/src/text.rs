//! What the library needs of the text types of the standard library.
use vstd::prelude::*;

verus! {

/// The contract of `String::push`. Trusted: as the standard library
/// documents, the call appends `c` to the end of the string and changes
/// nothing else of it.
pub assume_specification[ String::push ](s: &mut String, c: char)
    ensures
        final(s)@ == old(s)@.push(c),
;

/// Calls `str::eq`. Trusted: two string slices are equal exactly when they
/// hold the same characters.
#[verifier::external_body]
pub(crate) fn str_eq(a: &str, b: &str) -> (same: bool)
    ensures
        same == (a@ == b@),
{
    a == b
}

} // verus!
