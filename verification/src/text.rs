//! What the library relies on of the standard library's string slices.

use vstd::prelude::*;

verus! {

/// `<str as PartialEq>::eq`, the `==` of string slices: two slices are equal
/// exactly when they hold the same characters.
pub assume_specification[ <str as PartialEq>::eq ](a: &str, b: &str) -> (same: bool)
    ensures
        same == (a@ == b@),
;

} // verus!
