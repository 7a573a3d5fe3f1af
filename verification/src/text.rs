//! Spec-level notions of substring and equality for strings, with thin
//! trusted wrappers over the corresponding `str` operations from std.
use vstd::prelude::*;

verus! {

/// `needle` occurs as a contiguous run of characters inside `hay`.
pub open spec fn str_has_substring(hay: Seq<char>, needle: Seq<char>) -> bool {
    exists|i: int|
        0 <= i <= hay.len() - needle.len() && #[trigger] hay.subrange(i, i + needle.len())
            == needle
}

/// Relies on `str::contains` with a `&str` pattern: it returns true exactly
/// when the pattern matches a sub-slice of the string slice.
#[verifier::external_body]
pub fn str_contains(hay: &str, needle: &str) -> (r: bool)
    ensures
        r == str_has_substring(hay@, needle@),
{
    hay.contains(needle)
}

/// Relies on `PartialEq` for `str`: two slices are equal exactly when their
/// character sequences are equal.
#[verifier::external_body]
pub fn str_eq(a: &str, b: &str) -> (r: bool)
    ensures
        r == (a@ == b@),
{
    a == b
}

} // verus!
