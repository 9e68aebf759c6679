//! Conversions between Rust strings and character vectors.

use vstd::prelude::*;

verus! {

/// The characters of `s`, in order.
#[verifier::external_body]
pub(crate) fn chars_of(s: &str) -> (res: Vec<char>)
    ensures
        res@ == s@,
{
    s.chars().collect()
}

/// The string made of the characters of `v`, in order.
#[verifier::external_body]
pub(crate) fn string_from_chars(v: &[char]) -> (res: String)
    ensures
        res@ == v@,
{
    v.iter().collect()
}

} // verus!
