//! Conversions between strings and their decoded characters.

use vstd::prelude::*;

verus! {

/// Relies on str::chars and Iterator::collect from std: the decoded
/// characters of the string, in order.
#[verifier::external_body]
pub(crate) fn chars_of(s: &str) -> (r: Vec<char>)
    ensures
        r@ == s@,
{
    s.chars().collect()
}

/// Relies on String's Iterator::collect from std: the string whose
/// characters are exactly the given ones, in order.
#[verifier::external_body]
pub(crate) fn string_from_chars(v: &Vec<char>) -> (r: String)
    ensures
        r@ == v@,
{
    v.iter().collect()
}

} // verus!
