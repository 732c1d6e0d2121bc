//! Conversions between strings and their character sequences.

use vstd::prelude::*;

verus! {

/// Relies on str::chars: yields exactly the string's characters in order.
#[verifier::external_body]
pub(crate) fn str_chars(s: &str) -> (r: Vec<char>)
    ensures
        r@ == s@,
{
    s.chars().collect()
}

/// Relies on String's FromIterator impl: the collected string holds
/// exactly these characters in order.
#[verifier::external_body]
pub(crate) fn chars_string(v: &Vec<char>) -> (r: String)
    ensures
        r@ == v@,
{
    v.iter().collect()
}

} // verus!
