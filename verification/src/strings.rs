use vstd::prelude::*;

verus! {

/// Relies on String::from_iter: collects a sequence of characters into a
/// string holding exactly those characters in order.
#[verifier::external_body]
pub fn string_from_chars(chars: Vec<char>) -> (r: String)
    ensures
        r@ == chars@,
{
    chars.into_iter().collect()
}

} // verus!
