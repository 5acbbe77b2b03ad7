use vstd::prelude::*;
use crate::digits::{int_chars, push_int_chars};

verus! {

/// Relies on std's `String` `FromIterator` impl for `char`: collecting
/// characters yields the string holding exactly those characters in order.
#[verifier::external_body]
pub(crate) fn chars_to_string(v: &Vec<char>) -> (r: String)
    ensures
        r@ == v@,
{
    v.iter().collect()
}

/// The decimal text of `n`, with a minus sign when negative, as a string.
pub fn int_to_string(n: i64) -> (r: String)
    ensures
        r@ == int_chars(n as int),
{
    let mut v: Vec<char> = Vec::new();
    push_int_chars(n, &mut v);
    chars_to_string(&v)
}

} // verus!
