//! Feeding values to a hasher.
use std::hash::{Hash, Hasher};

use vstd::prelude::*;

verus! {

/// `u64::hash` feeds the number to the hasher; nothing is claimed of the
/// hasher's state.
#[verifier::external_body]
pub fn hash_number<H: Hasher>(number: &u64, state: &mut H) {
    number.hash(state)
}

/// `String::hash` feeds the string to the hasher; nothing is claimed of the
/// hasher's state.
#[verifier::external_body]
pub fn hash_string<H: Hasher>(string: &String, state: &mut H) {
    string.hash(state)
}

/// `Vec::hash` feeds the strings to the hasher; nothing is claimed of the
/// hasher's state.
#[verifier::external_body]
pub fn hash_strings<H: Hasher>(strings: &Vec<String>, state: &mut H) {
    strings.hash(state)
}

/// Feeds a value to a hasher.
pub fn feed<A, H: Hasher, F: Fn(&A, &mut H)>(f: F, argument: &A, state: &mut H)
    requires
        forall|a: &A, s: &mut H| call_requires(f, (a, s)),
    ensures
        exists|s: &mut H|
            *s == *old(state) && *final(s) == *final(state) && #[trigger] call_ensures(
                f,
                (argument, s),
                (),
            ),
{
    f(argument, state)
}

} // verus!
