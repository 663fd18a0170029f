//! Printing values for people who debug a program.
use std::fmt::{Debug, Formatter};

use vstd::prelude::*;

verus! {

/// What text is printed to. The library hands it on.
#[verifier::external_type_specification]
#[verifier::external_body]
pub struct ExFormatter<'a>(std::fmt::Formatter<'a>);

/// That nothing more can be printed. The library hands it on.
#[verifier::external_type_specification]
#[verifier::external_body]
pub struct ExPrintError(std::fmt::Error);

/// `<String as Debug>::fmt` prints the string in quotes, with escapes; nothing
/// is claimed of where it is printed to, or of the result.
#[verifier::external_body]
pub fn print_string(string: &String, f: &mut Formatter<'_>) -> (result: Result<
    (),
    std::fmt::Error,
>) {
    Debug::fmt(string, f)
}

/// Prints a value.
pub fn print<A, F: Fn(&A, &mut Formatter<'_>) -> Result<(), std::fmt::Error>>(
    how: F,
    value: &A,
    f: &mut Formatter<'_>,
) -> (result: Result<(), std::fmt::Error>)
    requires
        forall|a: &A, s: &mut Formatter<'_>| call_requires(how, (a, s)),
    ensures
        exists|s: &mut Formatter<'_>|
            *s == *old(f) && *final(s) == *final(f) && #[trigger] call_ensures(
                how,
                (value, s),
                result,
            ),
{
    how(value, f)
}

} // verus!
