//! Small string-building support shared by the formatting and wire modules.

use vstd::prelude::*;

verus! {

/// Append one character to a string.
///
/// Relies on String::push: the given character is appended to the end of
/// the string.
#[verifier::external_body]
pub fn push_char(s: &mut String, c: char)
    ensures
        final(s)@ == old(s)@ + seq![c],
{
    s.push(c)
}

} // verus!
