//! Small string-building helpers over `std` operations that vstd does not
//! specify.

use vstd::prelude::*;

verus! {

/// Relies on String::push: appends exactly the one character.
#[verifier::external_body]
pub(crate) fn push_char(s: &mut String, c: char)
    ensures
        final(s)@ == old(s)@.push(c),
{
    s.push(c);
}

/// Relies on char::from_u32: every value below 0xD800 or from 0xE000 up
/// to 0x110000 is a scalar value, and the result is the character with
/// that code point.
#[verifier::external_body]
pub(crate) fn char_of_u32(n: u32) -> (c: char)
    requires
        n < 0xD800 || (0xE000 <= n && n < 0x110000),
    ensures
        c as u32 == n,
{
    char::from_u32(n).unwrap()
}

/// Relies on str's PartialEq: true exactly when the texts are equal.
#[verifier::external_body]
pub(crate) fn str_eq(a: &str, b: &str) -> (r: bool)
    ensures
        r == (a@ == b@),
{
    a == b
}

} // verus!
