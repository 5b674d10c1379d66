//! Unicode character classes from std that take tables to state.

use vstd::prelude::*;

verus! {

/// The value of `char::is_alphanumeric` (Unicode `Alphabetic` or `Numeric`)
/// on `c`.
pub uninterp spec fn is_alphanumeric(c: char) -> bool;

/// The value of `char::is_uppercase` (Unicode `Uppercase`) on `c`.
pub uninterp spec fn is_uppercase(c: char) -> bool;

/// Calls `char::is_alphanumeric`; its result is a function of `c` alone,
/// named [`is_alphanumeric`].  As std documents, among ASCII characters
/// exactly the letters and digits are alphanumeric.
#[verifier::external_body]
pub(crate) fn char_is_alphanumeric(c: char) -> (r: bool)
    ensures
        r == is_alphanumeric(c),
        (c as u32) < 128 ==> (r <==> ('0' <= c <= '9' || 'A' <= c <= 'Z' || 'a' <= c <= 'z')),
{
    c.is_alphanumeric()
}

/// Calls `char::is_uppercase`; its result is a function of `c` alone, named
/// [`is_uppercase`].  Among ASCII characters exactly `A` to `Z` are
/// uppercase.
#[verifier::external_body]
pub(crate) fn char_is_uppercase(c: char) -> (r: bool)
    ensures
        r == is_uppercase(c),
        (c as u32) < 128 ==> (r <==> 'A' <= c <= 'Z'),
{
    c.is_uppercase()
}

} // verus!
