//! The boundary to `unicode-width` and to the string functions of the standard
//! library that the verifier's own library leaves out. Nothing in this module
//! is proved.

use unicode_width::UnicodeWidthStr;
use vstd::prelude::*;

verus! {

/// The number of terminal columns that a text takes up where ambiguous
/// characters count as wide, as `UnicodeWidthStr::width_cjk` computes it.
pub uninterp spec fn cjk_width(text: Seq<char>) -> nat;

/// Calls `UnicodeWidthStr::width_cjk` on a string slice. The width is a
/// function of the characters alone.
#[verifier::external_body]
pub(crate) fn width_cjk(text: &str) -> (r: usize)
    ensures
        r == cjk_width(text@),
{
    text.width_cjk()
}

/// Calls `String::push`, which appends one character to a string.
#[verifier::external_body]
pub(crate) fn push_char(text: &mut String, c: char)
    ensures
        final(text)@ == old(text)@.push(c),
{
    text.push(c)
}

} // verus!
