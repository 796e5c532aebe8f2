//! Searching in texts.

use vstd::prelude::*;

verus! {

/// Whether the pattern stands somewhere in the text, character for character.
/// The empty pattern stands in every text.
pub open spec fn is_substring(pattern: Seq<char>, text: Seq<char>) -> bool {
    exists|i: int|
        0 <= i <= text.len() - pattern.len() && #[trigger] text.subrange(i, i + pattern.len())
            == pattern
}

/// Whether the pattern stands somewhere in the text, by `str::contains` of
/// std, which its documentation describes as true where the pattern matches
/// a sub-slice of the string.
#[verifier::external_body]
pub(crate) fn contains(text: &str, pattern: &str) -> (found: bool)
    ensures
        found == is_substring(pattern@, text@),
{
    text.contains(pattern)
}

} // verus!
