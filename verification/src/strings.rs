//! The string operations of the standard library that the search relies on,
//! each behind a contract over `Seq<char>`.
//!
//! Verus does not look into these bodies. What a contract here claims is
//! taken from the standard library's documentation and believed, not proved.

use vstd::prelude::*;
use crate::text::{is_substring, lines_of, views_of};

verus! {

/// The lowercase form of a text, as `str::to_lowercase` of the standard
/// library computes it (the Unicode `Lowercase` mapping, which can change the
/// number of characters).
pub uninterp spec fn lowercase_of(s: Seq<char>) -> Seq<char>;

/// The lowercase form of a text, of which this much is said: the empty text
/// stays empty.
pub open spec fn lowercase(s: Seq<char>) -> Seq<char> {
    if s.len() == 0 {
        s
    } else {
        lowercase_of(s)
    }
}

/// `str::lines`, collected into a vector.
///
/// Believed of it: the slices are the lines of `contents`, in order, by the
/// rule that the standard library documents for `lines` and that
/// [`lines_of`] restates.
#[verifier::external_body]
pub(crate) fn split_lines<'a>(contents: &'a str) -> (lines: Vec<&'a str>)
    ensures
        views_of(lines@) == lines_of(contents@),
{
    contents.lines().collect()
}

/// `str::contains` with a string as the pattern.
///
/// Believed of it: the answer is whether `needle` occurs in `hay` as a
/// contiguous run of characters.
#[verifier::external_body]
pub(crate) fn contains(hay: &str, needle: &str) -> (found: bool)
    ensures
        found == is_substring(needle@, hay@),
{
    hay.contains(needle)
}

/// `str::to_lowercase`.
///
/// Believed of it: the result depends on the characters of `s` alone, and
/// the lowercase form of the empty text is the empty text. What the
/// lowercase form of any other text is, is not described here: it has a
/// name, [`lowercase_of`], and nothing more is claimed of it.
#[verifier::external_body]
pub(crate) fn to_lowercase(s: &str) -> (lower: String)
    ensures
        s@.len() == 0 ==> lower@.len() == 0,
        s@.len() > 0 ==> lower@ == lowercase_of(s@),
{
    s.to_lowercase()
}

} // verus!
