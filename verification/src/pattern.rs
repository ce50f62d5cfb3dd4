//! The pattern as the regex engine takes it, and the matches the engine
//! finds.
//!
//! Matching is left to the `regex` crate. Verus does not look into the two
//! functions that call it. What their contracts claim is taken from the
//! crate's documentation and source and believed, not proved.

use vstd::prelude::*;
use vstd::utf8::*;
use regex::Regex;
use crate::text::{occurs_at, piece};

verus! {

/// The engine did not take a pattern.
#[derive(Debug)]
pub struct PatternError {
    /// The engine's own words for what is wrong.
    pub message: String,
}

/// The characters with a meaning of their own in a regular expression.
pub open spec fn is_meta_character(c: char) -> bool {
    c == '\\' || c == '.' || c == '+' || c == '*' || c == '?' || c == '(' || c == ')' || c == '|'
        || c == '[' || c == ']' || c == '{' || c == '}' || c == '^' || c == '$' || c == '#' || c
        == '&' || c == '-' || c == '~'
}

/// `pattern` with a backslash in front of every meta character, so that the
/// engine reads it as literal text.
pub open spec fn escaped(pattern: Seq<char>) -> Seq<char>
    decreases pattern.len(),
{
    if pattern.len() == 0 {
        pattern
    } else if is_meta_character(pattern[0]) {
        seq!['\\', pattern[0]] + escaped(pattern.drop_first())
    } else {
        seq![pattern[0]] + escaped(pattern.drop_first())
    }
}

/// Whether the engine takes `source` as a regular expression: whether
/// `Regex::new` compiles it. The engine refuses what it cannot read as a
/// regular expression, and what would compile to more than its size limit,
/// which it measures in the bytes of its own compiled form.
pub uninterp spec fn regex_takes(source: Seq<char>) -> bool;

/// The matches of the regular expression `source` in `text`, from left to
/// right, as `Regex::find_iter` yields them for the expression that
/// `Regex::new` compiles from `source`. A match is given by the offsets of
/// its first byte and of the byte after its last, in the UTF-8 encoding of
/// `text`.
pub uninterp spec fn regex_spans(source: Seq<char>, text: Seq<char>) -> Seq<(usize, usize)>;

/// The spans lie in `text`, one after the other: each starts no later than it
/// ends, starts and ends inside the encoding of `text` and between two of its
/// characters, and ends no later than the next one starts.
pub open spec fn spans_fit(text: Seq<char>, spans: Seq<(usize, usize)>) -> bool {
    &&& forall|k: int|
        0 <= k < spans.len() ==> {
            let span = #[trigger] spans[k];
            &&& span.0 <= span.1 <= encode_utf8(text).len()
            &&& is_char_boundary(encode_utf8(text), span.0 as int)
            &&& is_char_boundary(encode_utf8(text), span.1 as int)
        }
    &&& forall|a: int, b: int|
        0 <= a < b < spans.len() ==> (#[trigger] spans[a]).1 <= (#[trigger] spans[b]).0
}

/// The spans are the matches of `pattern` as literal text: every span covers
/// the pattern, character for character; and, the pattern not being empty,
/// no occurrence of it is passed over, that is, wherever the pattern occurs
/// in the text, some span covers the byte at which the occurrence starts.
pub open spec fn finds_literal(pattern: Seq<char>, text: Seq<char>, spans: Seq<(usize, usize)>) -> bool {
    &&& forall|k: int|
        0 <= k < spans.len() ==> piece(
            text,
            (#[trigger] spans[k]).0 as int,
            spans[k].1 as int,
        ) == pattern
    &&& pattern.len() > 0 ==> forall|at: int| #[trigger]
        occurs_at(pattern, text, at) ==> exists|k: int|
            0 <= k < spans.len() && (#[trigger] spans[k]).0 <= encode_utf8(text.take(at)).len()
                < spans[k].1
}

/// Where `source` is a pattern escaped to literal text, with no flag in
/// front of it, the spans are the matches of that pattern as literal text.
pub open spec fn spans_find_literal(
    source: Seq<char>,
    text: Seq<char>,
    spans: Seq<(usize, usize)>,
) -> bool {
    forall|pattern: Seq<char>|
        source == #[trigger] escaped(pattern) ==> finds_literal(pattern, text, spans)
}

/// `regex::escape`.
///
/// Believed of it: it puts a backslash in front of every meta character of
/// `pattern` and leaves the other characters as they are.
#[verifier::external_body]
pub(crate) fn escape(pattern: &str) -> (quoted: String)
    ensures
        quoted@ == escaped(pattern@),
{
    regex::escape(pattern)
}

/// `Regex::new` on `source`, then `Regex::find_iter` on `text`, with each
/// match given by `Match::start` and `Match::end`. Where `Regex::new` fails,
/// the error carries the engine's message.
///
/// Believed of it: whether the engine takes the pattern depends on `source`
/// alone, and nothing else makes the call fail. Where the engine takes the
/// pattern, the matches depend on `source` and `text` alone; they come in
/// order and do not overlap; both offsets of a match are byte offsets into
/// `text` on character boundaries, the start not after the end. Where
/// `source` is an escaped pattern, with no flag in front of it, the engine
/// matches the pattern as literal text: what a match covers is that pattern;
/// and as each match is the first occurrence from where the one before it
/// ended, every occurrence of a pattern that is not empty starts inside a
/// match. Which patterns the engine takes, and which matches it finds for
/// another expression, is not described further: they have names,
/// [`regex_takes`] and [`regex_spans`].
#[verifier::external_body]
pub(crate) fn find_spans(source: &str, text: &str) -> (found: Result<
    Vec<(usize, usize)>,
    PatternError,
>)
    ensures
        found is Ok <==> regex_takes(source@),
        found matches Ok(spans) ==> spans@ == regex_spans(source@, text@) && spans_fit(
            text@,
            spans@,
        ) && spans_find_literal(source@, text@, spans@),
{
    match Regex::new(source) {
        Ok(re) => Ok(re.find_iter(text).map(|m| (m.start(), m.end())).collect()),
        Err(error) => Err(PatternError { message: error.to_string() }),
    }
}

} // verus!
