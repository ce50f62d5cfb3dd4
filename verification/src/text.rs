//! The mathematical vocabulary for text: substrings and lines.

use vstd::prelude::*;
use vstd::utf8::*;

verus! {

/// The views of a sequence of string slices.
pub open spec fn views_of(parts: Seq<&str>) -> Seq<Seq<char>> {
    Seq::new(parts.len(), |k: int| parts[k]@)
}

/// The views of a sequence of strings.
pub open spec fn texts_of(strings: Seq<String>) -> Seq<Seq<char>> {
    Seq::new(strings.len(), |k: int| strings[k]@)
}

/// The characters of `text` that its UTF-8 encoding holds from byte offset
/// `from` up to, not including, byte offset `to`.
pub open spec fn piece(text: Seq<char>, from: int, to: int) -> Seq<char> {
    decode_utf8(encode_utf8(text).subrange(from, to))
}

/// `needle` occurs in `hay` starting at character position `at`.
pub open spec fn occurs_at(needle: Seq<char>, hay: Seq<char>, at: int) -> bool {
    &&& 0 <= at
    &&& at + needle.len() <= hay.len()
    &&& hay.subrange(at, at + needle.len()) == needle
}

/// `needle` occurs somewhere in `hay` as a contiguous run of characters.
pub open spec fn is_substring(needle: Seq<char>, hay: Seq<char>) -> bool {
    exists|at: int| occurs_at(needle, hay, at)
}

/// The position of the first line feed in `s`, or `s.len()` if it has none.
pub open spec fn first_line_feed(s: Seq<char>) -> nat
    decreases s.len(),
{
    if s.len() == 0 || s[0] == '\n' {
        0
    } else {
        1 + first_line_feed(s.drop_first())
    }
}

/// A line as it is handed out: one carriage return in front of the line feed
/// belongs to the line ending and is dropped.
pub open spec fn without_carriage_return(line: Seq<char>) -> Seq<char> {
    if line.len() > 0 && line.last() == '\r' {
        line.drop_last()
    } else {
        line
    }
}

/// The lines of `s`.
///
/// A line ends at a line feed, or at a carriage return directly followed by a
/// line feed; the line ending is not part of the line. The last line need not
/// have an ending, so text that ends in a line ending has no empty line after
/// it, and empty text has no lines at all. A carriage return that is not
/// followed by a line feed stays in its line.
pub open spec fn lines_of(s: Seq<char>) -> Seq<Seq<char>>
    decreases s.len(),
{
    if s.len() == 0 {
        Seq::empty()
    } else {
        let cut = first_line_feed(s) as int;
        if cut >= s.len() {
            seq![s]
        } else {
            seq![without_carriage_return(s.take(cut))] + lines_of(s.skip(cut + 1))
        }
    }
}

/// The empty text occurs in every text.
pub proof fn lemma_empty_is_substring(hay: Seq<char>)
    ensures
        is_substring(Seq::<char>::empty(), hay),
{
    assert(hay.subrange(0, 0) =~= Seq::<char>::empty());
    assert(occurs_at(Seq::<char>::empty(), hay, 0));
}

/// The first line feed lies inside the text or at its end, and no line feed
/// comes before it.
pub proof fn lemma_first_line_feed(s: Seq<char>)
    ensures
        first_line_feed(s) <= s.len(),
        first_line_feed(s) < s.len() ==> s[first_line_feed(s) as int] == '\n',
        forall|k: int| 0 <= k < first_line_feed(s) ==> s[k] != '\n',
    decreases s.len(),
{
    if s.len() == 0 || s[0] == '\n' {
    } else {
        let rest = s.drop_first();
        lemma_first_line_feed(rest);
        assert forall|k: int| 0 <= k < first_line_feed(s) implies s[k] != '\n' by {
            if k > 0 {
                assert(s[k] == rest[k - 1]);
            }
        }
    }
}

/// The first line feed is where a line feed stands with none before it, or
/// the end of a text without line feed.
pub proof fn lemma_first_line_feed_is(s: Seq<char>, at: int)
    requires
        0 <= at <= s.len(),
        forall|k: int| 0 <= k < at ==> s[k] != '\n',
        at < s.len() ==> s[at] == '\n',
    ensures
        first_line_feed(s) == at,
    decreases s.len(),
{
    if s.len() == 0 || s[0] == '\n' {
    } else {
        let rest = s.drop_first();
        lemma_first_line_feed_is(rest, at - 1);
    }
}

/// The final line ending is optional: a line feed after the last line adds
/// no line. (After a carriage return it would make a line ending of two
/// characters, and the line would lose the carriage return.)
pub proof fn law_final_line_feed_adds_no_line(s: Seq<char>)
    requires
        s.len() > 0,
        s.last() != '\n',
        s.last() != '\r',
    ensures
        lines_of(s.push('\n')) == lines_of(s),
    decreases s.len(),
{
    let ended = s.push('\n');
    let cut = first_line_feed(s) as int;
    lemma_first_line_feed(s);
    lemma_first_line_feed_is(ended, cut);
    assert(ended.take(cut) =~= s.take(cut));
    assert(lines_of(ended) == seq![without_carriage_return(ended.take(cut))] + lines_of(
        ended.skip(cut + 1),
    ));
    if cut < s.len() {
        let rest = s.skip(cut + 1);
        assert(ended.skip(cut + 1) =~= rest.push('\n'));
        law_final_line_feed_adds_no_line(rest);
    } else {
        assert(s.take(cut) =~= s);
    }
}

/// No line holds a line feed.
pub proof fn law_lines_hold_no_line_feed(s: Seq<char>)
    ensures
        forall|k: int, j: int|
            0 <= k < lines_of(s).len() && 0 <= j < lines_of(s)[k].len() ==> #[trigger] lines_of(
                s,
            )[k][j] != '\n',
    decreases s.len(),
{
    if s.len() > 0 {
        let cut = first_line_feed(s) as int;
        lemma_first_line_feed(s);
        if cut < s.len() {
            let first = without_carriage_return(s.take(cut));
            let rest = lines_of(s.skip(cut + 1));
            law_lines_hold_no_line_feed(s.skip(cut + 1));
            assert forall|k: int, j: int|
                0 <= k < lines_of(s).len() && 0 <= j < lines_of(s)[k].len() implies #[trigger] lines_of(
                s,
            )[k][j] != '\n' by {
                if k == 0 {
                    assert(first[j] == s[j]);
                } else {
                    assert(lines_of(s)[k] == rest[k - 1]);
                }
            }
        }
    }
}

} // verus!
