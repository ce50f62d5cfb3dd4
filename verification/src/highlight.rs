//! Marking the matches of the pattern in a line.

use vstd::prelude::*;
use vstd::string::{StringExecFns, StringSliceAdditionalSpecFns};
use vstd::utf8::*;
use crate::config::Config;
use crate::paint::{paint_red, painting_of};
use crate::pattern::{
    escape, escaped, find_spans, finds_literal, regex_spans, regex_takes, spans_fit,
    PatternError,
};
use crate::text::{is_substring, occurs_at, piece, texts_of};

verus! {

/// The paintings of what the spans cover in `text`, one for each span.
pub open spec fn paintings(text: Seq<char>, spans: Seq<(usize, usize)>, colours: bool) -> Seq<
    Seq<char>,
> {
    Seq::new(
        spans.len(),
        |k: int| painting_of(piece(text, spans[k].0 as int, spans[k].1 as int), colours),
    )
}

/// `text` from byte offset `from` on, with every span from the one at index
/// `next` on replaced by its entry in `with`.
pub open spec fn spliced_from(
    text: Seq<char>,
    spans: Seq<(usize, usize)>,
    with: Seq<Seq<char>>,
    next: int,
    from: int,
) -> Seq<char>
    decreases spans.len() - next,
{
    if next < 0 || next >= spans.len() {
        piece(text, from, encode_utf8(text).len() as int)
    } else {
        piece(text, from, spans[next].0 as int) + with[next] + spliced_from(
            text,
            spans,
            with,
            next + 1,
            spans[next].1 as int,
        )
    }
}

/// `text` with the part that each span covers replaced by the entry of `with`
/// at the span's index; what lies between the spans stays as it is.
pub open spec fn spliced(text: Seq<char>, spans: Seq<(usize, usize)>, with: Seq<Seq<char>>) -> Seq<
    char,
> {
    spliced_from(text, spans, with, 0, 0)
}

/// `text` with what each span covers painted, and the rest as it is.
pub open spec fn highlighted(text: Seq<char>, spans: Seq<(usize, usize)>, colours: bool) -> Seq<
    char,
> {
    spliced(text, spans, paintings(text, spans, colours))
}

/// A character boundary of a text is one of each prefix that reaches it.
proof fn lemma_boundary_in_prefix(bytes: Seq<u8>, from: int, to: int)
    requires
        valid_utf8(bytes),
        0 <= from <= to <= bytes.len(),
        is_char_boundary(bytes, from),
        is_char_boundary(bytes, to),
    ensures
        valid_utf8(bytes.subrange(0, to)),
        is_char_boundary(bytes.subrange(0, to), from),
{
    let prefix = bytes.subrange(0, to);
    valid_utf8_split(bytes, to);
    if from == to {
        is_char_boundary_start_end_of_seq(prefix);
    } else {
        is_char_boundary_iff_not_is_continuation_byte(bytes, from);
        is_char_boundary_iff_not_is_continuation_byte(prefix, from);
    }
}

/// The part of `text` between two byte offsets that lie on character
/// boundaries.
pub fn slice<'a>(text: &'a str, from: usize, to: usize) -> (part: &'a str)
    requires
        from <= to <= encode_utf8(text@).len(),
        is_char_boundary(encode_utf8(text@), from as int),
        is_char_boundary(encode_utf8(text@), to as int),
    ensures
        part@ == piece(text@, from as int, to as int),
{
    let ghost bytes = encode_utf8(text@);
    proof {
        encode_utf8_valid_utf8(text@);
        lemma_boundary_in_prefix(bytes, from as int, to as int);
    }
    let (head, _) = text.split_at(to);
    let (_, part) = head.split_at(from);
    proof {
        assert(part.spec_bytes() =~= bytes.subrange(from as int, to as int));
        encode_utf8_decode_utf8(part@);
    }
    part
}

/// Replaces the part of `text` that each span covers by the entry of `with`
/// at the span's index, and keeps what lies between the spans.
pub fn splice(text: &str, spans: &Vec<(usize, usize)>, with: &Vec<String>) -> (out: String)
    requires
        spans_fit(text@, spans@),
        with.len() == spans.len(),
    ensures
        out@ == spliced(text@, spans@, texts_of(with@)),
{
    let ghost bytes = encode_utf8(text@);
    let ghost inserts = texts_of(with@);
    proof {
        encode_utf8_valid_utf8(text@);
        is_char_boundary_start_end_of_seq(bytes);
    }
    let mut out = String::new();
    let mut from: usize = 0;
    let mut k: usize = 0;
    while k < spans.len()
        invariant
            k <= spans.len(),
            with.len() == spans.len(),
            bytes == encode_utf8(text@),
            inserts == texts_of(with@),
            valid_utf8(bytes),
            spans_fit(text@, spans@),
            from <= bytes.len(),
            is_char_boundary(bytes, from as int),
            k == 0 ==> from == 0,
            k > 0 ==> from == spans@[k - 1].1,
            out@ + spliced_from(text@, spans@, inserts, k as int, from as int) == spliced(
                text@,
                spans@,
                inserts,
            ),
        decreases spans.len() - k,
    {
        let (start, end) = spans[k];
        let gap = slice(text, from, start);
        out.append(gap);
        out.append(with[k].as_str());
        from = end;
        k += 1;
    }
    let (_, rest) = text.split_at(from);
    proof {
        encode_utf8_decode_utf8(rest@);
    }
    out.append(rest);
    out
}

/// Paints the text that each span covers, in red where the output takes
/// colours.
pub fn paint_hits(text: &str, spans: &Vec<(usize, usize)>, colours: bool) -> (painted: Vec<String>)
    requires
        spans_fit(text@, spans@),
    ensures
        painted@.len() == spans@.len(),
        texts_of(painted@) == paintings(text@, spans@, colours),
{
    let mut painted: Vec<String> = Vec::new();
    let mut k: usize = 0;
    while k < spans.len()
        invariant
            k <= spans.len(),
            spans_fit(text@, spans@),
            painted.len() == k,
            forall|j: int|
                0 <= j < k ==> #[trigger] painted@[j]@ == painting_of(
                    piece(text@, spans@[j].0 as int, spans@[j].1 as int),
                    colours,
                ),
        decreases spans.len() - k,
    {
        let (start, end) = spans[k];
        let hit = slice(text, start, end);
        painted.push(paint_red(hit, colours));
        k += 1;
    }
    painted
}

/// Turns what the engine answered for `text` into the highlighted text:
/// where the engine found matches, they are painted, and that always
/// succeeds, also where there is no match at all; where the engine refused
/// the pattern, its error is handed on unchanged.
pub fn highlight_found(
    text: &str,
    found: Result<Vec<(usize, usize)>, PatternError>,
    colours: bool,
) -> (colored: Result<String, PatternError>)
    requires
        found matches Ok(spans) ==> spans_fit(text@, spans@),
    ensures
        found matches Ok(spans) ==> (colored matches Ok(out) && out@ == highlighted(
            text@,
            spans@,
            colours,
        )),
        found matches Err(error) ==> colored == Err::<String, PatternError>(error),
{
    match found {
        Ok(spans) => {
            let painted = paint_hits(text, &spans, colours);
            let out = splice(text, &spans, &painted);
            Ok(out)
        },
        Err(error) => Err(error),
    }
}

impl Config {
    /// The regular expression that matches the pattern as literal text:
    /// the pattern with its meta characters escaped, and in front of it, when
    /// case is not regarded, the flag that makes the engine ignore case.
    pub open spec fn pattern_source(&self) -> Seq<char> {
        if self.i {
            "(?i)"@ + escaped(self.target@)
        } else {
            escaped(self.target@)
        }
    }

    /// The matches of the pattern in `sentence`: those the engine finds for
    /// the pattern's regular expression. Where case is ignored, the engine
    /// has a rule of its own for what letters are the same; a sentence that
    /// does not contain the pattern by the rule of the search has no match,
    /// whatever the engine finds in it.
    pub open spec fn found(&self, sentence: Seq<char>) -> Seq<(usize, usize)> {
        if self.i && !self.line_matches(sentence) {
            Seq::empty()
        } else {
            regex_spans(self.pattern_source(), sentence)
        }
    }

    /// What is known of the matches in `sentence` once the engine has found
    /// them: they lie in the sentence, one after the other, and in a search
    /// that regards case they are the matches of the pattern as literal
    /// text.
    pub open spec fn found_well(&self, sentence: Seq<char>) -> bool {
        &&& spans_fit(sentence, self.found(sentence))
        &&& !self.i ==> finds_literal(self.target@, sentence, self.found(sentence))
    }

    /// `sentence` with each match of the pattern painted, and the rest of
    /// the sentence as it is.
    pub open spec fn highlighted(&self, sentence: Seq<char>, colours: bool) -> Seq<char> {
        highlighted(sentence, self.found(sentence), colours)
    }

    /// The pattern as a regular expression for the engine.
    pub fn regex_source(&self) -> (source: String)
        ensures
            source@ == self.pattern_source(),
    {
        let quoted = escape(self.target.as_str());
        if self.i {
            let mut source = String::from_str("(?i)");
            source.append(quoted.as_str());
            source
        } else {
            quoted
        }
    }

    /// Paints every match of the pattern in `sentence`, in red where the
    /// output takes colours. The matches are those the engine finds for the
    /// pattern taken as literal text, from left to right and without
    /// overlap; where the search ignores letter case, the engine is told to
    /// ignore it too, and nothing is painted in a sentence that the search
    /// itself would not take to contain the pattern.
    ///
    /// Succeeds exactly where the engine takes the pattern's regular
    /// expression. Where the output takes no colours the sentence comes back
    /// as it is, and so does a sentence that does not contain the pattern by
    /// the rule of the search.
    pub fn colorize(&self, sentence: &str, colours: bool) -> (colored: Result<String, PatternError>)
        ensures
            colored is Ok <==> regex_takes(self.pattern_source()),
            colored is Ok ==> self.found_well(sentence@),
            colored matches Ok(out) ==> out@ == self.highlighted(sentence@, colours),
            colored matches Ok(out) ==> (!colours ==> out@ == sentence@),
            colored matches Ok(out) ==> (!self.line_matches(sentence@) ==> out@ == sentence@),
    {
        let source = self.regex_source();
        let answer = find_spans(source.as_str(), sentence);
        let found = match answer {
            Ok(spans) => {
                if self.i && !self.matches_line(sentence) {
                    Ok(Vec::new())
                } else {
                    Ok(spans)
                }
            },
            Err(error) => Err(error),
        };
        proof {
            if found is Ok {
                let spans = found->Ok_0@;
                assert(spans == self.found(sentence@));
                law_plain_painting_keeps_text(sentence@, spans);
                lemma_nothing_found_keeps_text(sentence@, spans, colours);
                if !self.i {
                    lemma_literal_needs_occurrence(self.target@, sentence@, spans);
                }
            }
        }
        highlight_found(sentence, found, colours)
    }
}

/// A character boundary of a text is one of each part of the text that
/// reaches from a boundary before it to a boundary after it.
proof fn lemma_boundary_in_range(bytes: Seq<u8>, from: int, mid: int, to: int)
    requires
        valid_utf8(bytes),
        0 <= from <= mid <= to <= bytes.len(),
        is_char_boundary(bytes, from),
        is_char_boundary(bytes, mid),
        is_char_boundary(bytes, to),
    ensures
        valid_utf8(bytes.subrange(from, to)),
        is_char_boundary(bytes.subrange(from, to), mid - from),
{
    let prefix = bytes.subrange(0, to);
    let part = bytes.subrange(from, to);
    lemma_boundary_in_prefix(bytes, from, to);
    lemma_boundary_in_prefix(bytes, mid, to);
    valid_utf8_split(prefix, from);
    assert(prefix.subrange(from, prefix.len() as int) =~= part);
    if mid == to {
        is_char_boundary_start_end_of_seq(part);
    } else {
        is_char_boundary_iff_not_is_continuation_byte(prefix, mid);
        is_char_boundary_iff_not_is_continuation_byte(part, mid - from);
    }
}

/// Two pieces of a text that meet make the piece that covers both.
pub proof fn lemma_pieces_join(text: Seq<char>, from: int, mid: int, to: int)
    requires
        0 <= from <= mid <= to <= encode_utf8(text).len(),
        is_char_boundary(encode_utf8(text), from),
        is_char_boundary(encode_utf8(text), mid),
        is_char_boundary(encode_utf8(text), to),
    ensures
        piece(text, from, mid) + piece(text, mid, to) == piece(text, from, to),
{
    let bytes = encode_utf8(text);
    let part = bytes.subrange(from, to);
    encode_utf8_valid_utf8(text);
    lemma_boundary_in_range(bytes, from, mid, to);
    decode_utf8_split(part, mid - from);
    assert(part.subrange(0, mid - from) =~= bytes.subrange(from, mid));
    assert(part.subrange(mid - from, part.len() as int) =~= bytes.subrange(mid, to));
}

/// Where every span is replaced by the text it covers, what is spliced from
/// a boundary on is the text from that boundary on.
proof fn lemma_spliced_plain_from(
    text: Seq<char>,
    spans: Seq<(usize, usize)>,
    with: Seq<Seq<char>>,
    next: int,
    from: int,
)
    requires
        spans_fit(text, spans),
        with.len() == spans.len(),
        forall|k: int|
            0 <= k < spans.len() ==> #[trigger] with[k] == piece(
                text,
                spans[k].0 as int,
                spans[k].1 as int,
            ),
        0 <= next <= spans.len(),
        0 <= from <= encode_utf8(text).len(),
        is_char_boundary(encode_utf8(text), from),
        next < spans.len() ==> from <= spans[next].0,
    ensures
        spliced_from(text, spans, with, next, from) == piece(
            text,
            from,
            encode_utf8(text).len() as int,
        ),
    decreases spans.len() - next,
{
    if next < spans.len() {
        let bytes = encode_utf8(text);
        let len = bytes.len() as int;
        let (start, end) = spans[next];
        encode_utf8_valid_utf8(text);
        is_char_boundary_start_end_of_seq(bytes);
        lemma_spliced_plain_from(text, spans, with, next + 1, end as int);
        lemma_pieces_join(text, from, start as int, end as int);
        lemma_pieces_join(text, from, end as int, len);
    }
}

/// The piece that covers a whole text is the text.
pub proof fn lemma_whole_piece(text: Seq<char>)
    ensures
        piece(text, 0, encode_utf8(text).len() as int) == text,
{
    let bytes = encode_utf8(text);
    assert(bytes.subrange(0, bytes.len() as int) =~= bytes);
    encode_utf8_decode_utf8(text);
}

/// Where the output takes no colours, highlighting leaves the text as it
/// is, whatever the spans.
pub proof fn law_plain_painting_keeps_text(text: Seq<char>, spans: Seq<(usize, usize)>)
    requires
        spans_fit(text, spans),
    ensures
        highlighted(text, spans, false) == text,
{
    encode_utf8_valid_utf8(text);
    lemma_spliced_plain_from(text, spans, paintings(text, spans, false), 0, 0);
    lemma_whole_piece(text);
}

/// Where the engine found no match, highlighting leaves the text as it is.
pub proof fn lemma_nothing_found_keeps_text(
    text: Seq<char>,
    spans: Seq<(usize, usize)>,
    colours: bool,
)
    ensures
        spans.len() == 0 ==> highlighted(text, spans, colours) == text,
{
    lemma_whole_piece(text);
}

/// A piece of a text occurs in the text.
pub proof fn lemma_piece_is_substring(text: Seq<char>, from: int, to: int)
    requires
        0 <= from <= to <= encode_utf8(text).len(),
        is_char_boundary(encode_utf8(text), from),
        is_char_boundary(encode_utf8(text), to),
    ensures
        is_substring(piece(text, from, to), text),
{
    let bytes = encode_utf8(text);
    let len = bytes.len() as int;
    let before = piece(text, 0, from);
    let part = piece(text, from, to);
    let after = piece(text, to, len);
    encode_utf8_valid_utf8(text);
    is_char_boundary_start_end_of_seq(bytes);
    lemma_pieces_join(text, 0, from, to);
    lemma_pieces_join(text, 0, to, len);
    lemma_whole_piece(text);
    let at = before.len() as int;
    assert(text.subrange(at, at + part.len()) =~= part);
    assert(occurs_at(part, text, at));
}

/// Where the spans are the matches of a literal pattern, a text in which the
/// pattern does not occur has no span.
pub proof fn lemma_literal_needs_occurrence(
    pattern: Seq<char>,
    text: Seq<char>,
    spans: Seq<(usize, usize)>,
)
    requires
        spans_fit(text, spans),
        finds_literal(pattern, text, spans),
    ensures
        !is_substring(pattern, text) ==> spans.len() == 0,
{
    if spans.len() > 0 {
        let first = spans[0];
        lemma_piece_is_substring(text, first.0 as int, first.1 as int);
    }
}

/// A span that covers the pattern marks an occurrence of it: the pattern
/// occurs at the character that the span starts with, the span starts at
/// that character's byte offset, and it is as long as the pattern's encoding.
pub proof fn lemma_span_is_occurrence(pattern: Seq<char>, text: Seq<char>, from: int, to: int)
    requires
        0 <= from <= to <= encode_utf8(text).len(),
        is_char_boundary(encode_utf8(text), from),
        is_char_boundary(encode_utf8(text), to),
        piece(text, from, to) == pattern,
    ensures
        occurs_at(pattern, text, piece(text, 0, from).len() as int),
        encode_utf8(text.take(piece(text, 0, from).len() as int)).len() == from,
        to == from + encode_utf8(pattern).len(),
{
    let bytes = encode_utf8(text);
    let len = bytes.len() as int;
    let before = piece(text, 0, from);
    let after = piece(text, to, len);
    let at = before.len() as int;
    encode_utf8_valid_utf8(text);
    is_char_boundary_start_end_of_seq(bytes);
    lemma_pieces_join(text, 0, from, to);
    lemma_pieces_join(text, 0, to, len);
    lemma_whole_piece(text);
    assert(text.subrange(at, at + pattern.len()) =~= pattern);
    assert(text.take(at) =~= before);
    lemma_boundary_in_range(bytes, 0, from, from);
    decode_utf8_encode_utf8(bytes.subrange(0, from));
    lemma_boundary_in_range(bytes, from, to, to);
    decode_utf8_encode_utf8(bytes.subrange(from, to));
}

/// Among the matches of a literal pattern, the span at an index starts no
/// later than the span at that index in any other list of its matches that
/// agrees with the first list up to there.
proof fn lemma_next_start(
    pattern: Seq<char>,
    text: Seq<char>,
    a: Seq<(usize, usize)>,
    b: Seq<(usize, usize)>,
    k: int,
)
    requires
        pattern.len() > 0,
        spans_fit(text, a),
        finds_literal(pattern, text, a),
        spans_fit(text, b),
        finds_literal(pattern, text, b),
        0 <= k < a.len(),
        k <= b.len(),
        forall|j: int| 0 <= j < k ==> a[j] == b[j],
    ensures
        k < b.len(),
        b[k].0 <= a[k].0,
{
    let span = a[k];
    let at = piece(text, 0, span.0 as int).len() as int;
    lemma_span_is_occurrence(pattern, text, span.0 as int, span.1 as int);
    let m = choose|m: int|
        0 <= m < b.len() && (#[trigger] b[m]).0 <= encode_utf8(text.take(at)).len() < b[m].1;
    if m < k {
        assert(a[m].1 <= a[k].0);
    } else if m > k {
        assert(b[k].1 <= b[m].0);
    }
}

/// Two lists of the matches of a literal pattern agree span by span.
proof fn lemma_same_spans_upto(
    pattern: Seq<char>,
    text: Seq<char>,
    a: Seq<(usize, usize)>,
    b: Seq<(usize, usize)>,
    k: int,
)
    requires
        pattern.len() > 0,
        spans_fit(text, a),
        finds_literal(pattern, text, a),
        spans_fit(text, b),
        finds_literal(pattern, text, b),
        0 <= k <= a.len(),
        k <= b.len(),
    ensures
        forall|j: int| 0 <= j < k ==> a[j] == b[j],
    decreases k,
{
    if k > 0 {
        lemma_same_spans_upto(pattern, text, a, b, k - 1);
        lemma_next_start(pattern, text, a, b, k - 1);
        lemma_next_start(pattern, text, b, a, k - 1);
        let x = a[k - 1];
        let y = b[k - 1];
        lemma_span_is_occurrence(pattern, text, x.0 as int, x.1 as int);
        lemma_span_is_occurrence(pattern, text, y.0 as int, y.1 as int);
    }
}

/// The matches of a pattern as literal text are settled by what is said of
/// them: for a pattern that is not empty, two lists of spans that both lie in
/// the text and both are its matches are the same list.
pub proof fn law_literal_matches_are_settled(
    pattern: Seq<char>,
    text: Seq<char>,
    a: Seq<(usize, usize)>,
    b: Seq<(usize, usize)>,
)
    requires
        pattern.len() > 0,
        spans_fit(text, a),
        finds_literal(pattern, text, a),
        spans_fit(text, b),
        finds_literal(pattern, text, b),
    ensures
        a == b,
{
    if a.len() <= b.len() {
        lemma_same_spans_upto(pattern, text, a, b, a.len() as int);
        if a.len() < b.len() {
            lemma_next_start(pattern, text, b, a, a.len() as int);
        }
    } else {
        lemma_same_spans_upto(pattern, text, a, b, b.len() as int);
        lemma_next_start(pattern, text, a, b, b.len() as int);
    }
}

} // verus!
