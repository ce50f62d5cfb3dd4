//! The markup that shows a match in red on a terminal.
//!
//! Whether the output takes colours is for the caller to say, call by call:
//! painting reads no switch and no environment, so the same text with the
//! same answer is always painted the same way.

use vstd::prelude::*;
use vstd::string::{StrSliceExecFns, StringExecFns};
use crate::strings::contains;
use crate::text::{is_substring, occurs_at};

verus! {

/// The escape sequence that switches the terminal to red text.
pub open spec fn red_on() -> Seq<char> {
    seq!['\u{1b}', '[', '3', '1', 'm']
}

/// The escape sequence that switches the terminal back to its normal text.
pub open spec fn reset() -> Seq<char> {
    seq!['\u{1b}', '[', '0', 'm']
}

/// `text` with red switched on again after every reset that it holds itself,
/// so that the whole of it shows in red.
pub open spec fn kept_red(text: Seq<char>) -> Seq<char>
    decreases text.len(),
{
    if text.len() == 0 {
        text
    } else if reset().is_prefix_of(text) {
        reset() + red_on() + kept_red(text.skip(reset().len() as int))
    } else {
        seq![text[0]] + kept_red(text.drop_first())
    }
}

/// `text` marked up to show in red.
pub open spec fn red_markup(text: Seq<char>) -> Seq<char> {
    red_on() + kept_red(text) + reset()
}

/// `text` as it is shown: marked up in red where the output takes colours,
/// unchanged where it does not.
pub open spec fn painting_of(text: Seq<char>, colours: bool) -> Seq<char> {
    if colours {
        red_markup(text)
    } else {
        text
    }
}

/// A text that holds no reset is kept red as it stands.
pub proof fn lemma_without_reset(text: Seq<char>)
    requires
        !is_substring(reset(), text),
    ensures
        kept_red(text) == text,
    decreases text.len(),
{
    if text.len() > 0 {
        if reset().is_prefix_of(text) {
            assert(occurs_at(reset(), text, 0));
        } else {
            let rest = text.drop_first();
            assert forall|at: int| !occurs_at(reset(), rest, at) by {
                if occurs_at(reset(), rest, at) {
                    assert(text.subrange(at + 1, at + 1 + reset().len()) =~= rest.subrange(
                        at,
                        at + reset().len(),
                    ));
                    assert(occurs_at(reset(), text, at + 1));
                }
            }
            lemma_without_reset(rest);
            assert(seq![text[0]] + rest =~= text);
        }
    }
}

/// Whether a reset stands in `text` at character position `at`, where `len`
/// is the number of characters of `text`.
fn reset_stands_at(text: &str, at: usize, len: usize) -> (stands: bool)
    requires
        len == text@.len(),
        at <= len,
    ensures
        stands == reset().is_prefix_of(text@.skip(at as int)),
{
    if len - at < 4 {
        false
    } else {
        let stands = text.get_char(at) == '\u{1b}' && text.get_char(at + 1) == '['
            && text.get_char(at + 2) == '0' && text.get_char(at + 3) == 'm';
        proof {
            let rest = text@.skip(at as int);
            if stands {
                assert(reset() =~= rest.subrange(0, reset().len() as int));
            } else {
                let front = rest.subrange(0, reset().len() as int);
                assert(front[0] == text@[at as int] && front[1] == text@[at + 1] && front[2]
                    == text@[at + 2] && front[3] == text@[at + 3]);
            }
        }
        stands
    }
}

/// `text` with red switched on again after every reset that it holds.
fn keep_red(text: &str) -> (kept: String)
    ensures
        kept@ == kept_red(text@),
{
    proof {
        reveal_strlit("\u{1b}[0m");
        reveal_strlit("\u{1b}[31m");
        assert("\u{1b}[0m"@ =~= reset());
        assert("\u{1b}[31m"@ =~= red_on());
    }
    if !contains(text, "\u{1b}[0m") {
        proof {
            lemma_without_reset(text@);
        }
        return String::from_str(text);
    }
    let len = text.unicode_len();
    let mut kept = String::new();
    let mut at: usize = 0;
    assert(text@.skip(0) =~= text@);
    while at < len
        invariant
            at <= len,
            len == text@.len(),
            "\u{1b}[0m"@ == reset(),
            "\u{1b}[31m"@ == red_on(),
            kept@ + kept_red(text@.skip(at as int)) == kept_red(text@),
        decreases len - at,
    {
        let ghost rest = text@.skip(at as int);
        let ghost before = kept@;
        if reset_stands_at(text, at, len) {
            kept.append("\u{1b}[0m");
            kept.append("\u{1b}[31m");
            proof {
                assert(rest.skip(reset().len() as int) =~= text@.skip(at + 4));
                assert(kept@ + kept_red(text@.skip(at + 4)) =~= before + kept_red(rest));
            }
            at += 4;
        } else {
            kept.append(text.substring_char(at, at + 1));
            proof {
                assert(text@.subrange(at as int, at + 1) =~= seq![rest[0]]);
                assert(rest.drop_first() =~= text@.skip(at + 1));
                assert(kept@ + kept_red(text@.skip(at + 1)) =~= before + kept_red(rest));
            }
            at += 1;
        }
    }
    assert(kept@ + kept_red(text@.skip(at as int)) =~= kept@);
    kept
}

/// Paints `text`: marks it up in red where the output takes colours, and
/// hands it back unchanged where it does not.
pub fn paint_red(text: &str, colours: bool) -> (painted: String)
    ensures
        painted@ == painting_of(text@, colours),
{
    if colours {
        proof {
            reveal_strlit("\u{1b}[0m");
            reveal_strlit("\u{1b}[31m");
            assert("\u{1b}[0m"@ =~= reset());
            assert("\u{1b}[31m"@ =~= red_on());
        }
        let kept = keep_red(text);
        let mut painted = String::from_str("\u{1b}[31m");
        painted.append(kept.as_str());
        painted.append("\u{1b}[0m");
        painted
    } else {
        String::from_str(text)
    }
}

} // verus!
