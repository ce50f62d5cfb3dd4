//! Turning selected lines into output lines.

use vstd::prelude::*;
use vstd::string::StringExecFns;
use crate::config::Config;
use crate::highlight::law_plain_painting_keeps_text;
use crate::matcher::entries_view;
use crate::pattern::{regex_takes, PatternError};
use crate::text::{lines_of, texts_of};

verus! {

/// The character for a digit below ten.
pub open spec fn digit(d: nat) -> char {
    if d == 0 {
        '0'
    } else if d == 1 {
        '1'
    } else if d == 2 {
        '2'
    } else if d == 3 {
        '3'
    } else if d == 4 {
        '4'
    } else if d == 5 {
        '5'
    } else if d == 6 {
        '6'
    } else if d == 7 {
        '7'
    } else if d == 8 {
        '8'
    } else {
        '9'
    }
}

/// A number written in decimal digits, without leading zeros.
pub open spec fn decimal(n: nat) -> Seq<char>
    decreases n,
{
    if n < 10 {
        seq![digit(n)]
    } else {
        decimal(n / 10).push(digit(n % 10))
    }
}

/// What stands between the parts of an output line.
pub open spec fn separator() -> Seq<char> {
    seq![':', ' ']
}

/// The text of one digit.
fn digit_text(d: usize) -> (text: &'static str)
    requires
        d < 10,
    ensures
        text@ == seq![digit(d as nat)],
{
    proof {
        reveal_strlit("0");
        reveal_strlit("1");
        reveal_strlit("2");
        reveal_strlit("3");
        reveal_strlit("4");
        reveal_strlit("5");
        reveal_strlit("6");
        reveal_strlit("7");
        reveal_strlit("8");
        reveal_strlit("9");
    }
    let text = if d == 0 {
        "0"
    } else if d == 1 {
        "1"
    } else if d == 2 {
        "2"
    } else if d == 3 {
        "3"
    } else if d == 4 {
        "4"
    } else if d == 5 {
        "5"
    } else if d == 6 {
        "6"
    } else if d == 7 {
        "7"
    } else if d == 8 {
        "8"
    } else {
        "9"
    };
    text
}

/// Writes `n` in decimal digits at the end of `out`.
pub fn append_decimal(out: &mut String, n: usize)
    ensures
        final(out)@ == old(out)@ + decimal(n as nat),
    decreases n,
{
    if n >= 10 {
        append_decimal(out, n / 10);
    }
    out.append(digit_text(n % 10));
}

impl Config {
    /// One output line: the shown text, with the file name, the line number,
    /// both or neither in front of it, as the options say.
    pub open spec fn formatted(&self, file: Seq<char>, number: int, shown: Seq<char>) -> Seq<
        char,
    > {
        if self.f && self.n {
            file + separator() + decimal(number as nat) + separator() + shown
        } else if self.f {
            file + separator() + shown
        } else if self.n {
            decimal(number as nat) + separator() + shown
        } else {
            shown
        }
    }

    /// What an output line shows of a selected line's text: the text itself,
    /// or, where matches are highlighted and the selection is not inverted,
    /// the text with its matches painted.
    pub open spec fn shown(&self, text: Seq<char>, colours: bool) -> Seq<char> {
        if self.c && !self.v {
            self.highlighted(text, colours)
        } else {
            text
        }
    }

    /// The output lines for `entries`: one for each entry, in order, showing
    /// the entry's text under the entry's number.
    pub open spec fn rendered(
        &self,
        file: Seq<char>,
        entries: Seq<(int, Seq<char>)>,
        colours: bool,
    ) -> Seq<Seq<char>> {
        Seq::new(
            entries.len(),
            |k: int| self.formatted(file, entries[k].0, self.shown(entries[k].1, colours)),
        )
    }

    /// The output lines for `entries` where nothing is highlighted: each
    /// entry's text as it stands, under the entry's number.
    pub open spec fn plain_lines(&self, file: Seq<char>, entries: Seq<(int, Seq<char>)>) -> Seq<
        Seq<char>,
    > {
        Seq::new(entries.len(), |k: int| self.formatted(file, entries[k].0, entries[k].1))
    }

    /// Rendering `count` entries goes well: nothing is to be highlighted, or
    /// the engine takes the pattern's regular expression.
    pub open spec fn renders_well(&self, count: nat) -> bool {
        !self.c || self.v || count == 0 || regex_takes(self.pattern_source())
    }

    /// Formats one output line from the text to show.
    pub fn render_line(&self, file_name: &str, number: usize, shown: &str) -> (line: String)
        ensures
            line@ == self.formatted(file_name@, number as int, shown@),
    {
        let mut line = String::new();
        if self.f {
            line.append(file_name);
            line.append(": ");
        }
        if self.n {
            append_decimal(&mut line, number);
            line.append(": ");
        }
        line.append(shown);
        proof {
            reveal_strlit(": ");
        }
        line
    }

    /// The output lines for the selected lines of one file, in their order.
    /// Matches are highlighted where the options ask for it and the selection
    /// is not inverted, in red where the output takes colours.
    ///
    /// Fails exactly where a line is to be highlighted and the engine does
    /// not take the pattern.
    pub fn custom_display(
        &self,
        file_name: &str,
        result: &Vec<(usize, &str)>,
        colours: bool,
    ) -> (rendered: Result<Vec<String>, PatternError>)
        ensures
            rendered is Ok <==> self.renders_well(result@.len()),
            rendered matches Ok(lines) ==> lines@.len() == result@.len(),
            rendered matches Ok(lines) ==> texts_of(lines@) == self.rendered(
                file_name@,
                entries_view(result@),
                colours,
            ),
            rendered is Ok && self.c && !self.v ==> forall|k: int|
                0 <= k < result@.len() ==> self.found_well((#[trigger] result@[k]).1@),
    {
        let ghost entries = entries_view(result@);
        let ghost wanted = self.rendered(file_name@, entries, colours);
        let mut lines: Vec<String> = Vec::new();
        let mut k: usize = 0;
        while k < result.len()
            invariant
                k <= result.len(),
                entries == entries_view(result@),
                wanted == self.rendered(file_name@, entries, colours),
                lines.len() == k,
                forall|j: int| 0 <= j < k ==> #[trigger] lines@[j]@ == wanted[j],
                self.c && !self.v && k > 0 ==> regex_takes(self.pattern_source()),
                self.c && !self.v ==> forall|j: int|
                    0 <= j < k ==> self.found_well((#[trigger] result@[j]).1@),
            decreases result.len() - k,
        {
            let (number, text) = result[k];
            let line = if self.c && !self.v {
                match self.colorize(text, colours) {
                    Ok(shown) => self.render_line(file_name, number, shown.as_str()),
                    Err(error) => {
                        return Err(error);
                    },
                }
            } else {
                self.render_line(file_name, number, text)
            };
            lines.push(line);
            k += 1;
        }
        Ok(lines)
    }

    /// Searches the contents of one file and renders what was selected: the
    /// output lines for that file, in the order of its lines.
    ///
    /// Fails exactly where a selected line is to be highlighted and the
    /// engine does not take the pattern.
    pub fn search_and_display(&self, file_name: &str, contents: &String, colours: bool) -> (rendered:
        Result<Vec<String>, PatternError>)
        ensures
            rendered is Ok <==> self.renders_well(self.selected(lines_of(contents@)).len()),
            rendered matches Ok(lines) ==> lines@.len() == self.selected(lines_of(contents@)).len(),
            rendered matches Ok(lines) ==> texts_of(lines@) == self.rendered(
                file_name@,
                self.selected(lines_of(contents@)),
                colours,
            ),
            rendered is Ok && self.c && !self.v ==> forall|k: int|
                0 <= k < self.selected(lines_of(contents@)).len() ==> self.found_well(
                    (#[trigger] self.selected(lines_of(contents@))[k]).1,
                ),
    {
        let result = self.search(contents);
        self.custom_display(file_name, &result, colours)
    }
}

/// Rendering is a function of the options, the file name, the selected lines
/// and whether the output takes colours: two renderings of the same input
/// are the same, line for line, and each has one line for each entry, in the
/// order of the entries.
pub proof fn law_rendering_is_a_function(
    cfg: Config,
    file: Seq<char>,
    entries: Seq<(int, Seq<char>)>,
    colours: bool,
    first: Seq<Seq<char>>,
    second: Seq<Seq<char>>,
)
    requires
        first == cfg.rendered(file, entries, colours),
        second == cfg.rendered(file, entries, colours),
    ensures
        first == second,
        first.len() == entries.len(),
        forall|k: int|
            0 <= k < entries.len() ==> #[trigger] first[k] == cfg.formatted(
                file,
                entries[k].0,
                cfg.shown(entries[k].1, colours),
            ),
{
}

/// Where nothing is highlighted, every output line shows its entry's text as
/// it stands, whether or not the output takes colours.
pub proof fn law_plain_rendering(
    cfg: Config,
    file: Seq<char>,
    entries: Seq<(int, Seq<char>)>,
    colours: bool,
)
    requires
        !cfg.c || cfg.v,
    ensures
        cfg.rendered(file, entries, colours) == cfg.plain_lines(file, entries),
{
}

/// Where the output takes no colours, asking for highlighting changes
/// nothing: every output line shows its entry's text as it stands. This is
/// said of entries in which the engine has found the matches.
pub proof fn law_colourless_rendering_is_plain(
    cfg: Config,
    file: Seq<char>,
    entries: Seq<(int, Seq<char>)>,
)
    requires
        forall|k: int| 0 <= k < entries.len() ==> cfg.found_well((#[trigger] entries[k]).1),
    ensures
        cfg.rendered(file, entries, false) == cfg.plain_lines(file, entries),
{
    assert forall|k: int| 0 <= k < entries.len() implies cfg.shown(
        (#[trigger] entries[k]).1,
        false,
    ) == entries[k].1 by {
        law_plain_painting_keeps_text(entries[k].1, cfg.found(entries[k].1));
    }
}

} // verus!
