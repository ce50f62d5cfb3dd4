//! Selecting the lines of a text.

use vstd::prelude::*;
use crate::config::Config;
use crate::strings::{contains, lowercase, split_lines, to_lowercase};
use crate::text::{is_substring, lemma_empty_is_substring, lines_of, views_of};

verus! {

/// A selected line as the contracts see it: its number, counted from 1, and
/// its text.
pub open spec fn entry_view(entry: (usize, &str)) -> (int, Seq<char>) {
    (entry.0 as int, entry.1@)
}

/// The views of a list of selected lines.
pub open spec fn entries_view(entries: Seq<(usize, &str)>) -> Seq<(int, Seq<char>)> {
    Seq::new(entries.len(), |k: int| entry_view(entries[k]))
}

/// Every line with its number, counted from 1.
pub open spec fn numbered(lines: Seq<Seq<char>>) -> Seq<(int, Seq<char>)> {
    Seq::new(lines.len(), |k: int| (k + 1, lines[k]))
}

/// Some entry of `entries` carries the line number `number`.
pub open spec fn has_number(entries: Seq<(int, Seq<char>)>, number: int) -> bool {
    exists|j: int| 0 <= j < entries.len() && (#[trigger] entries[j]).0 == number
}

impl Config {
    /// The line contains the pattern. Without regard to case, both the line
    /// and the pattern are compared in their lowercase forms.
    pub open spec fn line_matches(&self, line: Seq<char>) -> bool {
        if self.i {
            is_substring(lowercase(self.target@), lowercase(line))
        } else {
            is_substring(self.target@, line)
        }
    }

    /// Tests whether a line contains the pattern, by the rule of the search.
    pub fn matches_line(&self, line: &str) -> (found: bool)
        ensures
            found == self.line_matches(line@),
    {
        if self.i {
            let needle = to_lowercase(self.target.as_str());
            let lower = to_lowercase(line);
            assert(needle@ =~= lowercase(self.target@));
            assert(lower@ =~= lowercase(line@));
            contains(lower.as_str(), needle.as_str())
        } else {
            contains(line, self.target.as_str())
        }
    }

    /// The line belongs to the result: it matches, or, inverted, it does not.
    pub open spec fn keeps(&self, line: Seq<char>) -> bool {
        self.line_matches(line) != self.v
    }

    /// The test that a numbered line passes when its text is kept.
    pub open spec fn kept(&self) -> spec_fn((int, Seq<char>)) -> bool {
        |entry: (int, Seq<char>)| self.keeps(entry.1)
    }

    /// What is selected among `lines`: the kept lines, each with its number,
    /// in the order of the lines.
    pub open spec fn selected(&self, lines: Seq<Seq<char>>) -> Seq<(int, Seq<char>)> {
        numbered(lines).filter(self.kept())
    }

    /// Selects the lines of `contents` that contain the pattern, or those that
    /// do not when the selection is inverted. Each comes with its line number,
    /// counted from 1, and stays a slice of `contents`.
    pub fn search<'a>(&self, contents: &'a String) -> (result: Vec<(usize, &'a str)>)
        ensures
            result@.len() == self.selected(lines_of(contents@)).len(),
            entries_view(result@) == self.selected(lines_of(contents@)),
    {
        let lines = split_lines(contents.as_str());
        let needle = if self.i {
            to_lowercase(self.target.as_str())
        } else {
            self.target.clone()
        };
        let ghost all = lines_of(contents@);
        let mut result: Vec<(usize, &'a str)> = Vec::new();
        let mut k: usize = 0;
        proof {
            lemma_selected_none(*self);
        }
        while k < lines.len()
            invariant
                k <= lines.len(),
                lines@.len() == all.len(),
                views_of(lines@) == all,
                needle@ == if self.i {
                    lowercase(self.target@)
                } else {
                    self.target@
                },
                entries_view(result@) == self.selected(all.take(k as int)),
            decreases lines.len() - k,
        {
            let line = lines[k];
            let found = if self.i {
                let lower = to_lowercase(line);
                assert(lower@ =~= lowercase(line@));
                contains(lower.as_str(), needle.as_str())
            } else {
                contains(line, needle.as_str())
            };
            proof {
                assert(all.take(k + 1).drop_last() =~= all.take(k as int));
                lemma_selected_step(*self, all.take(k + 1));
            }
            if found != self.v {
                result.push((k + 1, line));
            }
            k += 1;
        }
        assert(all.take(k as int) =~= all);
        result
    }
}

/// Nothing is selected where there are no lines.
pub proof fn lemma_selected_none(cfg: Config)
    ensures
        cfg.selected(Seq::empty()) == Seq::<(int, Seq<char>)>::empty(),
{
    reveal(Seq::filter);
}

/// The selection grows line by line: the last line is added to what is
/// selected among the lines before it, under its number, if it is kept.
pub proof fn lemma_selected_step(cfg: Config, lines: Seq<Seq<char>>)
    requires
        lines.len() > 0,
    ensures
        cfg.selected(lines) == if cfg.keeps(lines.last()) {
            cfg.selected(lines.drop_last()).push((lines.len() as int, lines.last()))
        } else {
            cfg.selected(lines.drop_last())
        },
{
    reveal(Seq::filter);
    assert(numbered(lines).drop_last() =~= numbered(lines.drop_last()));
}

/// The selection, entry by entry: every entry is a kept line under its own
/// number, every kept line has its entry, and the numbers rise.
pub proof fn lemma_selected(cfg: Config, lines: Seq<Seq<char>>)
    ensures
        cfg.selected(lines).len() <= lines.len(),
        forall|j: int|
            0 <= j < cfg.selected(lines).len() ==> {
                let entry = #[trigger] cfg.selected(lines)[j];
                &&& 1 <= entry.0 <= lines.len()
                &&& entry.1 == lines[entry.0 - 1]
                &&& cfg.keeps(entry.1)
            },
        forall|k: int|
            0 <= k < lines.len() && cfg.keeps(#[trigger] lines[k]) ==> exists|j: int|
                0 <= j < cfg.selected(lines).len() && #[trigger] cfg.selected(lines)[j] == (
                    k + 1,
                    lines[k],
                ),
        forall|a: int, b: int|
            0 <= a < b < cfg.selected(lines).len() ==> (#[trigger] cfg.selected(lines)[a]).0 < (
            #[trigger] cfg.selected(lines)[b]).0,
    decreases lines.len(),
{
    if lines.len() == 0 {
        lemma_selected_none(cfg);
    } else {
        let front = lines.drop_last();
        lemma_selected(cfg, front);
        lemma_selected_step(cfg, lines);
        let before = cfg.selected(front);
        let now = cfg.selected(lines);
        assert forall|k: int| 0 <= k < lines.len() && cfg.keeps(#[trigger] lines[k]) implies exists|
            j: int,
        | 0 <= j < now.len() && #[trigger] now[j] == (k + 1, lines[k]) by {
            if k < lines.len() - 1 {
                let j = choose|j: int|
                    0 <= j < before.len() && #[trigger] before[j] == (k + 1, front[k]);
                assert(now[j] == (k + 1, lines[k]));
            } else {
                assert(now[before.len() as int] == (k + 1, lines[k]));
            }
        }
    }
}

/// A line number occurs in the selection exactly when its line is kept.
pub proof fn lemma_number_selected(cfg: Config, lines: Seq<Seq<char>>, number: int)
    requires
        1 <= number <= lines.len(),
    ensures
        has_number(cfg.selected(lines), number) <==> cfg.keeps(lines[number - 1]),
{
    lemma_selected(cfg, lines);
}

/// A plain search, with no option set, returns exactly the lines that contain
/// the pattern: every entry is a line of the text under its number, counted
/// from 1, and contains the pattern; every line that contains the pattern has
/// its entry; and the entries stand in the order of the lines.
pub proof fn law_plain_search_is_exact(cfg: Config, contents: Seq<char>)
    requires
        !cfg.i,
        !cfg.v,
    ensures
        forall|j: int|
            0 <= j < cfg.selected(lines_of(contents)).len() ==> {
                let entry = #[trigger] cfg.selected(lines_of(contents))[j];
                &&& 1 <= entry.0 <= lines_of(contents).len()
                &&& entry.1 == lines_of(contents)[entry.0 - 1]
                &&& is_substring(cfg.target@, entry.1)
            },
        forall|k: int|
            0 <= k < lines_of(contents).len() && is_substring(
                cfg.target@,
                #[trigger] lines_of(contents)[k],
            ) ==> exists|j: int|
                0 <= j < cfg.selected(lines_of(contents)).len() && #[trigger] cfg.selected(
                    lines_of(contents),
                )[j] == (k + 1, lines_of(contents)[k]),
        forall|a: int, b: int|
            0 <= a < b < cfg.selected(lines_of(contents)).len() ==> (#[trigger] cfg.selected(
                lines_of(contents),
            )[a]).0 < (#[trigger] cfg.selected(lines_of(contents))[b]).0,
{
    lemma_selected(cfg, lines_of(contents));
}

/// The two selections that differ only in being inverted hold, between them,
/// as many entries as there are lines.
proof fn lemma_inverted_count(plain: Config, inverted: Config, lines: Seq<Seq<char>>)
    requires
        plain.target@ == inverted.target@,
        plain.i == inverted.i,
        plain.v != inverted.v,
    ensures
        plain.selected(lines).len() + inverted.selected(lines).len() == lines.len(),
    decreases lines.len(),
{
    if lines.len() == 0 {
        lemma_selected_none(plain);
        lemma_selected_none(inverted);
    } else {
        lemma_inverted_count(plain, inverted, lines.drop_last());
        lemma_selected_step(plain, lines);
        lemma_selected_step(inverted, lines);
    }
}

/// An inverted search returns the complement of the search that is not
/// inverted: of every line of the text, exactly one of the two results holds
/// the number, neither holds any other number, and together they have as
/// many entries as the text has lines.
pub proof fn law_inverted_is_complement(plain: Config, inverted: Config, contents: Seq<char>)
    requires
        plain.target@ == inverted.target@,
        plain.i == inverted.i,
        !plain.v,
        inverted.v,
    ensures
        forall|number: int|
            1 <= number <= lines_of(contents).len() ==> (#[trigger] has_number(
                plain.selected(lines_of(contents)),
                number,
            ) != has_number(inverted.selected(lines_of(contents)), number)),
        forall|number: int|
            !(1 <= number <= lines_of(contents).len()) ==> !(#[trigger] has_number(
                plain.selected(lines_of(contents)),
                number,
            )) && !has_number(inverted.selected(lines_of(contents)), number),
        plain.selected(lines_of(contents)).len() + inverted.selected(lines_of(contents)).len()
            == lines_of(contents).len(),
{
    let lines = lines_of(contents);
    lemma_inverted_count(plain, inverted, lines);
    lemma_selected(plain, lines);
    lemma_selected(inverted, lines);
    assert forall|number: int| 1 <= number <= lines.len() implies (#[trigger] has_number(
        plain.selected(lines),
        number,
    ) != has_number(inverted.selected(lines), number)) by {
        lemma_number_selected(plain, lines, number);
        lemma_number_selected(inverted, lines, number);
    }
}

/// With every line kept, the lines are selected as they stand.
proof fn lemma_all_kept(cfg: Config, lines: Seq<Seq<char>>)
    requires
        forall|k: int| 0 <= k < lines.len() ==> cfg.keeps(#[trigger] lines[k]),
    ensures
        cfg.selected(lines) == numbered(lines),
    decreases lines.len(),
{
    if lines.len() == 0 {
        lemma_selected_none(cfg);
    } else {
        let front = lines.drop_last();
        lemma_all_kept(cfg, front);
        lemma_selected_step(cfg, lines);
    }
}

/// With no line kept, nothing is selected.
proof fn lemma_none_kept(cfg: Config, lines: Seq<Seq<char>>)
    requires
        forall|k: int| 0 <= k < lines.len() ==> !cfg.keeps(#[trigger] lines[k]),
    ensures
        cfg.selected(lines).len() == 0,
    decreases lines.len(),
{
    if lines.len() == 0 {
        lemma_selected_none(cfg);
    } else {
        let front = lines.drop_last();
        lemma_none_kept(cfg, front);
        lemma_selected_step(cfg, lines);
    }
}

/// The empty pattern occurs in every line: a search for it returns all lines
/// of the text unchanged, each under its number, and the inverted search
/// returns none. This holds whether or not case is regarded.
pub proof fn law_empty_pattern_selects_all(cfg: Config, contents: Seq<char>)
    requires
        cfg.target@.len() == 0,
    ensures
        !cfg.v ==> cfg.selected(lines_of(contents)) == numbered(lines_of(contents)),
        cfg.v ==> cfg.selected(lines_of(contents)).len() == 0,
{
    let lines = lines_of(contents);
    assert(cfg.target@ =~= Seq::<char>::empty());
    assert forall|k: int| 0 <= k < lines.len() implies cfg.line_matches(#[trigger] lines[k]) by {
        lemma_empty_is_substring(lines[k]);
        lemma_empty_is_substring(lowercase(lines[k]));
    }
    if cfg.v {
        lemma_none_kept(cfg, lines);
    } else {
        lemma_all_kept(cfg, lines);
    }
}

} // verus!
