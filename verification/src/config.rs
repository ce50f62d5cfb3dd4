//! The options of one search.

use vstd::prelude::*;
use vstd::string::StringExecFns;

verus! {

/// What a search looks for and how its results are shown.
///
/// A configuration is made once and only read afterwards.
pub struct Config {
    /// The literal text to look for.
    pub target: String,
    /// The files and directories to search.
    pub paths: Vec<String>,
    /// Compare without regard to letter case.
    pub i: bool,
    /// Show the line number in front of each line.
    pub n: bool,
    /// Select the lines that do not contain the pattern.
    pub v: bool,
    /// Descend into the subdirectories of a directory.
    pub r: bool,
    /// Show the file name in front of each line.
    pub f: bool,
    /// Highlight the matches in each line.
    pub c: bool,
    /// Show the usage text instead of searching.
    pub h: bool,
}

/// What to do with one of the paths that a search was given.
#[derive(Clone, Copy, Debug, PartialEq, Eq)]
pub enum PathStep {
    /// The path does not exist: say so, and go on with the next path.
    Missing,
    /// Search the file, or the files found in the directory down to the
    /// given depth, where depth 1 is the directory's own entries and no depth
    /// means no limit.
    Walk { max_depth: Option<usize> },
}

/// The pattern that stands for "no pattern was given".
pub open spec fn unset_target() -> Seq<char> {
    "<NaN>"@
}

impl Config {
    /// No search is to be run: help was asked for, or the pattern or the
    /// paths are missing.
    pub open spec fn usage_wanted(&self) -> bool {
        self.h || self.paths@.len() == 0 || self.target@ == unset_target()
    }

    /// Whether the usage text is to be shown in place of a search.
    pub fn wants_usage(&self) -> (usage: bool)
        ensures
            usage == self.usage_wanted(),
    {
        let unset = String::from_str("<NaN>");
        self.h || self.paths.len() == 0 || self.target == unset
    }

    /// How deep a directory is entered, counted from the directory itself:
    /// without limit when recursing, else only to the entries directly
    /// inside it.
    pub open spec fn depth_limit(&self) -> Option<usize> {
        if self.r {
            None
        } else {
            Some(1usize)
        }
    }

    /// What is done with a given path: one that does not exist is named
    /// and passed over, any other is walked down to the depth limit.
    pub open spec fn step_for(&self, exists: bool) -> PathStep {
        if exists {
            PathStep::Walk { max_depth: self.depth_limit() }
        } else {
            PathStep::Missing
        }
    }

    /// Decides what to do with one of the given paths, from whether it
    /// exists. The decision for one path does not depend on any other path.
    pub fn plan_path(&self, exists: bool) -> (step: PathStep)
        ensures
            step == self.step_for(exists),
    {
        if !exists {
            PathStep::Missing
        } else if self.r {
            PathStep::Walk { max_depth: None }
        } else {
            PathStep::Walk { max_depth: Some(1) }
        }
    }
}

} // verus!
