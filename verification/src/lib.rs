//! Line filtering and result rendering for a small grep-like search tool.
//!
//! The library works on text that is already in memory. Given the contents of
//! one file it selects the lines that contain (or, inverted, do not contain) a
//! literal pattern, and turns the selected lines into output lines with
//! optional file name, line number and highlighted matches. Reading files,
//! walking directories and printing stay with the caller, and so does the
//! decision whether the output takes colours: the caller says so, call by
//! call.
//!
//! Contracts are stated over `Seq<char>`, the view of `str` and `String`.

pub mod config;
pub mod highlight;
pub mod matcher;
pub mod paint;
pub mod pattern;
pub mod render;
pub mod strings;
pub mod text;

pub use config::{Config, PathStep};
pub use pattern::PatternError;
