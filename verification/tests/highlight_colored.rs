use rgrep::highlight::{highlight_found, paint_hits, slice, splice};
use rgrep::paint::paint_red;
use rgrep::{Config, PatternError};

const RED: &str = "\u{1b}[31m";
const RESET: &str = "\u{1b}[0m";

fn config(target: &str) -> Config {
    Config {
        target: target.to_string(),
        paths: vec!["input.txt".to_string()],
        i: false,
        n: false,
        v: false,
        r: false,
        f: false,
        c: true,
        h: false,
    }
}

fn red(text: &str) -> String {
    format!("{}{}{}", RED, text, RESET)
}

#[test]
fn one_match_is_wrapped_once() {
    let out = config("cat").colorize("concatenate", true).unwrap();
    assert_eq!(out, format!("con{}enate", red("cat")));
}

#[test]
fn every_match_is_wrapped() {
    let out = config("a").colorize("banana", true).unwrap();
    assert_eq!(out, format!("b{}n{}n{}", red("a"), red("a"), red("a")));
}

#[test]
fn matches_do_not_overlap() {
    let out = config("aa").colorize("aaaaa", true).unwrap();
    assert_eq!(out, format!("{}{}a", red("aa"), red("aa")));
    let out = config("aba").colorize("ababa", true).unwrap();
    assert_eq!(out, format!("{}ba", red("aba")));
}

#[test]
fn line_without_match_is_unchanged() {
    let out = config("dog").colorize("concatenate", true).unwrap();
    assert_eq!(out, "concatenate");
}

#[test]
fn match_at_both_ends() {
    let out = config("ab").colorize("ab--ab", true).unwrap();
    assert_eq!(out, format!("{}--{}", red("ab"), red("ab")));
}

#[test]
fn whole_line_is_one_match() {
    let out = config("needle").colorize("needle", true).unwrap();
    assert_eq!(out, red("needle"));
}

#[test]
fn highlighting_ignores_case_and_keeps_the_casing() {
    let mut cfg = config("cat");
    cfg.i = true;
    let out = cfg.colorize("Cat, cAT and cat", true).unwrap();
    assert_eq!(out, format!("{}, {} and {}", red("Cat"), red("cAT"), red("cat")));
}

#[test]
fn highlighting_regards_case_by_default() {
    let out = config("cat").colorize("Cat, cAT and cat", true).unwrap();
    assert_eq!(out, format!("Cat, cAT and {}", red("cat")));
}

#[test]
fn meta_characters_are_literal() {
    let out = config("a.c").colorize("abc a.c", true).unwrap();
    assert_eq!(out, format!("abc {}", red("a.c")));
    let out = config("(x)*").colorize("xx (x)* x", true).unwrap();
    assert_eq!(out, format!("xx {} x", red("(x)*")));
    let out = config("\\d+").colorize("123 \\d+", true).unwrap();
    assert_eq!(out, format!("123 {}", red("\\d+")));
}

#[test]
fn regex_source_escapes_meta_characters() {
    assert_eq!(config("a.c").regex_source(), "a\\.c");
    assert_eq!(config("plain text").regex_source(), "plain text");
    assert_eq!(
        config("\\.+*?()|[]{}^$#&-~").regex_source(),
        "\\\\\\.\\+\\*\\?\\(\\)\\|\\[\\]\\{\\}\\^\\$\\#\\&\\-\\~"
    );
    assert_eq!(config("").regex_source(), "");
}

#[test]
fn regex_source_carries_the_case_flag() {
    let mut cfg = config("a.c");
    cfg.i = true;
    assert_eq!(cfg.regex_source(), "(?i)a\\.c");
    let mut cfg = config("");
    cfg.i = true;
    assert_eq!(cfg.regex_source(), "(?i)");
}

#[test]
fn highlighting_text_beyond_ascii() {
    let out = config("\u{e9}").colorize("caf\u{e9} cr\u{e8}me br\u{fb}l\u{e9}e", true).unwrap();
    assert_eq!(
        out,
        format!("caf{} cr\u{e8}me br\u{fb}l{}e", red("\u{e9}"), red("\u{e9}"))
    );
    let out = config("\u{597d}").colorize("\u{4f60}\u{597d}\u{4e16}\u{754c}", true).unwrap();
    assert_eq!(out, format!("\u{4f60}{}\u{4e16}\u{754c}", red("\u{597d}")));
}

#[test]
fn empty_pattern_marks_every_position() {
    let out = config("").colorize("ab", true).unwrap();
    assert_eq!(out, format!("{}a{}b{}", red(""), red(""), red("")));
    let out = config("").colorize("", true).unwrap();
    assert_eq!(out, red(""));
}

#[test]
fn empty_pattern_ignoring_case_marks_every_position() {
    let mut cfg = config("");
    cfg.i = true;
    let out = cfg.colorize("ab", true).unwrap();
    assert_eq!(out, format!("{}a{}b{}", red(""), red(""), red("")));
}

#[test]
fn empty_pattern_steps_over_whole_characters() {
    let out = config("").colorize("\u{e9}", true).unwrap();
    assert_eq!(out, format!("{}\u{e9}{}", red(""), red("")));
}

#[test]
fn a_reset_inside_a_match_switches_red_on_again() {
    let target = format!("a{}b", RESET);
    let line = format!("xa{}by", RESET);
    let out = config(&target).colorize(&line, true).unwrap();
    assert_eq!(out, format!("x{}a{}{}b{}y", RED, RESET, RED, RESET));
}

#[test]
fn highlighted_lines_are_rendered_with_their_prefix() {
    let mut cfg = config("cat");
    cfg.f = true;
    cfg.n = true;
    let lines = cfg
        .custom_display("words.txt", &vec![(7, "concatenate"), (9, "cat")], true)
        .unwrap();
    assert_eq!(
        lines,
        vec![
            format!("words.txt: 7: con{}enate", red("cat")),
            format!("words.txt: 9: {}", red("cat")),
        ]
    );
}

#[test]
fn search_and_display_highlights_what_it_found() {
    let mut cfg = config("an");
    cfg.n = true;
    let contents = "apple\nbanana\ncherry\n".to_string();
    let lines = cfg.search_and_display("fruit.txt", &contents, true).unwrap();
    assert_eq!(lines, vec![format!("2: b{}{}a", red("an"), red("an"))]);
}

#[test]
fn paint_hits_paints_each_span() {
    let painted = paint_hits("concatenate", &vec![(0, 3), (3, 6)], true);
    assert_eq!(painted, vec![red("con"), red("cat")]);
}

#[test]
fn splice_replaces_the_spans() {
    let with = vec!["<1>".to_string(), "<2>".to_string()];
    assert_eq!(splice("concatenate", &vec![(0, 3), (6, 8)], &with), "<1>cat<2>ate");
    assert_eq!(splice("concatenate", &vec![], &vec![]), "concatenate");
    let with = vec!["[]".to_string()];
    assert_eq!(splice("ab", &vec![(1, 1)], &with), "a[]b");
    assert_eq!(splice("ab", &vec![(0, 2)], &with), "[]");
}

#[test]
fn splice_counts_bytes() {
    let with = vec!["E".to_string()];
    assert_eq!(splice("caf\u{e9}s", &vec![(3, 5)], &with), "cafEs");
}

#[test]
fn slice_takes_the_bytes_between() {
    assert_eq!(slice("concatenate", 3, 6), "cat");
    assert_eq!(slice("concatenate", 0, 0), "");
    assert_eq!(slice("concatenate", 11, 11), "");
    assert_eq!(slice("caf\u{e9}s", 3, 5), "\u{e9}");
}

#[test]
fn a_pattern_too_large_for_the_engine_is_refused() {
    let cfg = config(&"a".repeat(1_000_000));
    let refused = cfg.colorize("aaa", true).unwrap_err();
    assert!(refused.message.contains("size limit"));
    let refused = cfg.custom_display("a.txt", &vec![(1, "aaa")], true).unwrap_err();
    assert!(refused.message.contains("size limit"));
}

#[test]
fn a_large_pattern_is_no_trouble_without_highlighting() {
    let mut cfg = config(&"a".repeat(1_000_000));
    cfg.c = false;
    let lines = cfg.custom_display("a.txt", &vec![(1, "aaa")], true).unwrap();
    assert_eq!(lines, vec!["aaa".to_string()]);
    cfg.c = true;
    cfg.v = true;
    let lines = cfg.custom_display("a.txt", &vec![(1, "aaa")], true).unwrap();
    assert_eq!(lines, vec!["aaa".to_string()]);
}

#[test]
fn found_matches_are_painted() {
    let out = highlight_found("concatenate", Ok(vec![(3, 6)]), true).unwrap();
    assert_eq!(out, format!("con{}enate", red("cat")));
    let out = highlight_found("banana", Ok(vec![(1, 2), (3, 4), (5, 6)]), true).unwrap();
    assert_eq!(out, format!("b{}n{}n{}", red("a"), red("a"), red("a")));
}

#[test]
fn no_match_found_leaves_the_text() {
    assert_eq!(highlight_found("concatenate", Ok(vec![]), true).unwrap(), "concatenate");
    assert_eq!(highlight_found("", Ok(vec![]), true).unwrap(), "");
}

#[test]
fn a_refusal_of_the_engine_is_handed_on() {
    let refusal = PatternError { message: "too large".to_string() };
    let handed_on = highlight_found("concatenate", Err(refusal), true).unwrap_err();
    assert_eq!(handed_on.message, "too large");
}

#[test]
fn a_sentence_without_the_pattern_comes_back_unchanged() {
    assert_eq!(config("dog").colorize("the cat sat", true).unwrap(), "the cat sat");
    assert_eq!(config("Cat").colorize("the cat sat", true).unwrap(), "the cat sat");
    assert_eq!(config("cat").colorize("", true).unwrap(), "");
}

#[test]
fn highlighted_rendering_twice_gives_the_same_lines() {
    let mut cfg = config("an");
    cfg.f = true;
    cfg.n = true;
    let entries = vec![(2, "banana"), (4, "mango")];
    let first = cfg.custom_display("fruit.txt", &entries, true).unwrap();
    let second = cfg.custom_display("fruit.txt", &entries, true).unwrap();
    assert_eq!(first, second);
    assert_eq!(first[1], format!("fruit.txt: 4: m{}go", red("an")));
}

#[test]
fn a_refused_pattern_fails_only_where_a_line_is_highlighted() {
    let cfg = config(&"a".repeat(1_000_000));
    assert!(cfg.custom_display("a.txt", &vec![], true).is_ok());
    assert!(cfg.custom_display("a.txt", &vec![(1, "aaa")], true).is_err());
    let nothing_selected = "bbb\nccc\n".to_string();
    assert!(cfg.search_and_display("a.txt", &nothing_selected, true).unwrap().is_empty());
}

#[test]
fn painting_wraps_the_text_in_red() {
    assert_eq!(paint_red("cat", true), "\u{1b}[31mcat\u{1b}[0m");
    assert_eq!(paint_red("", true), "\u{1b}[31m\u{1b}[0m");
    assert_eq!(paint_red("caf\u{e9} \u{4f60}\u{597d}", true), red("caf\u{e9} \u{4f60}\u{597d}"));
}

#[test]
fn painting_switches_red_on_again_after_each_reset() {
    let text = format!("a{}b{}c", RESET, RESET);
    assert_eq!(
        paint_red(&text, true),
        format!("{}a{}{}b{}{}c{}", RED, RESET, RED, RESET, RED, RESET)
    );
    assert_eq!(paint_red(RESET, true), format!("{}{}{}{}", RED, RESET, RED, RESET));
    let twice = format!("{}{}", RESET, RESET);
    assert_eq!(
        paint_red(&twice, true),
        format!("{}{}{}{}{}{}", RED, RESET, RED, RESET, RED, RESET)
    );
    let beyond_ascii = format!("\u{e9}{}\u{597d}", RESET);
    assert_eq!(
        paint_red(&beyond_ascii, true),
        format!("{}\u{e9}{}{}\u{597d}{}", RED, RESET, RED, RESET)
    );
}

#[test]
fn painting_leaves_other_escape_sequences_alone() {
    assert_eq!(paint_red("\u{1b}[0", true), red("\u{1b}[0"));
    assert_eq!(paint_red("\u{1b}", true), red("\u{1b}"));
    assert_eq!(paint_red("[0m", true), red("[0m"));
    assert_eq!(paint_red("\u{1b}[1m", true), red("\u{1b}[1m"));
    let near = format!("\u{1b}[0x{}", RESET);
    assert_eq!(paint_red(&near, true), format!("{}\u{1b}[0x{}{}{}", RED, RESET, RED, RESET));
}

#[test]
fn ignoring_case_paints_by_the_rule_of_the_search() {
    let mut cfg = config("\u{17f}");
    cfg.i = true;
    assert_eq!(cfg.colorize("sun", true).unwrap(), "sun");
    assert_eq!(cfg.colorize("SUN", true).unwrap(), "SUN");
    assert!(cfg.search(&"sun".to_string()).is_empty());
    let mut cfg = config("k");
    cfg.i = true;
    assert_eq!(cfg.colorize("\u{212a}", true).unwrap(), red("\u{212a}"));
    assert_eq!(cfg.search(&"\u{212a}".to_string()), vec![(1, "\u{212a}")]);
}
