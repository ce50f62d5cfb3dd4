use rgrep::render::append_decimal;
use rgrep::Config;

fn config(target: &str) -> Config {
    Config {
        target: target.to_string(),
        paths: vec!["input.txt".to_string()],
        i: false,
        n: false,
        v: false,
        r: false,
        f: false,
        c: false,
        h: false,
    }
}

fn decimal(n: usize) -> String {
    let mut out = String::new();
    append_decimal(&mut out, n);
    out
}

#[test]
fn file_name_and_line_number() {
    let mut cfg = config("foo");
    cfg.f = true;
    cfg.n = true;
    let lines = cfg.custom_display("a.txt", &vec![(3, "foo bar")], true).unwrap();
    assert_eq!(lines, vec!["a.txt: 3: foo bar".to_string()]);
}

#[test]
fn file_name_only() {
    let mut cfg = config("foo");
    cfg.f = true;
    let lines = cfg.custom_display("a.txt", &vec![(3, "foo bar")], true).unwrap();
    assert_eq!(lines, vec!["a.txt: foo bar".to_string()]);
}

#[test]
fn line_number_only() {
    let mut cfg = config("foo");
    cfg.n = true;
    let lines = cfg.custom_display("a.txt", &vec![(3, "foo bar")], true).unwrap();
    assert_eq!(lines, vec!["3: foo bar".to_string()]);
}

#[test]
fn text_only() {
    let cfg = config("foo");
    let lines = cfg.custom_display("a.txt", &vec![(3, "foo bar")], true).unwrap();
    assert_eq!(lines, vec!["foo bar".to_string()]);
}

#[test]
fn one_output_line_for_each_entry_in_order() {
    let mut cfg = config("o");
    cfg.n = true;
    let entries = vec![(1, "one"), (2, "two"), (4, "four")];
    let lines = cfg.custom_display("numbers.txt", &entries, true).unwrap();
    assert_eq!(
        lines,
        vec!["1: one".to_string(), "2: two".to_string(), "4: four".to_string()]
    );
}

#[test]
fn nothing_selected_gives_no_output() {
    let mut cfg = config("o");
    cfg.f = true;
    cfg.n = true;
    cfg.c = true;
    let lines = cfg.custom_display("numbers.txt", &vec![], true).unwrap();
    assert!(lines.is_empty());
}

#[test]
fn rendering_twice_gives_the_same_lines() {
    let mut cfg = config("o");
    cfg.f = true;
    cfg.n = true;
    let entries = vec![(1, "one"), (2, "two"), (14, "fourteen")];
    let first = cfg.custom_display("numbers.txt", &entries, true).unwrap();
    let second = cfg.custom_display("numbers.txt", &entries, true).unwrap();
    assert_eq!(first, second);
    assert_eq!(first[2], "numbers.txt: 14: fourteen");
}

#[test]
fn inverted_results_are_not_highlighted() {
    let mut cfg = config("cat");
    cfg.c = true;
    cfg.v = true;
    cfg.n = true;
    let lines = cfg.custom_display("a.txt", &vec![(2, "concatenate")], true).unwrap();
    assert_eq!(lines, vec!["2: concatenate".to_string()]);
}

#[test]
fn render_line_puts_the_parts_together() {
    let mut cfg = config("x");
    cfg.f = true;
    cfg.n = true;
    assert_eq!(cfg.render_line("dir/b.txt", 120, "x marks"), "dir/b.txt: 120: x marks");
    assert_eq!(cfg.render_line("", 0, ""), ": 0: ");
}

#[test]
fn decimal_of_small_numbers() {
    assert_eq!(decimal(0), "0");
    assert_eq!(decimal(7), "7");
    assert_eq!(decimal(9), "9");
}

#[test]
fn decimal_of_larger_numbers() {
    assert_eq!(decimal(10), "10");
    assert_eq!(decimal(99), "99");
    assert_eq!(decimal(100), "100");
    assert_eq!(decimal(1234567890), "1234567890");
    assert_eq!(decimal(usize::MAX), usize::MAX.to_string());
}

#[test]
fn decimal_is_written_at_the_end() {
    let mut out = "line ".to_string();
    append_decimal(&mut out, 42);
    assert_eq!(out, "line 42");
}

#[test]
fn search_and_display_runs_both_steps() {
    let mut cfg = config("an");
    cfg.f = true;
    cfg.n = true;
    let contents = "apple\nbanana\ncherry\nmango\n".to_string();
    let lines = cfg.search_and_display("fruit.txt", &contents, true).unwrap();
    assert_eq!(
        lines,
        vec!["fruit.txt: 2: banana".to_string(), "fruit.txt: 4: mango".to_string()]
    );
}

#[test]
fn search_and_display_inverted() {
    let mut cfg = config("an");
    cfg.v = true;
    cfg.c = true;
    let contents = "apple\nbanana\ncherry\nmango\n".to_string();
    let lines = cfg.search_and_display("fruit.txt", &contents, true).unwrap();
    assert_eq!(lines, vec!["apple".to_string(), "cherry".to_string()]);
}
