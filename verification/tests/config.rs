use rgrep::{Config, PathStep};

fn config(target: &str, paths: Vec<&str>) -> Config {
    Config {
        target: target.to_string(),
        paths: paths.into_iter().map(|p| p.to_string()).collect(),
        i: false,
        n: false,
        v: false,
        r: false,
        f: false,
        c: false,
        h: false,
    }
}

#[test]
fn search_runs_with_pattern_and_paths() {
    assert!(!config("needle", vec!["a.txt"]).wants_usage());
    assert!(!config("needle", vec!["a.txt", "dir"]).wants_usage());
}

#[test]
fn usage_is_shown_on_request() {
    let mut cfg = config("needle", vec!["a.txt"]);
    cfg.h = true;
    assert!(cfg.wants_usage());
}

#[test]
fn usage_is_shown_without_paths() {
    assert!(config("needle", vec![]).wants_usage());
}

#[test]
fn usage_is_shown_without_pattern() {
    assert!(config("<NaN>", vec!["a.txt"]).wants_usage());
    assert!(config("<NaN>", vec![]).wants_usage());
}

#[test]
fn empty_pattern_is_a_pattern() {
    assert!(!config("", vec!["a.txt"]).wants_usage());
    assert!(!config("<nan>", vec!["a.txt"]).wants_usage());
}

#[test]
fn directories_are_entered_one_level_by_default() {
    let cfg = config("needle", vec!["dir"]);
    assert_eq!(cfg.plan_path(true), PathStep::Walk { max_depth: Some(1) });
}

#[test]
fn directories_are_entered_fully_when_recursing() {
    let mut cfg = config("needle", vec!["dir"]);
    cfg.r = true;
    assert_eq!(cfg.plan_path(true), PathStep::Walk { max_depth: None });
}

#[test]
fn a_missing_path_is_told_apart() {
    let mut cfg = config("needle", vec!["missing", "present"]);
    assert_eq!(cfg.plan_path(false), PathStep::Missing);
    cfg.r = true;
    assert_eq!(cfg.plan_path(false), PathStep::Missing);
}

#[test]
fn a_missing_path_does_not_change_what_is_done_with_the_next() {
    let cfg = config("needle", vec!["missing", "present"]);
    let steps: Vec<PathStep> = [false, true].iter().map(|exists| cfg.plan_path(*exists)).collect();
    assert_eq!(
        steps,
        vec![PathStep::Missing, PathStep::Walk { max_depth: Some(1) }]
    );
}
