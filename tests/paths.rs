use file_merger::paths::{contains_str, resolve_paths, split_patterns};

fn strings(v: &[&str]) -> Vec<String> {
    v.iter().map(|s| s.to_string()).collect()
}

#[test]
fn patterns_split_by_bang() {
    let (inc, exc) = split_patterns(&strings(&["src/*.rs", "!src/main.rs", "*.md", "!"]));
    assert_eq!(inc, strings(&["src/*.rs", "*.md"]));
    assert_eq!(exc, strings(&["src/main.rs", ""]));
}

#[test]
fn resolve_drops_excluded_and_repeats() {
    let inc = strings(&["a.rs", "b.rs", "a.rs", "c.rs", "b.rs"]);
    let exc = strings(&["c.rs", "zzz"]);
    assert_eq!(resolve_paths(&inc, &exc), strings(&["a.rs", "b.rs"]));
}

#[test]
fn resolve_nothing() {
    assert!(resolve_paths(&Vec::new(), &strings(&["a"])).is_empty());
}

#[test]
fn contains_by_text() {
    let v = strings(&["x", "y"]);
    assert!(contains_str(&v, &"y".to_string()));
    assert!(!contains_str(&v, &"z".to_string()));
}
