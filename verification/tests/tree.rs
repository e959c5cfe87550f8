use synth::tree::{join_lines, repo_content, sort_entries, tree_depth, tree_level};

fn e(name: &str, dir: bool) -> (String, bool) {
    (name.to_string(), dir)
}

#[test]
fn entries_are_sorted_by_name() {
    let sorted = sort_entries(&vec![e("src", true), e("Cargo.toml", false), e("README.md", false), e("b", false)]);
    let names: Vec<&str> = sorted.iter().map(|x| x.0.as_str()).collect();
    assert_eq!(names, vec!["Cargo.toml", "README.md", "b", "src"]);
}

#[test]
fn a_level_draws_connectors_and_skips_hidden() {
    let steps = tree_level("", 0, 2, &vec![e("src", true), e(".git", true), e("main.rs", false), e("target", true)]);
    let lines: Vec<&str> = steps.iter().map(|s| s.line.as_str()).collect();
    // Sorted: .git, main.rs, src, target; the last one (target) is skipped,
    // so no line gets the last connector.
    assert_eq!(lines, vec!["├── main.rs", "├── src"]);
    assert_eq!(steps[1].descend, Some("│   ".to_string()));
    assert_eq!(steps[0].descend, None);
    let steps = tree_level("│   ", 1, 2, &vec![e("a.rs", false), e("mod", true)]);
    let lines: Vec<&str> = steps.iter().map(|s| s.line.as_str()).collect();
    assert_eq!(lines, vec!["│   ├── a.rs", "│   └── mod"]);
    assert_eq!(steps[1].descend, Some("│       ".to_string()));
    assert!(tree_level("", 3, 2, &vec![e("x", false)]).is_empty());
}

#[test]
fn lines_and_depth() {
    assert_eq!(join_lines(&vec!["a".to_string(), "b".to_string()]), "a\nb");
    assert_eq!(join_lines(&vec![]), "");
    assert_eq!(tree_depth(true), 4);
    assert_eq!(tree_depth(false), 2);
}

#[test]
fn repository_text_fences_files_by_extension() {
    let files = vec![
        ("src/main.rs".to_string(), Some("fn main() {}".to_string())),
        ("missing.txt".to_string(), None),
        ("Makefile".to_string(), Some("all:".to_string())),
        (".env".to_string(), Some("X=1".to_string())),
    ];
    let text = repo_content("├── src", &files);
    assert_eq!(
        text,
        "## Repository Structure\n\n```\n├── src\n```\n\n## Files\n\n### src/main.rs\n\n```rs\nfn main() {}\n```\n\n### Makefile\n\n```\nall:\n```\n\n### .env\n\n```\nX=1\n```\n\n"
    );
}

#[test]
fn sorting_does_not_depend_on_the_order_read() {
    let a = vec![e("z", false), e("a", true), e("M", false), e("m", false)];
    let mut b = a.clone();
    b.reverse();
    assert_eq!(sort_entries(&a), sort_entries(&b));
    let names: Vec<String> = sort_entries(&a).into_iter().map(|x| x.0).collect();
    assert_eq!(names, vec!["M".to_string(), "a".to_string(), "m".to_string(), "z".to_string()]);
}

#[test]
fn repeated_names_are_kept_files_first() {
    let sorted = sort_entries(&vec![e("x", true), e("b", false), e("x", false), e("b", false)]);
    assert_eq!(sorted, vec![e("b", false), e("b", false), e("x", false), e("x", true)]);
    let steps = tree_level("", 0, 1, &vec![e("x", true), e("x", false)]);
    let lines: Vec<String> = steps.iter().map(|s| s.line.clone()).collect();
    assert_eq!(lines, vec!["├── x".to_string(), "└── x".to_string()]);
    assert!(steps[0].descend.is_none());
    assert_eq!(steps[1].descend.as_deref(), Some("    "));
}
