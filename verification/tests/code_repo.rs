use synth::code_repo::{CodeRepoExtractor, RepoEntry};

fn file(path: &str, size: u64) -> RepoEntry {
    let name = path.rsplit('/').next().unwrap().to_string();
    let ext = std::path::Path::new(path).extension().map(|e| e.to_string_lossy().to_string());
    RepoEntry { path: path.to_string(), file_name: name, extension: ext, is_file: true, size: Some(size) }
}

#[test]
fn github_urls_name_owner_and_repo() {
    let x = CodeRepoExtractor::new();
    assert_eq!(x.parse_github_url("https://github.com/rust-lang/rust"), Some(("rust-lang".to_string(), "rust".to_string())));
    assert_eq!(x.parse_github_url("https://github.com/o/r.git/"), Some(("o".to_string(), "r".to_string())));
    assert_eq!(x.parse_github_url("https://github.com/o/r/tree/main"), Some(("o".to_string(), "r".to_string())));
    assert_eq!(x.parse_github_url("https://github.com/o"), None);
    assert_eq!(
        x.parse_github_url("https://github.com/tokio-rs/tokio?deep"),
        Some(("tokio-rs".to_string(), "tokio".to_string()))
    );
    assert_eq!(x.parse_github_url("https://github.com/o/r.git#deep"), Some(("o".to_string(), "r".to_string())));
    assert_eq!(x.parse_github_url("https://github.com/o/r&deep"), Some(("o".to_string(), "r".to_string())));
    assert_eq!(x.parse_github_url("http://github.com/o/r"), None);
}

#[test]
fn extraction_plans() {
    let x = CodeRepoExtractor::new();
    let p = x.plan_extraction("https://github.com/o/r?deep").unwrap();
    assert_eq!(p.clone_url, "https://github.com/o/r.git");
    assert_eq!(p.title, "o/r");
    assert!(p.deep);
    let p = x.plan_extraction("https://github.com/o/r").unwrap();
    assert_eq!(p.clone_url, "https://github.com/o/r.git");
    assert!(!p.deep);
    assert_eq!(x.plan_extraction("https://example.com").unwrap_err(), "Invalid GitHub URL");
    assert_eq!(x.analysis_mode(true), "deep");
    assert_eq!(x.analysis_mode(false), "basic");
}

#[test]
fn important_files_and_entry_points() {
    let x = CodeRepoExtractor::new();
    assert!(x.is_important_file("README.md"));
    assert!(x.is_important_file("Cargo.toml"));
    assert!(!x.is_important_file("main.rs"));
    assert!(x.is_entry_point("main.rs"));
    assert!(x.is_entry_point("__init__.py"));
    assert!(!x.is_entry_point("util.rs"));
}

#[test]
fn files_are_selected_important_first() {
    let x = CodeRepoExtractor::new();
    let entries = vec![
        file("src/util.rs", 10),
        file("src/main.rs", 10),
        file("README.md", 10),
        file("logo.png", 10),
        file("Makefile", 10),
        file("huge.txt", 2 * 1024 * 1024),
    ];
    let picked = x.select_files(&entries, false);
    assert_eq!(picked, vec!["README.md".to_string(), "src/main.rs".to_string(), "src/util.rs".to_string()]);
}

#[test]
fn many_important_files_stay_within_the_budget() {
    let x = CodeRepoExtractor::new();
    let mut entries = Vec::new();
    for i in 0..30 {
        entries.push(file(&format!("pkg{}/README.md", i), 10));
    }
    entries.push(file("src/main.rs", 10));
    entries.push(file("src/util.rs", 10));
    let basic = x.select_files(&entries, false);
    assert_eq!(basic.len(), 20);
    assert_eq!(basic[0], "pkg0/README.md");
    assert_eq!(basic[19], "pkg19/README.md");
    let deep = x.select_files(&entries, true);
    assert_eq!(deep.len(), 32);
    assert_eq!(deep[30], "src/main.rs");
}

#[test]
fn languages_are_counted() {
    let x = CodeRepoExtractor::new();
    let exts = vec!["rs".to_string(), "rs".to_string(), "py".to_string(), "md".to_string()];
    assert_eq!(x.detect_language(&exts), "Rust");
    assert_eq!(x.detect_language(&vec!["md".to_string()]), "Unknown");
    assert_eq!(x.detect_language(&vec!["tsx".to_string(), "ts".to_string(), "js".to_string()]), "TypeScript");
}

#[test]
fn checkout_directories_are_fresh() {
    let x = CodeRepoExtractor::new();
    let a = x.checkout_dir("/tmp");
    let b = x.checkout_dir("/tmp");
    assert!(a.starts_with("/tmp/synth-repo-"));
    assert_eq!(a.len(), "/tmp/synth-repo-".len() + 36);
    assert_ne!(a, b);
}
