use synth::cache::{expired_files, is_expired, join_path, CacheManager};

#[test]
fn items_live_under_their_category() {
    let c = CacheManager::new("/var/cache/synth");
    assert_eq!(c.cache_path("pages", "abc"), "/var/cache/synth/pages/abc.json");
    assert_eq!(c.category_dir("llm"), "/var/cache/synth/llm");
    assert_eq!(c.root(), "/var/cache/synth");
    let d = CacheManager::new("cache/");
    assert_eq!(d.cache_path("pages", "k"), "cache/pages/k.json");
}

#[test]
fn joining_paths_like_pathbuf() {
    assert_eq!(join_path("a", "b"), "a/b");
    assert_eq!(join_path("a/", "b"), "a/b");
    assert_eq!(join_path("", "b"), "b");
    assert_eq!(join_path("a", "/b"), "/b");
    for (base, part) in [("a", "b"), ("a/", "b"), ("", "b"), ("a", "/b"), ("/x/y", "z.json")] {
        let expected = std::path::PathBuf::from(base).join(part);
        assert_eq!(join_path(base, part), expected.to_str().unwrap());
    }
}

#[test]
fn expiry_follows_the_time_to_live() {
    assert!(!is_expired(1000, 1000, 0));
    assert!(!is_expired(3600, 0, 1));
    assert!(is_expired(3601, 0, 1));
    assert!(!is_expired(86400, 0, 24));
    assert!(is_expired(86401, 0, 24));
    assert!(!is_expired(u64::MAX, 0, u64::MAX));
    // A stamp from a clock gone backwards is fresh.
    assert!(!is_expired(100, 200, 0));
    assert_eq!(expired_files(100, 0, &vec![("later.json".to_string(), 200), ("old.json".to_string(), 0)]), vec!["old.json".to_string()]);
}

#[test]
fn expired_files_are_picked_in_order() {
    let files = vec![
        ("a.json".to_string(), 0u64),
        ("b.json".to_string(), 7000),
        ("c.json".to_string(), 10),
    ];
    assert_eq!(expired_files(7300, 1, &files), vec!["a.json".to_string(), "c.json".to_string()]);
    assert!(expired_files(7300, 100, &files).is_empty());
}

#[test]
fn an_item_just_written_is_fresh_and_stays_expired_once_expired() {
    for ttl in [0u64, 1, 24, 168] {
        assert!(!is_expired(1_000_000, 1_000_000, ttl));
    }
    assert!(is_expired(10_000, 0, 2));
    assert!(is_expired(20_000, 0, 2));
}

#[test]
fn items_of_different_keys_have_different_files() {
    let dir = tempfile::TempDir::new().unwrap();
    let c = CacheManager::new(dir.path().to_str().unwrap());
    let key = synth::hash::cache_key("https://example.com");
    let path = c.cache_path("pages", &key);
    assert!(path.starts_with(&c.category_dir("pages")));
    assert!(path.ends_with(&format!("{}.json", key)));
    let other = c.cache_path("pages", &synth::hash::cache_key("https://example.org"));
    assert_ne!(other, path);
    assert_eq!(expired_files(10, 0, &vec![(path.clone(), 5)]), vec![path]);
}
