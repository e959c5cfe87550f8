use std::collections::hash_map::DefaultHasher;
use std::hash::{Hash, Hasher};
use synth::hash::{cache_key, cache_key_multi};

#[test]
fn cache_keys_are_stable_lower_hex() {
    let a = cache_key("https://example.com");
    let b = cache_key("https://example.com");
    assert_eq!(a, b);
    assert!(!a.is_empty());
    assert!(a.chars().all(|c| c.is_ascii_hexdigit() && !c.is_ascii_uppercase()));
    assert_ne!(cache_key("https://example.com"), cache_key("https://example.org"));
}

#[test]
fn cache_keys_match_hashing_the_str() {
    let mut h = DefaultHasher::new();
    "abc".hash(&mut h);
    assert_eq!(cache_key("abc"), format!("{:x}", h.finish()));
}

#[test]
fn multi_keys_join_with_double_colons() {
    assert_eq!(cache_key_multi(&["a", "b"]), cache_key("a::b"));
    assert_eq!(cache_key_multi(&["only"]), cache_key("only"));
    assert_eq!(cache_key_multi(&[]), cache_key(""));
}
