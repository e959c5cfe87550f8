use synth::crawler::{clean_text, CrawlFrontier};

#[test]
fn text_is_cleaned_and_capped() {
    assert_eq!(clean_text("  a \n\t b  c "), "a b c");
    assert_eq!(clean_text(""), "");
    let long = "x ".repeat(30000);
    let cleaned = clean_text(&long);
    assert_eq!(cleaned.chars().count(), 50000);
    assert!(cleaned.starts_with("x x"));
}

#[test]
fn batches_come_from_the_front_five_at_a_time() {
    let mut f = CrawlFrontier::new();
    f.seed((0..7).map(|i| format!("https://{}.example", i)).collect());
    let b1 = f.next_batch(0, 100).unwrap();
    assert_eq!(b1.len(), 5);
    assert_eq!(b1[0], "https://0.example");
    assert!(f.is_visited("https://4.example"));
    assert!(!f.is_visited("https://5.example"));
    let b2 = f.next_batch(5, 100).unwrap();
    assert_eq!(b2, vec!["https://5.example".to_string(), "https://6.example".to_string()]);
    assert!(f.next_batch(7, 100).is_none());
}

#[test]
fn budget_stops_the_crawl() {
    let mut f = CrawlFrontier::new();
    f.seed(vec!["https://a".to_string()]);
    assert!(f.next_batch(3, 3).is_none());
    assert!(!f.is_visited("https://a"));
    assert_eq!(f.next_batch(0, 3), Some(vec!["https://a".to_string()]));
}

#[test]
fn visited_links_are_not_queued_again() {
    let mut f = CrawlFrontier::new();
    f.seed(vec!["https://a".to_string()]);
    let _ = f.next_batch(0, 10);
    f.enqueue_links(&vec!["https://a".to_string(), "https://b".to_string()]);
    assert_eq!(f.next_batch(1, 10), Some(vec!["https://b".to_string()]));
    f.enqueue_links(&vec!["https://a".to_string(), "https://b".to_string()]);
    assert!(f.next_batch(2, 10).is_none());
}

#[test]
fn handed_out_urls_are_never_queued_by_links() {
    let mut f = CrawlFrontier::new();
    f.seed(vec!["https://a".to_string(), "https://b".to_string()]);
    let first = f.next_batch(0, 10).unwrap();
    f.enqueue_links(&first);
    assert!(f.next_batch(2, 10).is_none());
}
