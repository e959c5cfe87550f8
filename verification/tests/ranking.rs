use synth::models::SearchResult;
use synth::ranking::rank_results;

fn hit(url: &str, title: &str, snippet: &str) -> SearchResult {
    SearchResult { url: url.to_string(), title: title.to_string(), snippet: snippet.to_string() }
}

fn urls(v: &[SearchResult]) -> Vec<String> {
    v.iter().map(|r| r.url.clone()).collect()
}

#[test]
fn ranking_orders_by_relevance_then_url() {
    let hits = vec![
        hit("https://c.example", "cooking", ""),
        hit("https://b.example", "rust", ""),
        hit("https://a.example", "cooking", ""),
        hit("https://d.example", "Rust official docs", ""),
    ];
    let ranked = rank_results("rust", &hits, 10);
    assert_eq!(
        urls(&ranked),
        vec!["https://d.example", "https://b.example", "https://a.example", "https://c.example"]
    );
}

#[test]
fn ranking_keeps_the_first_hit_of_each_url() {
    let hits = vec![
        hit("https://a.example", "first", ""),
        hit("https://a.example", "rust rust", "rust"),
        hit("https://b.example", "other", ""),
    ];
    let ranked = rank_results("rust", &hits, 10);
    assert_eq!(ranked.len(), 2);
    let a = ranked.iter().find(|r| r.url == "https://a.example").unwrap();
    assert_eq!(a.title, "first");
}

#[test]
fn ranking_respects_the_budget() {
    let hits: Vec<SearchResult> =
        (0..8).map(|i| hit(&format!("https://{}.example", i), "t", "")).collect();
    assert_eq!(rank_results("q", &hits, 3).len(), 3);
    assert_eq!(rank_results("q", &hits, 0).len(), 0);
    assert!(rank_results("q", &Vec::new(), 5).is_empty());
}

#[test]
fn ranking_is_the_same_whatever_the_input_order_of_distinct_urls() {
    let a = vec![
        hit("https://x.example", "rust", ""),
        hit("https://y.example", "rust guide", ""),
        hit("https://z.example", "nothing", ""),
    ];
    let mut b = a.clone();
    b.reverse();
    assert_eq!(urls(&rank_results("rust", &a, 2)), urls(&rank_results("rust", &b, 2)));
}
