use synth::search::{
    check_for_bot_wall, keep_hits, lite_page_results, lite_search_url, parse_lite_results,
    pick_user_agent, searxng_endpoint, searxng_parse_error, RowLink, TableRow,
};
use synth::models::SearchResult;

fn row(href: Option<&str>, title: &str, text: &str) -> TableRow {
    TableRow {
        texts: vec![text.to_string()],
        links: vec![RowLink { href: href.map(|h| h.to_string()), texts: vec![title.to_string()] }],
    }
}

fn header() -> TableRow {
    TableRow { texts: vec![], links: vec![] }
}

#[test]
fn lite_rows_after_the_header_make_results() {
    let rows = vec![
        header(),
        row(Some("https://skip.example"), "Skipped header link", "h"),
        header(),
        header(),
        row(Some("https://a.example"), "  Alpha site ", " alpha snippet "),
        row(Some("https://duckduckgo.com/y"), "Internal link", "i"),
        row(Some("/relative"), "Relative link", "r"),
        row(Some("https://b.example"), "Abc", "too short title"),
        row(None, "No href here", "n"),
        row(Some("http://c.example"), "Gamma site", "gamma"),
    ];
    let results = parse_lite_results(&rows, 5);
    assert_eq!(
        results.iter().map(|r| (r.url.as_str(), r.title.as_str(), r.snippet.as_str())).collect::<Vec<_>>(),
        vec![
            ("https://a.example", "Alpha site", "alpha snippet"),
            ("http://c.example", "Gamma site", "gamma"),
        ]
    );
}

#[test]
fn lite_results_stop_at_the_limit_and_window() {
    let mut rows = vec![header(), header(), header(), header()];
    for i in 0..10 {
        rows.push(row(Some(&format!("https://{}.example", i)), "Some title", "s"));
    }
    assert_eq!(parse_lite_results(&rows, 2).len(), 2);
    assert_eq!(parse_lite_results(&rows, 0).len(), 0);
    // The window is three rows per result wanted.
    let mut sparse = vec![header(), header(), header(), header()];
    sparse.extend((0..6).map(|_| header()));
    sparse.push(row(Some("https://late.example"), "Late title", "l"));
    assert!(parse_lite_results(&sparse, 2).is_empty());
    assert_eq!(parse_lite_results(&sparse, 4).len(), 1);
}

#[test]
fn lite_html_pages_are_read() {
    let html = "<html><body><table>\
<tr><td>h1</td></tr><tr><td>h2</td></tr><tr><td>h3</td></tr><tr><td>h4</td></tr>\
<tr><td><a href='https://rust-lang.org'>Rust Language</a> the language</td></tr>\
</table></body></html>";
    let results = lite_page_results(html, 3);
    assert_eq!(results.len(), 1);
    assert_eq!(results[0].url, "https://rust-lang.org");
    assert_eq!(results[0].title, "Rust Language");
    assert_eq!(results[0].snippet, "Rust Language  the language");
}

#[test]
fn bot_wall_is_detected() {
    assert!(check_for_bot_wall("<html>fine</html>").is_ok());
    assert_eq!(
        check_for_bot_wall("please solve the captcha"),
        Err("DuckDuckGo bot detection triggered - try again later or use Brave API".to_string())
    );
}

#[test]
fn queries_are_percent_encoded() {
    assert_eq!(lite_search_url("rust async"), "https://lite.duckduckgo.com/lite/?q=rust%20async");
    assert_eq!(lite_search_url("a-b_c.d~e"), "https://lite.duckduckgo.com/lite/?q=a-b_c.d~e");
    assert_eq!(lite_search_url("é&?"), "https://lite.duckduckgo.com/lite/?q=%C3%A9%26%3F");
}

#[test]
fn user_agents_come_from_the_list() {
    for _ in 0..20 {
        let ua = pick_user_agent();
        assert!(ua.starts_with("Mozilla/5.0 ("));
    }
}

#[test]
fn searxng_settings() {
    assert_eq!(searxng_endpoint(None), "http://localhost:8888/search");
    assert_eq!(searxng_endpoint(Some("https://s.example")), "https://s.example/search");
    let hits: Vec<SearchResult> = (0..4)
        .map(|i| SearchResult { url: format!("u{}", i), title: String::new(), snippet: String::new() })
        .collect();
    assert_eq!(keep_hits(hits.clone(), 2).len(), 2);
    assert_eq!(keep_hits(hits, 10).len(), 4);
    let body = "x".repeat(600);
    let m = searxng_parse_error(&body);
    assert_eq!(m, format!("Failed to parse SearXNG response. First 500 chars: {}", "x".repeat(500)));
}

#[test]
fn lite_results_never_exceed_the_limit() {
    let mut rows = vec![header(), header(), header(), header()];
    for i in 0..20 {
        rows.push(row(Some(&format!("https://{}.example", i)), "Some title", "s"));
    }
    for max in 0..8 {
        assert!(parse_lite_results(&rows, max).len() <= max);
    }
}

#[test]
fn only_the_first_link_of_a_row_counts() {
    let mut two = row(Some("/relative"), "Relative first", "t");
    two.links.push(RowLink { href: Some("https://later.example".to_string()), texts: vec!["Later link".to_string()] });
    let mut good = row(Some("https://first.example"), "First link", "f");
    good.links.push(RowLink { href: Some("https://second.example".to_string()), texts: vec!["Second".to_string()] });
    let rows = vec![header(), header(), header(), header(), two, good];
    let results = parse_lite_results(&rows, 5);
    assert_eq!(results.len(), 1);
    assert_eq!(results[0].url, "https://first.example");
}
