use synth::html::{
    crawled_text, keep_web_targets, main_text, page_links, page_title, scraped_text, title_from, web_main_text,
    web_text, web_title, web_title_from, WebExtractor,
};

const PAGE: &str = "<html><head><title> My Page </title>\
<meta property='og:title' content='OG Title'></head>\
<body><nav>menu</nav><article>Hello   <b>big</b>\n world</article>\
<a href='/docs'>docs</a><a href='https://other.example/x'>x</a>\
<a href='mailto:me@example.com'>mail</a><a>none</a></body></html>";

#[test]
fn main_text_comes_from_the_first_content_area() {
    assert_eq!(scraped_text(PAGE), "Hello big world");
    assert_eq!(crawled_text(PAGE), "Hello big world");
}

#[test]
fn blank_areas_fall_through_to_the_page() {
    let page = "<html><body><main>   </main><p>only text</p></body></html>";
    assert_eq!(crawled_text(page), "only text");
    assert_eq!(scraped_text(page), "only text");
}

#[test]
fn web_extractor_wants_long_areas() {
    // The article is short, so the body's text is used.
    assert_eq!(web_text(PAGE), "menu Hello big world docs x mail none");
    let long = format!("<html><body><p>intro</p><article>{}</article></body></html>", "word ".repeat(60));
    assert_eq!(web_text(&long), "word ".repeat(60).trim_end());
}

#[test]
fn titles() {
    assert_eq!(page_title(PAGE), " My Page ");
    assert_eq!(page_title("<html><body>x</body></html>"), "Untitled");
    assert_eq!(web_title(PAGE, "https://u"), "My Page");
    assert_eq!(
        web_title("<html><head><meta property='og:title' content='OG Title'></head></html>", "https://u"),
        "OG Title"
    );
    assert_eq!(web_title("<html><body></body></html>", "https://u"), "https://u");
}

#[test]
fn links_are_resolved_and_kept_when_web() {
    let links = page_links(PAGE, "https://site.example/page");
    assert_eq!(
        links,
        vec!["https://site.example/docs".to_string(), "https://other.example/x".to_string()]
    );
    // A page URL that does not parse: only absolute links survive.
    assert_eq!(page_links(PAGE, "not a url"), vec!["https://other.example/x".to_string()]);
}

#[test]
fn web_extractor_type() {
    let w = WebExtractor::new();
    assert!(w.can_handle("https://x"));
    assert!(!w.can_handle("mailto:x"));
    assert!(w.can_handle("https://example.com"));
    assert!(!w.can_handle("https://example.com/file.pdf"));
    assert_eq!(w.extract_title(PAGE, "https://u"), "My Page");
    assert_eq!(w.extract_content(PAGE), web_text(PAGE));
}

fn strs(v: &[&str]) -> Vec<String> {
    v.iter().map(|s| s.to_string()).collect()
}

#[test]
fn main_text_from_found_areas() {
    let cands = vec![None, Some(strs(&["  ", "\n"])), Some(strs(&["Hello", "  big\n", "world"]))];
    assert_eq!(main_text(&cands, &strs(&["whole", "page"])), "Hello big world");
    let none: Vec<Option<Vec<String>>> = vec![None, Some(strs(&[" "]))];
    assert_eq!(main_text(&none, &strs(&["whole", " page "])), "whole page");
}

#[test]
fn web_main_text_from_found_areas() {
    let short = vec![Some(strs(&["short text"]))];
    assert_eq!(web_main_text(&short, &Some(strs(&["body", "text"]))), "body text");
    assert_eq!(web_main_text(&short, &None), "");
    let long = "x".repeat(201);
    let cands = vec![Some(strs(&["tiny"])), Some(vec![long.clone()])];
    assert_eq!(web_main_text(&cands, &Some(strs(&["body"]))), long);
}

#[test]
fn titles_from_found_text() {
    assert_eq!(title_from(&Some(strs(&[" A ", "B"]))), " A B");
    assert_eq!(title_from(&None), "Untitled");
    assert_eq!(web_title_from(&Some(strs(&["  T  "])), &None, "https://u"), "T");
    assert_eq!(web_title_from(&Some(strs(&[""])), &Some(Some("OG".to_string())), "https://u"), "OG");
    assert_eq!(web_title_from(&None, &Some(None), "https://u"), "https://u");
}

#[test]
fn only_web_targets_are_kept() {
    let rs = vec![
        Some(("https".to_string(), "https://a/".to_string())),
        None,
        Some(("mailto".to_string(), "mailto:x@y".to_string())),
        Some(("http".to_string(), "http://b/".to_string())),
    ];
    assert_eq!(keep_web_targets(&rs), strs(&["https://a/", "http://b/"]));
}
