use synth::extractors::{ContentType, ExtractedContent};
use synth::models::{SearchDepth, SearchRequest, SearchResult, SourceDigest};
use synth::pipeline::{
    analysis_shortfall, effective_max_pages, format_extract_text, format_search_text,
    gather_pages, page_of, pages_from_contents, plan_search, rank_batches, shortfall_message,
    word_count, Shortfall,
};
use synth::video::YouTubeVideo;

fn request(query: &str, depth: SearchDepth, max_pages: usize) -> SearchRequest {
    SearchRequest {
        query: query.to_string(),
        depth,
        max_pages,
        include_youtube: false,
        max_videos: 2,
    }
}

fn content(url: &str, text: &str) -> ExtractedContent {
    ExtractedContent {
        url: url.to_string(),
        title: format!("title of {}", url),
        content: text.to_string(),
        content_type: ContentType::Web,
        metadata: None,
    }
}

#[test]
fn page_budget_is_capped_by_depth() {
    assert_eq!(effective_max_pages(SearchDepth::Quick, 5), 5);
    assert_eq!(effective_max_pages(SearchDepth::Quick, 50), 10);
    assert_eq!(effective_max_pages(SearchDepth::Deep, 50), 20);
    assert_eq!(effective_max_pages(SearchDepth::Deep, 0), 0);
}

#[test]
fn quick_plan_sends_the_query_alone() {
    let plan = plan_search(&request("rust", SearchDepth::Quick, 5));
    assert_eq!(plan.queries, vec!["rust".to_string()]);
    assert_eq!(plan.max_pages, 5);
    assert_eq!(plan.per_query, 5);
}

#[test]
fn deep_plan_shares_the_budget_among_expansions() {
    let plan = plan_search(&request("how does rust async work", SearchDepth::Deep, 50));
    assert_eq!(plan.queries.len(), 5);
    assert_eq!(plan.max_pages, 20);
    assert_eq!(plan.per_query, 4);
    assert!(plan.per_query * plan.queries.len() <= plan.max_pages);
}

#[test]
fn shortfall_messages() {
    assert_eq!(shortfall_message(Shortfall::NoResults), "No results found.");
    assert_eq!(shortfall_message(Shortfall::NothingExtracted), "Could not extract any content.");
    assert_eq!(shortfall_message(Shortfall::NothingAnalyzed), "Could not analyze any pages.");
    assert_eq!(analysis_shortfall(0), Some(Shortfall::NothingAnalyzed));
    assert_eq!(analysis_shortfall(3), None);
}

#[test]
fn words_are_counted() {
    assert_eq!(word_count("  one two\tthree\n"), 3);
    assert_eq!(word_count(""), 0);
    let page = page_of(&content("https://a", "a b c d"));
    assert_eq!(page.word_count, 4);
    assert_eq!(page.url, "https://a");
    let pages = pages_from_contents(&vec![content("https://a", "x"), content("https://b", "y z")]);
    assert_eq!(pages.iter().map(|p| p.word_count).collect::<Vec<_>>(), vec![1, 2]);
}

#[test]
fn ranking_batches_merges_searches() {
    let hit = |u: &str| SearchResult { url: u.to_string(), title: "rust".to_string(), snippet: String::new() };
    let batches = vec![vec![hit("https://b"), hit("https://a")], vec![hit("https://a"), hit("https://c")]];
    let ranked = rank_batches("rust", &batches, 10).unwrap();
    assert_eq!(
        ranked.iter().map(|r| r.url.as_str()).collect::<Vec<_>>(),
        vec!["https://a", "https://b", "https://c"]
    );
    assert_eq!(rank_batches("rust", &vec![], 10).unwrap_err(), Shortfall::NoResults);
    assert_eq!(rank_batches("rust", &batches, 0).unwrap_err(), Shortfall::NoResults);
}

#[test]
fn gathering_pages_appends_videos() {
    let videos = vec![YouTubeVideo {
        url: "https://www.youtube.com/watch?v=abcdefghijk".to_string(),
        title: "a video".to_string(),
        transcript: "spoken words here".to_string(),
    }];
    let pages = gather_pages(&vec![content("https://a", "x y")], &videos).unwrap();
    assert_eq!(pages.len(), 2);
    assert_eq!(pages[1].title, "a video");
    assert_eq!(pages[1].content, "spoken words here");
    assert_eq!(pages[1].word_count, 3);
    assert_eq!(gather_pages(&vec![], &vec![]).unwrap_err(), Shortfall::NothingExtracted);
}

#[test]
fn search_text_lists_sources_with_their_facts() {
    let sources = vec![
        SourceDigest {
            url: "https://a".to_string(),
            title: "A".to_string(),
            key_facts: vec!["f1".to_string(), "f2".to_string()],
            quotes: vec![],
        },
        SourceDigest {
            url: "https://b".to_string(),
            title: "B".to_string(),
            key_facts: vec![],
            quotes: vec!["q".to_string()],
        },
    ];
    let text = format_search_text(&Some("Answer.".to_string()), &Some(sources));
    assert_eq!(
        text,
        "Answer.\n\n## Sources\n\n1. **A**\n   URL: https://a\n   Key facts:\n   - f1\n   - f2\n\n2. **B**\n   URL: https://b"
    );
    assert_eq!(format_search_text(&Some("  x ".to_string()), &Some(vec![])), "x");
    assert_eq!(format_search_text(&None, &None), "");
}

#[test]
fn extract_text_shows_type_and_analysis() {
    let c = ExtractedContent {
        url: "https://a/doc.pdf".to_string(),
        title: "doc".to_string(),
        content: "body".to_string(),
        content_type: ContentType::PDF,
        metadata: None,
    };
    assert_eq!(format_extract_text(&c, &None), "# doc\n\n**URL:** https://a/doc.pdf\n**Type:** PDF\n\nbody");
    let analysis = SourceDigest {
        url: c.url.clone(),
        title: c.title.clone(),
        key_facts: vec!["fact".to_string()],
        quotes: vec!["said".to_string()],
    };
    assert_eq!(
        format_extract_text(&c, &Some(analysis)),
        "# doc\n\n**URL:** https://a/doc.pdf\n**Type:** PDF\n\nbody\n\n## Analysis\n\n**Key facts:**\n- fact\n\n**Notable quotes:**\n> said"
    );
}
