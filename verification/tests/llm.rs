use synth::llm::{analysis_lists, answer_text, lists_from_items, page_analysis_prompt, page_digest, synthesis_request};
use synth::models::{ScrapedPage, SourceDigest};

fn page() -> ScrapedPage {
    ScrapedPage {
        url: "https://a.example".to_string(),
        title: "A page".to_string(),
        content: "Some content.".to_string(),
        word_count: 2,
    }
}

#[test]
fn analysis_prompt_names_query_and_page() {
    let p = page_analysis_prompt(&page(), "what is it");
    assert!(p.starts_with("You are analyzing a web page to answer the query: \"what is it\"\n\nPage Title: A page\nURL: https://a.example\nContent: Some content.\n\nExtract the following in JSON format:\n{\n  \"key_facts\""));
    assert!(p.ends_with("Confidence should reflect how well this page answers the query."));
}

#[test]
fn analysis_answers_are_read() {
    let (facts, quotes) =
        analysis_lists(r#"{"key_facts": ["a", 1, "b"], "quotes": ["q"], "confidence": 0.5}"#).unwrap();
    assert_eq!(facts, vec!["a".to_string(), "b".to_string()]);
    assert_eq!(quotes, vec!["q".to_string()]);
    let (facts, quotes) = analysis_lists(r#"{"key_facts": "not a list"}"#).unwrap();
    assert!(facts.is_empty() && quotes.is_empty());
    assert_eq!(analysis_lists("not json").unwrap_err(), "Failed to parse LLM response as JSON");
}

#[test]
fn digests_keep_the_page_identity() {
    let d = page_digest(&page(), vec!["f".to_string()], vec![]);
    assert_eq!(d.url, "https://a.example");
    assert_eq!(d.title, "A page");
    assert_eq!(d.key_facts, vec!["f".to_string()]);
}

#[test]
fn synthesis_prompt_numbers_the_sources() {
    let sources = vec![
        SourceDigest {
            url: "https://a".to_string(),
            title: "A".to_string(),
            key_facts: vec!["f1".to_string(), "f2".to_string()],
            quotes: vec!["q1".to_string()],
        },
        SourceDigest { url: "https://b".to_string(), title: "B".to_string(), key_facts: vec![], quotes: vec![] },
    ];
    let p = synthesis_request("rust", &sources);
    let expected_sources = "Source 1: https://a\nKey facts:\nf1\n- f2\n\nQuotes:\n\"q1\"\n\n---\n\nSource 2: https://b\nKey facts:\n\n\nQuotes:\n\n";
    assert_eq!(
        p,
        format!(
            "You are synthesizing information from multiple web sources to answer the query: \"rust\"\n\nSources:\n{}\n\nProvide a comprehensive answer that:\n1. Directly answers the query\n2. Combines information from multiple sources\n3. Cites sources using [Source N] notation\n4. Identifies agreements and disagreements between sources\n5. Uses direct quotes where appropriate\n\nBe concise but thorough. Focus on accuracy and clarity.",
            expected_sources
        )
    );
}

#[test]
fn answers_and_model() {
    assert_eq!(answer_text(vec!["x".to_string(), "y".to_string()]), Ok("x".to_string()));
    assert_eq!(answer_text(vec![]), Err("Empty response from the model".to_string()));
}

#[test]
fn lists_from_read_items() {
    let facts = Some(Some(vec![Some("a".to_string()), None, Some("b".to_string())]));
    let quotes: Option<Option<Vec<Option<String>>>> = Some(None);
    let (f, q) = lists_from_items(facts, quotes).unwrap();
    assert_eq!(f, vec!["a".to_string(), "b".to_string()]);
    assert!(q.is_empty());
    assert_eq!(
        lists_from_items(None, None).unwrap_err(),
        "Failed to parse LLM response as JSON"
    );
    let (f, q) = lists_from_items(Some(None), Some(Some(vec![Some("q".to_string())]))).unwrap();
    assert!(f.is_empty());
    assert_eq!(q, vec!["q".to_string()]);
}
