use synth::query_expansion::{expand_query, extract_key_terms, score_relevance_points};

#[test]
fn test_expand_query() {
    let expanded = expand_query("how does rust async work");
    assert!(expanded.len() > 1);
    assert!(expanded.iter().any(|q| q.contains("explained")));
}

#[test]
fn test_extract_key_terms() {
    let terms = extract_key_terms("how does rust async work");
    assert!(terms.contains(&"rust".to_string()));
    assert!(terms.contains(&"async".to_string()));
    assert!(!terms.contains(&"does".to_string()));
}

#[test]
fn expansion_of_a_question_lists_statement_forms_first() {
    let expanded = expand_query("how does rust async work");
    assert_eq!(
        expanded,
        vec![
            "how does rust async work".to_string(),
            "rust async explained".to_string(),
            "rust async tutorial".to_string(),
            "understanding rust async".to_string(),
            "latest rust async".to_string(),
        ]
    );
}

#[test]
fn expansion_keeps_the_query_first_and_at_most_five() {
    for q in ["latest rust guide", "cooking pasta", "what is the new python api?", ""] {
        let expanded = expand_query(q);
        assert!(!expanded.is_empty());
        assert!(expanded.len() <= 5);
        assert_eq!(expanded[0], q);
    }
}

#[test]
fn expansion_of_a_plain_query() {
    assert_eq!(
        expand_query("cooking pasta"),
        vec![
            "cooking pasta".to_string(),
            "latest cooking pasta".to_string(),
            "cooking pasta guide".to_string(),
        ]
    );
}

#[test]
fn expansion_of_a_fresh_technical_guide_query() {
    assert_eq!(
        expand_query("latest rust guide"),
        vec![
            "latest rust guide".to_string(),
            "latest rust guide best practices".to_string(),
            "latest rust guide compared".to_string(),
        ]
    );
}

#[test]
fn key_terms_drop_stop_words_and_lower_case() {
    assert_eq!(
        extract_key_terms("What is THE Rust lifetime-rules?"),
        vec!["rust".to_string(), "lifetime-rules?".to_string()]
    );
    assert!(extract_key_terms("").is_empty());
    assert!(extract_key_terms("the a an").is_empty());
}

#[test]
fn relevance_points_count_title_and_snippet_matches() {
    // "rust" and "async" in the title: 2 x 3 points; "rust" in the snippet: 1 point;
    // whole query in the title: 10 points. In half-points: 2 * (6 + 1 + 10) = 34.
    assert_eq!(score_relevance_points("rust async", "Rust async book", "about rust"), 34);
    // Nothing matches.
    assert_eq!(score_relevance_points("rust", "cooking", "pasta"), 0);
    // An official-looking title: 1.5 points.
    assert_eq!(score_relevance_points("zig", "Official docs", ""), 3);
    // A fresh title for a query that wants fresh information: 2 points, and
    // "latest" is a key term found in the title (3 points).
    assert_eq!(score_relevance_points("latest", "The latest", ""), 2 * (3 + 10 + 2));
}

#[test]
fn stop_words_are_recognised_through_punctuation() {
    assert_eq!(extract_key_terms("why? (how) Rust!"), vec!["rust!".to_string()]);
}

#[test]
fn relevance_stays_within_its_bound() {
    let q = "latest rust guide";
    let title = "Latest Rust Guide: official docs 2026";
    let snippet = "the latest rust guide, latest rust guide";
    let points = score_relevance_points(q, title, snippet);
    // 3 key terms: 8 each, plus 20 + 10 + 4 + 3.
    assert_eq!(points, 8 * 3 + 37);
    assert!(points <= 8 * extract_key_terms(q).len() as u128 + 37);
}

#[test]
fn key_terms_of_plain_queries() {
    assert_eq!(extract_key_terms("how does rust async work"), vec!["rust", "async", "work"]);
    assert_eq!(extract_key_terms("What is Rust?"), vec!["rust?"]);
    assert_eq!(extract_key_terms("The, cat and THE dog"), vec!["cat", "dog"]);
}

#[test]
fn key_terms_of_key_terms_are_the_same() {
    for q in ["how does rust async work", "The, cat and THE dog", "What is Rust?", "  Tokio   RUNTIME  "] {
        let terms = extract_key_terms(q);
        assert_eq!(extract_key_terms(&terms.join(" ")), terms, "{}", q);
    }
}

#[test]
fn relevance_ignores_case() {
    let (q, t, s) = ("Latest Rust Guide", "The LATEST rust guide", "Official Docs for RUST");
    assert_eq!(
        score_relevance_points(q, t, s),
        score_relevance_points(&q.to_lowercase(), &t.to_lowercase(), &s.to_lowercase())
    );
}
