//! The request, response and page types that the search pipeline passes
//! between its stages.
use vstd::prelude::*;

verus! {

/// A request to crawl from seed URLs.
#[derive(Debug, Clone)]
pub struct CrawlRequest {
    pub max_pages: usize,
    pub seed_urls: Vec<String>,
}

/// The answer to a crawl request.
#[derive(Debug, Clone)]
pub struct CrawlResponse {
    pub status: String,
    pub message: String,
}

/// The answer to a statistics request.
#[derive(Debug, Clone)]
pub struct StatsResponse {
    pub cached_pages: usize,
}

/// How hard a search works: `Quick` (the query alone) or `Deep` (expanded
/// queries, more pages).
#[derive(Debug, Clone, Copy, PartialEq, Eq, Structural)]
pub enum SearchDepth {
    Quick,
    Deep,
}

/// A search request.
#[derive(Debug, Clone)]
pub struct SearchRequest {
    pub query: String,
    pub depth: SearchDepth,
    pub max_pages: usize,
    pub include_youtube: bool,
    pub max_videos: usize,
}

/// The depth of a request that names none.
pub fn default_depth() -> (d: SearchDepth)
    ensures
        d == SearchDepth::Quick,
{
    SearchDepth::Quick
}

/// The page budget of a request that names none.
pub fn default_max_pages() -> (n: usize)
    ensures
        n == 5,
{
    5
}

/// The video budget of a request that names none.
pub fn default_max_videos() -> (n: usize)
    ensures
        n == 2,
{
    2
}

/// Where a search stands.
#[derive(Debug, Clone, Copy, PartialEq, Eq, Structural)]
pub enum SearchStatus {
    Searching,
    Analyzing,
    Synthesizing,
    Complete,
    Error,
}

/// Progress of a running search.
#[derive(Debug, Clone)]
pub struct ProgressInfo {
    pub results_found: usize,
    pub pages_scraped: usize,
    pub current_page: Option<String>,
}

/// One hit of a web search.
#[derive(Debug, Clone)]
pub struct SearchResult {
    pub url: String,
    pub title: String,
    pub snippet: String,
}

/// A fetched page with its text.
#[derive(Debug, Clone)]
pub struct ScrapedPage {
    pub url: String,
    pub title: String,
    pub content: String,
    pub word_count: usize,
}

/// What an analysed source contributes to an answer's text: where it is, its
/// title, and the facts and quotes drawn from it.
#[derive(Debug, Clone)]
pub struct SourceDigest {
    pub url: String,
    pub title: String,
    pub key_facts: Vec<String>,
    pub quotes: Vec<String>,
}

/// A request to extract one URL, optionally analysed against a query.
#[derive(Debug, Clone)]
pub struct ExtractRequest {
    pub url: String,
    pub query: Option<String>,
}

} // verus!
