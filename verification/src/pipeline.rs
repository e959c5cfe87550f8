//! The decisions of the search pipeline: how a request is planned, which
//! pages go to analysis, what is answered when a stage comes up empty, and
//! how results are written out as text.
use vstd::prelude::*;
use crate::extractors::{content_type_name, kind_name, ExtractedContent};
use crate::models::{SearchDepth, SearchRequest, SearchResult, ScrapedPage, SourceDigest};
use crate::ranking::{copy_result, is_ranking, rank_results};
use crate::video::{video_as_content, videos_as_contents, YouTubeVideo};
use crate::query_expansion::{expand_query, expansions, string_views};
use crate::text::{
    chars_of, decimal, decimal_of, extend, extend_str, split_whitespace, string_of,
    trim_whitespace, trim_ws, views, words,
};

verus! {

// ---------------------------------------------------------------------------
// Planning a search
// ---------------------------------------------------------------------------

/// The most pages a search of the given depth analyses.
pub open spec fn page_cap(depth: SearchDepth) -> nat {
    match depth {
        SearchDepth::Quick => 10,
        SearchDepth::Deep => 20,
    }
}

/// The queries a search sends: the expansions of the query for a deep
/// search, the query alone for a quick one.
pub open spec fn planned_queries(query: Seq<char>, depth: SearchDepth) -> Seq<Seq<char>> {
    match depth {
        SearchDepth::Deep => expansions(query),
        SearchDepth::Quick => seq![query],
    }
}

/// How a search request is carried out.
#[derive(Debug, Clone)]
pub struct SearchPlan {
    /// The most pages to analyse.
    pub max_pages: usize,
    /// The queries to send to the search engine, in order.
    pub queries: Vec<String>,
    /// How many hits to ask for per query.
    pub per_query: usize,
}

/// The page budget of a request: what it asks for, capped by its depth.
pub fn effective_max_pages(depth: SearchDepth, requested: usize) -> (n: usize)
    ensures
        n == (if requested <= page_cap(depth) {
            requested as nat
        } else {
            page_cap(depth)
        }),
{
    let cap: usize = match depth {
        SearchDepth::Quick => 10,
        SearchDepth::Deep => 20,
    };
    if requested <= cap {
        requested
    } else {
        cap
    }
}

/// Plan a search: the page budget, the queries, and the hits per query (the
/// budget shared evenly, rounded down).
pub fn plan_search(request: &SearchRequest) -> (plan: SearchPlan)
    ensures
        plan.max_pages == (if request.max_pages <= page_cap(request.depth) {
            request.max_pages as nat
        } else {
            page_cap(request.depth)
        }),
        string_views(plan.queries@) == planned_queries(request.query@, request.depth),
        plan.queries.len() >= 1,
        plan.per_query == plan.max_pages / plan.queries.len(),
        plan.per_query * plan.queries.len() <= plan.max_pages,
{
    let max_pages = effective_max_pages(request.depth, request.max_pages);
    let queries = match request.depth {
        SearchDepth::Deep => {
            let q = expand_query(request.query.as_str());
            proof {
                crate::query_expansion::lemma_expansion_shape(request.query@);
            }
            q
        },
        SearchDepth::Quick => {
            let mut v: Vec<String> = Vec::new();
            v.push(request.query.clone());
            assert(string_views(v@) =~= seq![request.query@]);
            v
        },
    };
    let per_query = max_pages / queries.len();
    proof {
        lemma_shares_within_budget(max_pages as nat, queries.len() as nat);
    }
    SearchPlan { max_pages, queries, per_query }
}

/// Equal shares of a budget, rounded down, add up to no more than the budget.
/// A search reads at most 10 pages when quick and 20 when deep, and as many
/// as asked for within that; a quick search runs the query alone, a deep
/// one starts with the query itself.
pub proof fn lemma_search_budget(query: Seq<char>, depth: SearchDepth, requested: nat)
    ensures
        ({
            let cap: nat = match depth {
                SearchDepth::Quick => 10,
                SearchDepth::Deep => 20,
            };
            let n = if requested <= page_cap(depth) {
                requested
            } else {
                page_cap(depth)
            };
            &&& n <= cap
            &&& requested <= cap ==> n == requested
            &&& requested > cap ==> n == cap
            &&& depth == SearchDepth::Quick ==> planned_queries(query, depth) == seq![query]
            &&& planned_queries(query, depth)[0] == query
        }),
{
    crate::query_expansion::lemma_expansion_shape(query);
}

proof fn lemma_shares_within_budget(budget: nat, n: nat)
    requires
        n >= 1,
    ensures
        (budget / n) * n <= budget,
{
    let q = budget / n;
    vstd::arithmetic::div_mod::lemma_fundamental_div_mod(budget as int, n as int);
    vstd::arithmetic::div_mod::lemma_mod_pos_bound(budget as int, n as int);
    vstd::arithmetic::mul::lemma_mul_is_commutative(q as int, n as int);
}

// ---------------------------------------------------------------------------
// Pages for analysis
// ---------------------------------------------------------------------------

/// The page that extracted content becomes for analysis.
pub open spec fn page_matches(p: ScrapedPage, c: ExtractedContent) -> bool {
    &&& p.url@ == c.url@
    &&& p.title@ == c.title@
    &&& p.content@ == c.content@
    &&& p.word_count == words(c.content@).len()
}

/// Turn extracted content into pages for analysis, counting their words.
pub fn pages_from_contents(contents: &Vec<ExtractedContent>) -> (pages: Vec<ScrapedPage>)
    ensures
        pages.len() == contents.len(),
        forall|i: int| 0 <= i < pages.len() ==> page_matches(#[trigger] pages@[i], contents@[i]),
{
    let mut pages: Vec<ScrapedPage> = Vec::new();
    for i in 0..contents.len()
        invariant
            pages.len() == i,
            forall|j: int| 0 <= j < i ==> page_matches(#[trigger] pages@[j], contents@[j]),
    {
        let c = &contents[i];
        let ws = split_whitespace(&chars_of(c.content.as_str()));
        assert(views(ws@).len() == ws@.len());
        pages.push(
            ScrapedPage {
                url: c.url.clone(),
                title: c.title.clone(),
                content: c.content.clone(),
                word_count: ws.len(),
            },
        );
    }
    pages
}

/// The page that one piece of extracted content becomes for analysis.
pub fn page_of(c: &ExtractedContent) -> (p: ScrapedPage)
    ensures
        page_matches(p, *c),
{
    let ws = split_whitespace(&chars_of(c.content.as_str()));
    assert(views(ws@).len() == ws@.len());
    ScrapedPage {
        url: c.url.clone(),
        title: c.title.clone(),
        content: c.content.clone(),
        word_count: ws.len(),
    }
}

/// The hits of all searches, batch after batch.
pub open spec fn all_hits(batches: Seq<Vec<SearchResult>>) -> Seq<SearchResult>
    decreases batches.len(),
{
    if batches.len() == 0 {
        Seq::empty()
    } else {
        all_hits(batches.drop_last()) + batches.last()@
    }
}

/// Rank the hits of all searches of a request; a request whose ranking is
/// empty comes up short with no results.
pub fn rank_batches(query: &str, batches: &Vec<Vec<SearchResult>>, max_pages: usize) -> (r: Result<
    Vec<SearchResult>,
    Shortfall,
>)
    ensures
        match r {
            Ok(ranked) => ranked.len() > 0 && is_ranking(
                query@,
                all_hits(batches@),
                max_pages as int,
                ranked@,
            ),
            Err(s) => s == Shortfall::NoResults && is_ranking(
                query@,
                all_hits(batches@),
                max_pages as int,
                Seq::empty(),
            ),
        },
{
    let mut all: Vec<SearchResult> = Vec::new();
    for i in 0..batches.len()
        invariant
            all@ == all_hits(batches@.take(i as int)),
    {
        proof {
            assert(batches@.take(i + 1).drop_last() =~= batches@.take(i as int));
            assert(batches@.take(i + 1).last() == batches@[i as int]);
        }
        let b = &batches[i];
        let ghost start = all@;
        for j in 0..b.len()
            invariant
                all@ == start + b@.take(j as int),
        {
            all.push(copy_result(&b[j]));
            assert(all@ =~= start + b@.take(j + 1));
        }
        assert(b@.take(b.len() as int) =~= b@);
    }
    assert(batches@.take(batches.len() as int) =~= batches@);
    let ranked = rank_results(query, &all, max_pages);
    if ranked.len() == 0 {
        assert(ranked@ =~= Seq::<SearchResult>::empty());
        Err(Shortfall::NoResults)
    } else {
        Ok(ranked)
    }
}

/// The pages for analysis of what was extracted, followed by the
/// transcribed videos; nothing at all comes up short.
pub fn gather_pages(extracted: &Vec<ExtractedContent>, videos: &Vec<YouTubeVideo>) -> (r: Result<
    Vec<ScrapedPage>,
    Shortfall,
>)
    ensures
        match r {
            Ok(pages) => {
                &&& extracted.len() + videos.len() > 0
                &&& pages.len() == extracted.len() + videos.len()
                &&& forall|i: int|
                    0 <= i < extracted.len() ==> page_matches(#[trigger] pages@[i], extracted@[i])
                &&& forall|j: int|
                    0 <= j < videos.len() ==> {
                        let p = #[trigger] pages@[extracted.len() + j];
                        let v = videos@[j];
                        &&& p.url@ == v.url@
                        &&& p.title@ == v.title@
                        &&& p.content@ == v.transcript@
                        &&& p.word_count == words(v.transcript@).len()
                    }
            },
            Err(s) => s == Shortfall::NothingExtracted && extracted.len() + videos.len() == 0,
        },
{
    if extracted.len() == 0 && videos.len() == 0 {
        return Err(Shortfall::NothingExtracted);
    }
    let mut pages = pages_from_contents(extracted);
    let vc = videos_as_contents(videos);
    for j in 0..vc.len()
        invariant
            vc.len() == videos.len(),
            forall|k: int| 0 <= k < vc.len() ==> video_as_content(videos@[k], #[trigger] vc@[k]),
            pages.len() == extracted.len() + j,
            forall|i: int|
                0 <= i < extracted.len() ==> page_matches(#[trigger] pages@[i], extracted@[i]),
            forall|k: int|
                0 <= k < j ==> page_matches(#[trigger] pages@[extracted.len() + k], vc@[k]),
    {
        let p = page_of(&vc[j]);
        pages.push(p);
        assert(pages@[extracted.len() + j] == p);
    }
    proof {
        assert forall|k: int| 0 <= k < videos.len() implies {
            let p = #[trigger] pages@[extracted.len() + k];
            let v = videos@[k];
            &&& p.url@ == v.url@
            &&& p.title@ == v.title@
            &&& p.content@ == v.transcript@
            &&& p.word_count == words(v.transcript@).len()
        } by {
            assert(page_matches(pages@[extracted.len() + k], vc@[k]));
            assert(video_as_content(videos@[k], vc@[k]));
        }
    }
    Ok(pages)
}

/// What a search answers after analysis: it comes up short when no page
/// could be analysed.
pub fn analysis_shortfall(analysed: usize) -> (s: Option<Shortfall>)
    ensures
        s == (if analysed == 0 {
            Some(Shortfall::NothingAnalyzed)
        } else {
            None
        }),
{
    if analysed == 0 {
        Some(Shortfall::NothingAnalyzed)
    } else {
        None
    }
}

/// The number of words in a text.
pub fn word_count(text: &str) -> (n: usize)
    ensures
        n == words(text@).len(),
{
    let ws = split_whitespace(&chars_of(text));
    assert(views(ws@).len() == ws@.len());
    ws.len()
}

/// The stage of a search that came up empty.
#[derive(Debug, Clone, Copy, PartialEq, Eq, Structural)]
pub enum Shortfall {
    /// The search engine found nothing.
    NoResults,
    /// No page could be extracted.
    NothingExtracted,
    /// No page could be analysed.
    NothingAnalyzed,
}

/// What a search answers when a stage comes up empty.
pub open spec fn shortfall_text(s: Shortfall) -> Seq<char> {
    match s {
        Shortfall::NoResults => "No results found."@,
        Shortfall::NothingExtracted => "Could not extract any content."@,
        Shortfall::NothingAnalyzed => "Could not analyze any pages."@,
    }
}

/// The answer of a search that came up empty at a stage.
pub fn shortfall_message(s: Shortfall) -> (m: String)
    ensures
        m@ == shortfall_text(s),
{
    let lit = match s {
        Shortfall::NoResults => "No results found.",
        Shortfall::NothingExtracted => "Could not extract any content.",
        Shortfall::NothingAnalyzed => "Could not analyze any pages.",
    };
    string_of(&chars_of(lit))
}

// ---------------------------------------------------------------------------
// Results as text
// ---------------------------------------------------------------------------

/// Each item on a line of its own, after `prefix`.
pub open spec fn prefixed_lines(items: Seq<Seq<char>>, prefix: Seq<char>) -> Seq<char>
    decreases items.len(),
{
    if items.len() == 0 {
        Seq::empty()
    } else {
        prefixed_lines(items.drop_last(), prefix) + prefix + items.last() + "\n"@
    }
}

/// The text of the `i`-th (from zero) source of a search answer.
pub open spec fn source_text(i: nat, s: SourceDigest) -> Seq<char> {
    let facts = string_views(s.key_facts@);
    decimal(i + 1) + ". **"@ + s.title@ + "**\n"@ + "   URL: "@ + s.url@ + "\n"@ + (if facts.len()
        > 0 {
        "   Key facts:\n"@ + prefixed_lines(facts, "   - "@)
    } else {
        Seq::empty()
    }) + "\n"@
}

/// The text of all sources of a search answer, numbered from one.
pub open spec fn sources_text(sources: Seq<SourceDigest>) -> Seq<char>
    decreases sources.len(),
{
    if sources.len() == 0 {
        Seq::empty()
    } else {
        sources_text(sources.drop_last()) + source_text(
            (sources.len() - 1) as nat,
            sources.last(),
        )
    }
}

/// A search answer as text: the synthesis, then the sources.
pub open spec fn search_text(synthesis: Option<Seq<char>>, sources: Option<Seq<SourceDigest>>) -> Seq<
    char,
> {
    let a = match synthesis {
        Some(s) => s + "\n\n"@,
        None => Seq::empty(),
    };
    let b = match sources {
        Some(v) => if v.len() > 0 {
            "## Sources\n\n"@ + sources_text(v)
        } else {
            Seq::empty()
        },
        None => Seq::empty(),
    };
    trim_ws(a + b)
}

/// Each item on a line of its own, after `prefix`.
fn write_prefixed_lines(out: &mut Vec<char>, items: &Vec<String>, prefix: &str)
    ensures
        final(out)@ == old(out)@ + prefixed_lines(string_views(items@), prefix@),
{
    let ghost start = out@;
    let ghost all = string_views(items@);
    assert(all.take(0) =~= Seq::<Seq<char>>::empty());
    for i in 0..items.len()
        invariant
            all == string_views(items@),
            out@ == start + prefixed_lines(all.take(i as int), prefix@),
    {
        proof {
            assert(all.take(i + 1).drop_last() =~= all.take(i as int));
            assert(all.take(i + 1).last() == items@[i as int]@);
        }
        extend_str(out, prefix);
        extend_str(out, items[i].as_str());
        extend_str(out, "\n");
        assert(out@ =~= start + prefixed_lines(all.take(i + 1), prefix@));
    }
    assert(all.take(items.len() as int) =~= all);
}

/// Write the text of the `i`-th (from zero) source of a search answer.
fn write_source(out: &mut Vec<char>, i: u64, src: &SourceDigest)
    requires
        i < u64::MAX,
    ensures
        final(out)@ == old(out)@ + source_text(i as nat, *src),
{
    let ghost before = out@;
    extend(out, &decimal_of(i + 1));
    extend_str(out, ". **");
    extend_str(out, src.title.as_str());
    extend_str(out, "**\n");
    extend_str(out, "   URL: ");
    extend_str(out, src.url.as_str());
    extend_str(out, "\n");
    if src.key_facts.len() > 0 {
        extend_str(out, "   Key facts:\n");
        write_prefixed_lines(out, &src.key_facts, "   - ");
    }
    extend_str(out, "\n");
    proof {
        assert(string_views(src.key_facts@).len() == src.key_facts@.len());
        assert(out@ =~= before + source_text(i as nat, *src));
    }
}

/// A search answer as text: the synthesis, then the numbered sources with
/// their key facts; surrounding white space trimmed.
pub fn format_search_text(synthesis: &Option<String>, sources: &Option<Vec<SourceDigest>>) -> (text:
    String)
    ensures
        text@ == search_text(
            match synthesis {
                Some(s) => Some(s@),
                None => None,
            },
            match sources {
                Some(v) => Some(v@),
                None => None,
            },
        ),
{
    let ghost sa: Seq<char> = match synthesis {
        Some(s) => s@ + "\n\n"@,
        None => Seq::empty(),
    };
    let ghost sb: Seq<char> = match sources {
        Some(v) => if v.len() > 0 {
            "## Sources\n\n"@ + sources_text(v@)
        } else {
            Seq::empty()
        },
        None => Seq::empty(),
    };
    let mut out: Vec<char> = Vec::new();
    if let Some(s) = synthesis {
        extend_str(&mut out, s.as_str());
        extend_str(&mut out, "\n\n");
    }
    assert(out@ =~= sa);
    if let Some(v) = sources {
        if v.len() > 0 {
            extend_str(&mut out, "## Sources\n\n");
            let ghost b = out@;
            assert(v@.take(0) =~= Seq::<SourceDigest>::empty());
            for i in 0..v.len()
                invariant
                    out@ == b + sources_text(v@.take(i as int)),
            {
                proof {
                    assert(v@.take(i + 1).drop_last() =~= v@.take(i as int));
                    assert(v@.take(i + 1).last() == v@[i as int]);
                }
                write_source(&mut out, i as u64, &v[i]);
                assert(out@ =~= b + sources_text(v@.take(i + 1)));
            }
            assert(v@.take(v.len() as int) =~= v@);
        }
    }
    assert(out@ =~= sa + sb);
    let t = trim_whitespace(&out);
    string_of(&t)
}

/// Extracted content and its analysis as text: title, URL, type, content,
/// then the key facts and notable quotes; surrounding white space trimmed.
pub open spec fn extract_text(c: ExtractedContent, analysis: Option<SourceDigest>) -> Seq<char> {
    let head = "# "@ + c.title@ + "\n\n"@ + "**URL:** "@ + c.url@ + "\n"@ + "**Type:** "@ + kind_name(
        c.content_type,
    ) + "\n\n"@ + c.content@;
    let tail = match analysis {
        Some(s) => {
            let facts = string_views(s.key_facts@);
            let quotes = string_views(s.quotes@);
            "\n\n## Analysis\n\n"@ + (if facts.len() > 0 {
                "**Key facts:**\n"@ + prefixed_lines(facts, "- "@)
            } else {
                Seq::empty()
            }) + (if quotes.len() > 0 {
                "\n**Notable quotes:**\n"@ + prefixed_lines(quotes, "> "@)
            } else {
                Seq::empty()
            })
        },
        None => Seq::empty(),
    };
    trim_ws(head + tail)
}

/// Extracted content and its analysis as text.
pub fn format_extract_text(content: &ExtractedContent, analysis: &Option<SourceDigest>) -> (text:
    String)
    ensures
        text@ == extract_text(*content, *analysis),
{
    let mut out = chars_of("# ");
    extend_str(&mut out, content.title.as_str());
    extend_str(&mut out, "\n\n");
    extend_str(&mut out, "**URL:** ");
    extend_str(&mut out, content.url.as_str());
    extend_str(&mut out, "\n");
    extend_str(&mut out, "**Type:** ");
    let name = content_type_name(content.content_type);
    extend_str(&mut out, name.as_str());
    extend_str(&mut out, "\n\n");
    extend_str(&mut out, content.content.as_str());
    let ghost head = out@;
    if let Some(s) = analysis {
        extend_str(&mut out, "\n\n## Analysis\n\n");
        let ghost m1 = out@;
        if s.key_facts.len() > 0 {
            extend_str(&mut out, "**Key facts:**\n");
            write_prefixed_lines(&mut out, &s.key_facts, "- ");
        }
        let ghost m2 = out@;
        if s.quotes.len() > 0 {
            extend_str(&mut out, "\n**Notable quotes:**\n");
            write_prefixed_lines(&mut out, &s.quotes, "> ");
        }
        proof {
            assert(string_views(s.key_facts@).len() == s.key_facts@.len());
            assert(string_views(s.quotes@).len() == s.quotes@.len());
        }
    }
    proof {
        assert(out@ =~= (match *analysis {
            Some(s) => {
                let facts = string_views(s.key_facts@);
                let quotes = string_views(s.quotes@);
                head + ("\n\n## Analysis\n\n"@ + (if facts.len() > 0 {
                    "**Key facts:**\n"@ + prefixed_lines(facts, "- "@)
                } else {
                    Seq::empty()
                }) + (if quotes.len() > 0 {
                    "\n**Notable quotes:**\n"@ + prefixed_lines(quotes, "> "@)
                } else {
                    Seq::empty()
                }))
            },
            None => head + Seq::<char>::empty(),
        }));
    }
    string_of(&trim_whitespace(&out))
}

} // verus!
