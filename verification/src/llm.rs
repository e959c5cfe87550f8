//! What the language model is asked and how its answers are read: the
//! prompt that analyses one page, the prompt that synthesises an answer from
//! the analysed sources, and the lists of facts and quotes in an analysis.
use vstd::prelude::*;
use crate::models::{ScrapedPage, SourceDigest};
use crate::query_expansion::string_views;
use crate::text::{chars_of, decimal, decimal_of, extend, extend_str, join, join_str, string_of, views};

verus! {

/// The most tokens an answer may have.
pub const MAX_TOKENS: u32 = 4096;

// ---------------------------------------------------------------------------
// Analysing a page
// ---------------------------------------------------------------------------

/// The prompt that asks for the facts and quotes of a page that bear on the
/// query, as JSON.
pub open spec fn analysis_prompt(query: Seq<char>, title: Seq<char>, url: Seq<char>, content: Seq<char>) -> Seq<char> {
    "You are analyzing a web page to answer the query: \""@ + query + "\"\n\nPage Title: "@ + title
        + "\nURL: "@ + url + "\nContent: "@ + content
        + "\n\nExtract the following in JSON format:\n{\n  \"key_facts\": [\"fact1\", \"fact2\", ...],\n  \"quotes\": [\"direct quote 1\", \"direct quote 2\", ...],\n  \"confidence\": 0.0-1.0\n}\n\nOnly include information directly relevant to the query. Use direct quotes from the content.\nConfidence should reflect how well this page answers the query."@
}

/// The prompt that analyses a page for a query.
pub fn page_analysis_prompt(page: &ScrapedPage, query: &str) -> (p: String)
    ensures
        p@ == analysis_prompt(query@, page.title@, page.url@, page.content@),
{
    let mut v = chars_of("You are analyzing a web page to answer the query: \"");
    extend_str(&mut v, query);
    extend_str(&mut v, "\"\n\nPage Title: ");
    extend_str(&mut v, page.title.as_str());
    extend_str(&mut v, "\nURL: ");
    extend_str(&mut v, page.url.as_str());
    extend_str(&mut v, "\nContent: ");
    extend_str(&mut v, page.content.as_str());
    extend_str(
        &mut v,
        "\n\nExtract the following in JSON format:\n{\n  \"key_facts\": [\"fact1\", \"fact2\", ...],\n  \"quotes\": [\"direct quote 1\", \"direct quote 2\", ...],\n  \"confidence\": 0.0-1.0\n}\n\nOnly include information directly relevant to the query. Use direct quotes from the content.\nConfidence should reflect how well this page answers the query.",
    );
    string_of(&v)
}

/// What `serde_json::from_str` and indexing make of an answer: `None` when
/// it is not JSON; `Some(None)` when `field` is missing or not an array;
/// else the array's items, each `Some` of its text when it is a string.
pub uninterp spec fn json_string_items(text: Seq<char>, field: Seq<char>) -> Option<
    Option<Seq<Option<Seq<char>>>>,
>;

/// The views of optional strings.
pub open spec fn opt_string_views(v: Seq<Option<String>>) -> Seq<Option<Seq<char>>> {
    v.map_values(
        |o: Option<String>|
            match o {
                Some(s) => Some(s@),
                None => None,
            },
    )
}

/// Parses the answer with `serde_json::from_str` into a `serde_json::Value`,
/// indexes it by `field`, and reads the items of the array found there
/// (`as_array`, `as_str`). What the JSON parser computes is named, not
/// restated.
#[verifier::external_body]
fn string_items(text: &str, field: &str) -> (r: Option<Option<Vec<Option<String>>>>)
    ensures
        json_string_items(text@, field@) == found_items_view(r),
{
    match serde_json::from_str::<serde_json::Value>(text) {
        Err(_) => None,
        Ok(v) => Some(v[field].as_array().map(|a| a.iter().map(|x| x.as_str().map(|s| s.to_string())).collect())),
    }
}

/// The strings among items, in order.
pub open spec fn strings_only(items: Seq<Option<Seq<char>>>) -> Seq<Seq<char>>
    decreases items.len(),
{
    if items.len() == 0 {
        Seq::empty()
    } else {
        let rest = strings_only(items.drop_last());
        match items.last() {
            Some(s) => rest.push(s),
            None => rest,
        }
    }
}

/// The strings among a field's items when the field is an array, none
/// otherwise.
pub open spec fn item_strings(found: Option<Option<Seq<Option<Seq<char>>>>>) -> Seq<Seq<char>> {
    match found {
        Some(Some(items)) => strings_only(items),
        _ => Seq::empty(),
    }
}

/// The strings of a field of an answer that is JSON: those among the
/// field's items when it is an array, none otherwise.
pub open spec fn field_strings(text: Seq<char>, field: Seq<char>) -> Seq<Seq<char>> {
    item_strings(json_string_items(text, field))
}

/// The view of what was read from a field of an answer.
pub open spec fn found_items_view(r: Option<Option<Vec<Option<String>>>>) -> Option<
    Option<Seq<Option<Seq<char>>>>,
> {
    match r {
        None => None,
        Some(None) => Some(None),
        Some(Some(v)) => Some(Some(opt_string_views(v@))),
    }
}

/// Keep the strings among items.
fn keep_strings(items: Vec<Option<String>>) -> (r: Vec<String>)
    ensures
        string_views(r@) == strings_only(opt_string_views(items@)),
{
    let ghost iv = opt_string_views(items@);
    let mut r: Vec<String> = Vec::new();
    for i in 0..items.len()
        invariant
            iv == opt_string_views(items@),
            string_views(r@) == strings_only(iv.take(i as int)),
    {
        proof {
            assert(iv.take(i + 1).drop_last() =~= iv.take(i as int));
            assert(iv.take(i + 1).last() == iv[i as int]);
        }
        let ghost prev = r@;
        match &items[i] {
            Some(s) => {
                r.push(s.clone());
                proof {
                    assert(r@ =~= prev.push(*s));
                    assert(string_views(r@) =~= string_views(prev).push(s@));
                }
            },
            None => {},
        }
        assert(string_views(r@) =~= strings_only(iv.take(i + 1)));
    }
    assert(iv.take(items.len() as int) =~= iv);
    r
}

/// The strings of a field's items, as read from an answer (empty when the
/// field is not an array).
fn strings_of_items(found: Option<Option<Vec<Option<String>>>>) -> (r: Vec<String>)
    ensures
        string_views(r@) == item_strings(found_items_view(found)),
{
    match found {
        Some(Some(items)) => keep_strings(items),
        _ => {
            let v: Vec<String> = Vec::new();
            assert(string_views(v@) =~= Seq::<Seq<char>>::empty());
            v
        },
    }
}

/// The key facts and quotes, from what was read of the `key_facts` and
/// `quotes` fields of an answer; when the answer was not JSON (`None`),
/// an error.
pub fn lists_from_items(
    facts: Option<Option<Vec<Option<String>>>>,
    quotes: Option<Option<Vec<Option<String>>>>,
) -> (r: Result<(Vec<String>, Vec<String>), String>)
    ensures
        match r {
            Ok((f, q)) => {
                &&& facts is Some
                &&& string_views(f@) == item_strings(found_items_view(facts))
                &&& string_views(q@) == item_strings(found_items_view(quotes))
            },
            Err(m) => facts is None && m@ == "Failed to parse LLM response as JSON"@,
        },
{
    if facts.is_none() {
        return Err("Failed to parse LLM response as JSON".to_owned());
    }
    Ok((strings_of_items(facts), strings_of_items(quotes)))
}

/// The key facts and quotes of an analysis answer; an answer that is not
/// JSON is an error.
pub fn analysis_lists(answer: &str) -> (r: Result<(Vec<String>, Vec<String>), String>)
    ensures
        match r {
            Ok((facts, quotes)) => {
                &&& json_string_items(answer@, "key_facts"@) is Some
                &&& string_views(facts@) == field_strings(answer@, "key_facts"@)
                &&& string_views(quotes@) == field_strings(answer@, "quotes"@)
            },
            Err(m) => json_string_items(answer@, "key_facts"@) is None && m@
                == "Failed to parse LLM response as JSON"@,
        },
{
    let facts = string_items(answer, "key_facts");
    let quotes = string_items(answer, "quotes");
    lists_from_items(facts, quotes)
}

/// The source an analysed page contributes: its URL and title, and the
/// facts and quotes drawn from it.
pub fn page_digest(page: &ScrapedPage, facts: Vec<String>, quotes: Vec<String>) -> (s: SourceDigest)
    ensures
        s.url@ == page.url@,
        s.title@ == page.title@,
        s.key_facts@ == facts@,
        s.quotes@ == quotes@,
{
    SourceDigest { url: page.url.clone(), title: page.title.clone(), key_facts: facts, quotes }
}

// ---------------------------------------------------------------------------
// Synthesising an answer
// ---------------------------------------------------------------------------

/// Each quote in double quotes.
pub open spec fn quoted(qs: Seq<Seq<char>>) -> Seq<Seq<char>> {
    qs.map_values(|q: Seq<char>| "\""@ + q + "\""@)
}

/// The text of the `i`-th (from zero) source in a synthesis prompt.
pub open spec fn synthesis_source(i: nat, s: SourceDigest) -> Seq<char> {
    "Source "@ + decimal(i + 1) + ": "@ + s.url@ + "\nKey facts:\n"@ + join(
        string_views(s.key_facts@),
        "\n- "@,
    ) + "\n\nQuotes:\n"@ + join(quoted(string_views(s.quotes@)), "\n- "@) + "\n"@
}

/// The sources of a synthesis prompt, numbered from one and set apart by
/// rules.
pub open spec fn synthesis_sources(ss: Seq<SourceDigest>) -> Seq<char> {
    join(Seq::new(ss.len(), |i: int| synthesis_source(i as nat, ss[i])), "\n---\n\n"@)
}

/// The prompt that asks for an answer to the query from the sources.
pub open spec fn synthesis_prompt(query: Seq<char>, ss: Seq<SourceDigest>) -> Seq<char> {
    "You are synthesizing information from multiple web sources to answer the query: \""@ + query
        + "\"\n\nSources:\n"@ + synthesis_sources(ss)
        + "\n\nProvide a comprehensive answer that:\n1. Directly answers the query\n2. Combines information from multiple sources\n3. Cites sources using [Source N] notation\n4. Identifies agreements and disagreements between sources\n5. Uses direct quotes where appropriate\n\nBe concise but thorough. Focus on accuracy and clarity."@
}

/// Quotes in double quotes, as character vectors.
fn quoted_vecs(qs: &Vec<String>) -> (r: Vec<Vec<char>>)
    ensures
        views(r@) == quoted(string_views(qs@)),
{
    let mut r: Vec<Vec<char>> = Vec::new();
    for i in 0..qs.len()
        invariant
            r.len() == i,
            views(r@) == quoted(string_views(qs@)).take(i as int),
    {
        let mut q = chars_of("\"");
        extend_str(&mut q, qs[i].as_str());
        extend_str(&mut q, "\"");
        let ghost prev = r@;
        r.push(q);
        proof {
            assert(r@ =~= prev.push(q));
            assert(views(r@) =~= views(prev).push(q@));
            assert(quoted(string_views(qs@)).take(i + 1) =~= quoted(string_views(qs@)).take(
                i as int,
            ).push(q@));
        }
    }
    assert(quoted(string_views(qs@)).take(qs.len() as int) =~= quoted(string_views(qs@)));
    r
}

/// Strings as character vectors.
fn string_vecs(v: &Vec<String>) -> (r: Vec<Vec<char>>)
    ensures
        views(r@) == string_views(v@),
{
    let mut r: Vec<Vec<char>> = Vec::new();
    for i in 0..v.len()
        invariant
            r.len() == i,
            views(r@) == string_views(v@).take(i as int),
    {
        let ghost prev = r@;
        r.push(chars_of(v[i].as_str()));
        proof {
            assert(r@ =~= prev.push(r@[i as int]));
            assert(views(r@) =~= views(prev).push(v@[i as int]@));
            assert(string_views(v@).take(i + 1) =~= string_views(v@).take(i as int).push(
                v@[i as int]@,
            ));
        }
    }
    assert(string_views(v@).take(v.len() as int) =~= string_views(v@));
    r
}

/// The prompt that synthesises an answer to the query from the sources.
pub fn synthesis_request(query: &str, sources: &Vec<SourceDigest>) -> (p: String)
    ensures
        p@ == synthesis_prompt(query@, sources@),
{
    let ghost want = Seq::new(sources@.len(), |i: int| synthesis_source(i as nat, sources@[i]));
    let mut parts: Vec<Vec<char>> = Vec::new();
    for i in 0..sources.len()
        invariant
            want == Seq::new(sources@.len(), |i: int| synthesis_source(i as nat, sources@[i])),
            parts.len() == i,
            views(parts@) == want.take(i as int),
    {
        let s = &sources[i];
        let mut t = chars_of("Source ");
        extend(&mut t, &decimal_of((i + 1) as u64));
        extend_str(&mut t, ": ");
        extend_str(&mut t, s.url.as_str());
        extend_str(&mut t, "\nKey facts:\n");
        extend(&mut t, &join_str(&string_vecs(&s.key_facts), "\n- "));
        extend_str(&mut t, "\n\nQuotes:\n");
        extend(&mut t, &join_str(&quoted_vecs(&s.quotes), "\n- "));
        extend_str(&mut t, "\n");
        let ghost prev = parts@;
        assert(t@ == synthesis_source(i as nat, sources@[i as int]));
        parts.push(t);
        proof {
            assert(parts@ =~= prev.push(t));
            assert(views(parts@) =~= views(prev).push(t@));
            assert(want.take(i + 1) =~= want.take(i as int).push(t@));
        }
    }
    assert(want.take(sources.len() as int) =~= want);
    let mut v = chars_of(
        "You are synthesizing information from multiple web sources to answer the query: \"",
    );
    extend_str(&mut v, query);
    extend_str(&mut v, "\"\n\nSources:\n");
    extend(&mut v, &join_str(&parts, "\n---\n\n"));
    extend_str(
        &mut v,
        "\n\nProvide a comprehensive answer that:\n1. Directly answers the query\n2. Combines information from multiple sources\n3. Cites sources using [Source N] notation\n4. Identifies agreements and disagreements between sources\n5. Uses direct quotes where appropriate\n\nBe concise but thorough. Focus on accuracy and clarity.",
    );
    string_of(&v)
}

/// The text of the model's answer: its first content block; an answer with
/// none is an error.
pub fn answer_text(blocks: Vec<String>) -> (r: Result<String, String>)
    ensures
        match r {
            Ok(t) => blocks.len() > 0 && t@ == blocks@[0]@,
            Err(m) => blocks.len() == 0 && m@ == "Empty response from the model"@,
        },
{
    if blocks.len() == 0 {
        Err("Empty response from the model".to_owned())
    } else {
        Ok(blocks[0].clone())
    }
}

} // verus!
