//! What the fetchers read out of an HTML page: its main text (the first of a
//! list of content areas that holds text, else the whole page), its title,
//! and the web links it holds. The HTML itself is parsed by the `scraper`
//! crate; the choices made on what it finds are here.
use vstd::prelude::*;
use crate::crawler::{clean_text, cleaned};
use crate::query_expansion::string_views;
use crate::text::{
    chars_of, join, join_str, string_of, trim_whitespace, trim_ws, utf8_len, utf8_width,
    views,
};
use crate::url_validator::{join_url, parse_url, url_join, url_parse};

verus! {

// ---------------------------------------------------------------------------
// What the HTML parser finds
// ---------------------------------------------------------------------------

/// The text nodes of the first element that `scraper`'s selection yields
/// for the CSS selector `selector` on the page `html`, in the order its
/// `text` walk yields them; `None` when the selector does not parse or
/// nothing matches.
pub uninterp spec fn html_first_texts(html: Seq<char>, selector: Seq<char>) -> Option<Seq<Seq<char>>>;

/// The attribute `attr` of the first element that `scraper`'s selection
/// yields for `selector`: `None` when the selector does not parse or nothing matches,
/// `Some(None)` when that element lacks the attribute.
pub uninterp spec fn html_first_attr(html: Seq<char>, selector: Seq<char>, attr: Seq<char>) -> Option<
    Option<Seq<char>>,
>;

/// The text nodes of the page's root element, in the order `scraper`'s
/// `text` walk yields them.
pub uninterp spec fn html_root_texts(html: Seq<char>) -> Seq<Seq<char>>;

/// The attribute `attr` of every element of the page that matches
/// `selector`, in the order `scraper`'s selection yields them (`None` for
/// one that lacks it); empty when the selector does not parse.
pub uninterp spec fn html_all_attrs(html: Seq<char>, selector: Seq<char>, attr: Seq<char>) -> Seq<
    Option<Seq<char>>,
>;

/// The views of optional strings.
pub open spec fn opt_views(v: Seq<Option<String>>) -> Seq<Option<Seq<char>>> {
    v.map_values(
        |o: Option<String>|
            match o {
                Some(s) => Some(s@),
                None => None,
            },
    )
}

/// Parses the page with `scraper::Html::parse_document` and the selector
/// with `scraper::Selector::parse`, and collects the text nodes of the first
/// match (`ElementRef::text`). What the HTML parser and the selector engine
/// compute is named, not restated.
#[verifier::external_body]
fn first_match_texts(html: &str, selector: &str) -> (r: Option<Vec<String>>)
    ensures
        match r {
            Some(v) => html_first_texts(html@, selector@) == Some(string_views(v@)),
            None => html_first_texts(html@, selector@) is None,
        },
{
    let doc = scraper::Html::parse_document(html);
    match scraper::Selector::parse(selector) {
        Ok(sel) => doc.select(&sel).next().map(|el| el.text().map(|t| t.to_string()).collect()),
        Err(_) => None,
    }
}

/// Parses the page and the selector as `first_match_texts` does, and reads
/// the attribute of the first match (`Element::attr`).
#[verifier::external_body]
fn first_match_attr(html: &str, selector: &str, attr: &str) -> (r: Option<Option<String>>)
    ensures
        html_first_attr(html@, selector@, attr@) == match r {
            Some(Some(s)) => Some(Some(s@)),
            Some(None) => Some(None::<Seq<char>>),
            None => None,
        },
{
    let doc = scraper::Html::parse_document(html);
    match scraper::Selector::parse(selector) {
        Ok(sel) => doc.select(&sel).next().map(|el| el.value().attr(attr).map(|a| a.to_string())),
        Err(_) => None,
    }
}

/// Parses the page with `scraper::Html::parse_document` and collects the
/// text nodes of its root element (`Html::root_element`).
#[verifier::external_body]
fn root_texts(html: &str) -> (r: Vec<String>)
    ensures
        string_views(r@) == html_root_texts(html@),
{
    let doc = scraper::Html::parse_document(html);
    let texts: Vec<String> = doc.root_element().text().map(|t| t.to_string()).collect();
    texts
}

/// Parses the page and the selector, and reads the attribute of every match
/// in the order the selection yields them.
#[verifier::external_body]
fn all_match_attrs(html: &str, selector: &str, attr: &str) -> (r: Vec<Option<String>>)
    ensures
        opt_views(r@) == html_all_attrs(html@, selector@, attr@),
{
    let doc = scraper::Html::parse_document(html);
    match scraper::Selector::parse(selector) {
        Ok(sel) => doc.select(&sel).map(|el| el.value().attr(attr).map(|a| a.to_string())).collect(),
        Err(_) => Vec::new(),
    }
}

// ---------------------------------------------------------------------------
// The main text of a page
// ---------------------------------------------------------------------------

/// Does the text have more than `n` bytes in UTF-8?
pub fn utf8_longer_than(s: &Vec<char>, n: usize) -> (r: bool)
    requires
        n < usize::MAX - 4,
    ensures
        r == (utf8_len(s@) > n),
{
    let mut total: usize = 0;
    for i in 0..s.len()
        invariant
            n < usize::MAX - 4,
            total == utf8_len(s@.take(i as int)),
            total <= n,
    {
        assert(s@.take(i + 1).drop_last() =~= s@.take(i as int));
        let c = s[i];
        let w: usize = if (c as u32) < 0x80 {
            1
        } else if (c as u32) < 0x800 {
            2
        } else if (c as u32) < 0x10000 {
            3
        } else {
            4
        };
        assert(w == utf8_width(c));
        total = total + w;
        if total > n {
            proof {
                lemma_utf8_len_prefix(s@, i + 1);
            }
            return true;
        }
    }
    assert(s@.take(s.len() as int) =~= s@);
    false
}

/// A prefix has no more bytes than the whole.
proof fn lemma_utf8_len_prefix(s: Seq<char>, k: int)
    requires
        0 <= k <= s.len(),
    ensures
        utf8_len(s.take(k)) <= utf8_len(s),
    decreases s.len() - k,
{
    if k < s.len() {
        lemma_utf8_len_prefix(s, k + 1);
        assert(s.take(k + 1).drop_last() =~= s.take(k));
    } else {
        assert(s.take(k) =~= s);
    }
}

/// Is a content area's text good enough? By length: more than two hundred
/// bytes; otherwise: anything but white space.
pub open spec fn text_accepted(text: Seq<char>, by_length: bool) -> bool {
    if by_length {
        utf8_len(text) > 200
    } else {
        trim_ws(text).len() > 0
    }
}

/// The text of the first content area, among the candidates found (each
/// `None` when its area is missing), whose text, its nodes joined by
/// spaces, is good enough.
pub open spec fn first_accepted(cands: Seq<Option<Seq<Seq<char>>>>, by_length: bool) -> Option<
    Seq<char>,
>
    decreases cands.len(),
{
    if cands.len() == 0 {
        None
    } else {
        match cands[0] {
            Some(ts) => if text_accepted(join(ts, " "@), by_length) {
                Some(join(ts, " "@))
            } else {
                first_accepted(cands.skip(1), by_length)
            },
            None => first_accepted(cands.skip(1), by_length),
        }
    }
}

/// What the parser finds in each content area, in order.
pub open spec fn area_texts(html: Seq<char>, areas: Seq<Seq<char>>) -> Seq<Option<Seq<Seq<char>>>> {
    Seq::new(areas.len(), |i: int| html_first_texts(html, areas[i]))
}

/// The content areas a search-result scraper looks at, in order.
pub open spec fn scraper_areas() -> Seq<Seq<char>> {
    seq!["article"@, "main"@, "[role='main']"@, ".content"@, "#content"@, "body"@]
}

/// The content areas the crawler looks at, in order.
pub open spec fn crawler_areas() -> Seq<Seq<char>> {
    seq!["article"@, "main"@, "[role='main']"@, ".content"@, "#content"@]
}

/// The content areas the web extractor looks at, in order.
pub open spec fn web_areas() -> Seq<Seq<char>> {
    seq!["article"@, "main"@, "[role='main']"@, ".content"@, ".post-content"@, "#content"@]
}

/// A fetcher's main text, from what was found: the first content area
/// whose text is not blank, cleaned; else the whole page's text, cleaned.
pub open spec fn main_text_of(cands: Seq<Option<Seq<Seq<char>>>>, page: Seq<Seq<char>>) -> Seq<char> {
    match first_accepted(cands, false) {
        Some(t) => cleaned(t),
        None => cleaned(join(page, " "@)),
    }
}

/// The web extractor's main text, from what was found: the first content
/// area with more than two hundred bytes of text, cleaned; else the body's
/// text, cleaned; else nothing.
pub open spec fn web_text_of(cands: Seq<Option<Seq<Seq<char>>>>, body: Option<Seq<Seq<char>>>) -> Seq<
    char,
> {
    match first_accepted(cands, true) {
        Some(t) => cleaned(t),
        None => match body {
            Some(ts) => cleaned(join(ts, " "@)),
            None => Seq::empty(),
        },
    }
}

/// The main text of a page as a fetcher reads it.
pub open spec fn fetched_text(html: Seq<char>, areas: Seq<Seq<char>>) -> Seq<char> {
    main_text_of(area_texts(html, areas), html_root_texts(html))
}

/// The main text of a page as the web extractor reads it.
pub open spec fn extracted_text(html: Seq<char>) -> Seq<char> {
    web_text_of(area_texts(html, web_areas()), html_first_texts(html, "body"@))
}

/// The first candidate that is good enough is the one chosen: when the
/// candidates before `k` are missing or not good enough and the `k`-th is,
/// its text is chosen.
proof fn lemma_first_accepted_at(cands: Seq<Option<Seq<Seq<char>>>>, by_length: bool, k: int)
    requires
        0 <= k < cands.len(),
        forall|j: int|
            0 <= j < k ==> (#[trigger] cands[j] matches Some(ts) ==> !text_accepted(join(ts, " "@), by_length)),
        cands[k] matches Some(ts) && text_accepted(join(ts, " "@), by_length),
    ensures
        first_accepted(cands, by_length) == Some(join(cands[k]->0, " "@)),
    decreases k,
{
    if k > 0 {
        let rest = cands.skip(1);
        assert forall|j: int| 0 <= j < k - 1 implies (#[trigger] rest[j] matches Some(ts)
            ==> !text_accepted(join(ts, " "@), by_length)) by {
            assert(rest[j] == cands[j + 1]);
        }
        assert(rest[k - 1] == cands[k]);
        lemma_first_accepted_at(rest, by_length, k - 1);
        assert(cands[0] matches Some(ts) ==> !text_accepted(join(ts, " "@), by_length));
    }
}

/// When no candidate is good enough, none is chosen.
proof fn lemma_none_accepted(cands: Seq<Option<Seq<Seq<char>>>>, by_length: bool)
    requires
        forall|j: int|
            0 <= j < cands.len() ==> (#[trigger] cands[j] matches Some(ts) ==> !text_accepted(
                join(ts, " "@),
                by_length,
            )),
    ensures
        first_accepted(cands, by_length) is None,
    decreases cands.len(),
{
    if cands.len() > 0 {
        let rest = cands.skip(1);
        assert forall|j: int| 0 <= j < rest.len() implies (#[trigger] rest[j] matches Some(ts)
            ==> !text_accepted(join(ts, " "@), by_length)) by {
            assert(rest[j] == cands[j + 1]);
        }
        lemma_none_accepted(rest, by_length);
        assert(cands[0] matches Some(ts) ==> !text_accepted(join(ts, " "@), by_length));
    }
}

/// The text that an area of `html` shows, if it is found and its text (its
/// text nodes joined by spaces) is not blank.
pub open spec fn shown_text(html: Seq<char>, area: Seq<char>) -> Option<Seq<char>> {
    match html_first_texts(html, area) {
        Some(ts) => if trim_ws(join(ts, " "@)).len() > 0 {
            Some(join(ts, " "@))
        } else {
            None
        },
        None => None,
    }
}

/// The text that an area of `html` offers the web extractor, if it is found
/// and its text (joined by spaces) has more than two hundred bytes.
pub open spec fn long_text(html: Seq<char>, area: Seq<char>) -> Option<Seq<char>> {
    match html_first_texts(html, area) {
        Some(ts) => if utf8_len(join(ts, " "@)) > 200 {
            Some(join(ts, " "@))
        } else {
            None
        },
        None => None,
    }
}

/// A search-result scraper reads the first of `article`, `main`,
/// `[role='main']`, `.content`, `#content`, `body` (in this order) that
/// shows text, cleaned; when none does, the whole page's text, cleaned.
pub proof fn lemma_scraper_reads_first_shown_area(html: Seq<char>)
    ensures
        ({
            let areas = seq!["article"@, "main"@, "[role='main']"@, ".content"@, "#content"@, "body"@];
            &&& forall|k: int|
                #![trigger shown_text(html, areas[k])]
                0 <= k < 6 && shown_text(html, areas[k]) is Some && (forall|j: int|
                    0 <= j < k ==> #[trigger] shown_text(html, areas[j]) is None)
                    ==> fetched_text(html, scraper_areas()) == cleaned(
                    shown_text(html, areas[k])->0,
                )
            &&& (forall|j: int| 0 <= j < 6 ==> #[trigger] shown_text(html, areas[j]) is None)
                ==> fetched_text(html, scraper_areas()) == cleaned(join(html_root_texts(html), " "@))
        }),
{
    lemma_fetcher_areas(html, scraper_areas());
}

/// The crawler reads the first of `article`, `main`, `[role='main']`,
/// `.content`, `#content` (in this order) that shows text, cleaned; when
/// none does, the whole page's text, cleaned.
pub proof fn lemma_crawler_reads_first_shown_area(html: Seq<char>)
    ensures
        ({
            let areas = seq!["article"@, "main"@, "[role='main']"@, ".content"@, "#content"@];
            &&& forall|k: int|
                #![trigger shown_text(html, areas[k])]
                0 <= k < 5 && shown_text(html, areas[k]) is Some && (forall|j: int|
                    0 <= j < k ==> #[trigger] shown_text(html, areas[j]) is None)
                    ==> fetched_text(html, crawler_areas()) == cleaned(
                    shown_text(html, areas[k])->0,
                )
            &&& (forall|j: int| 0 <= j < 5 ==> #[trigger] shown_text(html, areas[j]) is None)
                ==> fetched_text(html, crawler_areas()) == cleaned(join(html_root_texts(html), " "@))
        }),
{
    lemma_fetcher_areas(html, crawler_areas());
}

/// What a fetcher reads, area by area, from the areas it is given.
proof fn lemma_fetcher_areas(html: Seq<char>, areas: Seq<Seq<char>>)
    ensures
        forall|k: int|
            #![trigger shown_text(html, areas[k])]
            0 <= k < areas.len() && shown_text(html, areas[k]) is Some && (forall|j: int|
                0 <= j < k ==> #[trigger] shown_text(html, areas[j]) is None) ==> fetched_text(
                html,
                areas,
            ) == cleaned(shown_text(html, areas[k])->0),
        (forall|j: int| 0 <= j < areas.len() ==> #[trigger] shown_text(html, areas[j]) is None)
            ==> fetched_text(html, areas) == cleaned(join(html_root_texts(html), " "@)),
{
    let cands = area_texts(html, areas);
    assert forall|k: int|
        #![trigger shown_text(html, areas[k])]
        0 <= k < areas.len() && shown_text(html, areas[k]) is Some && (forall|j: int|
            0 <= j < k ==> #[trigger] shown_text(html, areas[j]) is None) implies fetched_text(
        html,
        areas,
    ) == cleaned(shown_text(html, areas[k])->0) by {
        assert forall|j: int| 0 <= j < k implies (#[trigger] cands[j] matches Some(ts)
            ==> !text_accepted(join(ts, " "@), false)) by {
            assert(shown_text(html, areas[j]) is None);
        }
        assert(cands[k] == html_first_texts(html, areas[k]));
        lemma_first_accepted_at(cands, false, k);
    }
    if forall|j: int| 0 <= j < areas.len() ==> #[trigger] shown_text(html, areas[j]) is None {
        assert forall|j: int| 0 <= j < cands.len() implies (#[trigger] cands[j] matches Some(ts)
            ==> !text_accepted(join(ts, " "@), false)) by {
            assert(shown_text(html, areas[j]) is None);
        }
        lemma_none_accepted(cands, false);
    }
}

/// The web extractor reads the first of `article`, `main`, `[role='main']`,
/// `.content`, `.post-content`, `#content` (in this order) with more than
/// two hundred bytes of text, cleaned; when none has, the body's text,
/// cleaned; with no body, nothing.
pub proof fn lemma_web_extractor_reads_first_long_area(html: Seq<char>)
    ensures
        ({
            let areas = seq![
                "article"@,
                "main"@,
                "[role='main']"@,
                ".content"@,
                ".post-content"@,
                "#content"@,
            ];
            &&& forall|k: int|
                #![trigger long_text(html, areas[k])]
                0 <= k < 6 && long_text(html, areas[k]) is Some && (forall|j: int|
                    0 <= j < k ==> #[trigger] long_text(html, areas[j]) is None) ==> extracted_text(
                    html,
                ) == cleaned(long_text(html, areas[k])->0)
            &&& (forall|j: int| 0 <= j < 6 ==> #[trigger] long_text(html, areas[j]) is None)
                ==> extracted_text(html) == match html_first_texts(html, "body"@) {
                Some(ts) => cleaned(join(ts, " "@)),
                None => Seq::empty(),
            }
        }),
{
    let areas = web_areas();
    let cands = area_texts(html, areas);
    assert forall|k: int|
        #![trigger long_text(html, areas[k])]
        0 <= k < 6 && long_text(html, areas[k]) is Some && (forall|j: int|
            0 <= j < k ==> #[trigger] long_text(html, areas[j]) is None) implies extracted_text(
        html,
    ) == cleaned(long_text(html, areas[k])->0) by {
        assert forall|j: int| 0 <= j < k implies (#[trigger] cands[j] matches Some(ts)
            ==> !text_accepted(join(ts, " "@), true)) by {
            assert(long_text(html, areas[j]) is None);
        }
        assert(cands[k] == html_first_texts(html, areas[k]));
        lemma_first_accepted_at(cands, true, k);
    }
    if forall|j: int| 0 <= j < 6 ==> #[trigger] long_text(html, areas[j]) is None {
        assert forall|j: int| 0 <= j < cands.len() implies (#[trigger] cands[j] matches Some(ts)
            ==> !text_accepted(join(ts, " "@), true)) by {
            assert(long_text(html, areas[j]) is None);
        }
        lemma_none_accepted(cands, true);
    }
}

/// The views of what was found in content areas.
pub open spec fn candidate_views(v: Seq<Option<Vec<String>>>) -> Seq<Option<Seq<Seq<char>>>> {
    v.map_values(
        |o: Option<Vec<String>>|
            match o {
                Some(ts) => Some(string_views(ts@)),
                None => None,
            },
    )
}

/// The view of what was found in one area.
pub open spec fn found_view(o: Option<Vec<String>>) -> Option<Seq<Seq<char>>> {
    match o {
        Some(ts) => Some(string_views(ts@)),
        None => None,
    }
}

/// A list of selectors.
fn selector_list(lits: &[&str]) -> (v: Vec<String>)
    ensures
        string_views(v@) == lits@.map_values(|s: &str| s@),
{
    let mut v: Vec<String> = Vec::new();
    for i in 0..lits.len()
        invariant
            v.len() == i,
            string_views(v@) == lits@.take(i as int).map_values(|s: &str| s@),
    {
        let ghost prev = v@;
        v.push(lits[i].to_owned());
        proof {
            assert(v@ =~= prev.push(v@[i as int]));
            assert(string_views(v@) =~= string_views(prev).push(lits@[i as int]@));
            assert(lits@.take(i + 1).map_values(|s: &str| s@) =~= lits@.take(i as int).map_values(
                |s: &str| s@,
            ).push(lits@[i as int]@));
        }
    }
    assert(lits@.take(lits.len() as int) =~= lits@);
    v
}

/// What the parser finds in each content area of the page.
fn find_areas(html: &str, areas: &Vec<String>) -> (found: Vec<Option<Vec<String>>>)
    ensures
        candidate_views(found@) == area_texts(html@, string_views(areas@)),
{
    let ghost want = area_texts(html@, string_views(areas@));
    let mut found: Vec<Option<Vec<String>>> = Vec::new();
    for i in 0..areas.len()
        invariant
            want == area_texts(html@, string_views(areas@)),
            found.len() == i,
            candidate_views(found@) == want.take(i as int),
    {
        let ghost prev = found@;
        let f = first_match_texts(html, areas[i].as_str());
        found.push(f);
        proof {
            assert(found@ =~= prev.push(f));
            assert(candidate_views(found@) =~= candidate_views(prev).push(found_view(f)));
            assert(want.take(i + 1) =~= want.take(i as int).push(want[i as int]));
        }
    }
    assert(want.take(areas.len() as int) =~= want);
    found
}

/// The text of the first candidate area whose text is good enough.
fn first_accepted_exec(cands: &Vec<Option<Vec<String>>>, by_length: bool) -> (r: Option<Vec<char>>)
    ensures
        match r {
            Some(t) => first_accepted(candidate_views(cands@), by_length) == Some(t@),
            None => first_accepted(candidate_views(cands@), by_length) is None,
        },
{
    let ghost all = candidate_views(cands@);
    assert(all.skip(0) =~= all);
    let mut i: usize = 0;
    while i < cands.len()
        invariant
            i <= cands.len(),
            all == candidate_views(cands@),
            first_accepted(all, by_length) == first_accepted(all.skip(i as int), by_length),
        decreases cands.len() - i,
    {
        let ghost rest = all.skip(i as int);
        assert(rest[0] == found_view(cands@[i as int]));
        assert(rest.skip(1) =~= all.skip(i + 1));
        match &cands[i] {
            Some(ts) => {
                let j = join_str(&chars_vecs(ts), " ");
                let ok = if by_length {
                    utf8_longer_than(&j, 200)
                } else {
                    trim_whitespace(&j).len() > 0
                };
                if ok {
                    return Some(j);
                }
            },
            None => {},
        }
        i = i + 1;
    }
    assert(all.skip(i as int).len() == 0);
    None
}

/// Strings as character vectors.
fn chars_vecs(v: &Vec<String>) -> (r: Vec<Vec<char>>)
    ensures
        views(r@) == string_views(v@),
{
    let mut r: Vec<Vec<char>> = Vec::new();
    for i in 0..v.len()
        invariant
            r.len() == i,
            views(r@) == string_views(v@).take(i as int),
    {
        let ghost prev = r@;
        r.push(chars_of(v[i].as_str()));
        proof {
            assert(r@ =~= prev.push(r@[i as int]));
            assert(views(r@) =~= views(prev).push(v@[i as int]@));
            assert(string_views(v@).take(i + 1) =~= string_views(v@).take(i as int).push(
                v@[i as int]@,
            ));
        }
    }
    assert(string_views(v@).take(v.len() as int) =~= string_views(v@));
    r
}

/// A fetcher's main text, from what was found in the content areas and the
/// whole page's text nodes.
pub fn main_text(cands: &Vec<Option<Vec<String>>>, page: &Vec<String>) -> (t: String)
    ensures
        t@ == main_text_of(candidate_views(cands@), string_views(page@)),
{
    match first_accepted_exec(cands, false) {
        Some(j) => clean_text(string_of(&j).as_str()),
        None => {
            let j = join_str(&chars_vecs(page), " ");
            clean_text(string_of(&j).as_str())
        },
    }
}

/// The web extractor's main text, from what was found in the content areas
/// and in the body.
pub fn web_main_text(cands: &Vec<Option<Vec<String>>>, body: &Option<Vec<String>>) -> (t: String)
    ensures
        t@ == web_text_of(candidate_views(cands@), found_view(*body)),
{
    match first_accepted_exec(cands, true) {
        Some(j) => clean_text(string_of(&j).as_str()),
        None => match body {
            Some(ts) => {
                let j = join_str(&chars_vecs(ts), " ");
                clean_text(string_of(&j).as_str())
            },
            None => String::new(),
        },
    }
}

/// The main text of a page as the search-result scraper reads it.
pub fn scraped_text(html: &str) -> (t: String)
    ensures
        t@ == fetched_text(html@, scraper_areas()),
{
    let areas = selector_list(&["article", "main", "[role='main']", ".content", "#content", "body"]);
    assert(string_views(areas@) =~= scraper_areas());
    let found = find_areas(html, &areas);
    let page = root_texts(html);
    main_text(&found, &page)
}

/// The main text of a page as the crawler reads it.
pub fn crawled_text(html: &str) -> (t: String)
    ensures
        t@ == fetched_text(html@, crawler_areas()),
{
    let areas = selector_list(&["article", "main", "[role='main']", ".content", "#content"]);
    assert(string_views(areas@) =~= crawler_areas());
    let found = find_areas(html, &areas);
    let page = root_texts(html);
    main_text(&found, &page)
}

/// The main text of a page as the web extractor reads it.
pub fn web_text(html: &str) -> (t: String)
    ensures
        t@ == extracted_text(html@),
{
    let areas = selector_list(
        &["article", "main", "[role='main']", ".content", ".post-content", "#content"],
    );
    assert(string_views(areas@) =~= web_areas());
    let found = find_areas(html, &areas);
    let body = first_match_texts(html, "body");
    web_main_text(&found, &body)
}

// ---------------------------------------------------------------------------
// The title of a page
// ---------------------------------------------------------------------------

/// A fetcher's title, from what was found in the first `title` element:
/// its text, else `Untitled`.
pub open spec fn title_of(found: Option<Seq<Seq<char>>>) -> Seq<char> {
    match found {
        Some(ts) => join(ts, Seq::empty()),
        None => "Untitled"@,
    }
}

/// The web extractor's title, from what was found: the `title` element's
/// text, trimmed, when it is not empty; else the `og:title` meta property;
/// else the URL.
pub open spec fn web_title_of(found: Option<Seq<Seq<char>>>, og: Option<Option<Seq<char>>>, url: Seq<char>) -> Seq<char> {
    match found {
        Some(ts) if join(ts, Seq::empty()).len() > 0 => trim_ws(join(ts, Seq::empty())),
        _ => match og {
            Some(Some(c)) => c,
            _ => url,
        },
    }
}

/// The title of a page as the scraper and the crawler read it.
pub open spec fn fetched_title(html: Seq<char>) -> Seq<char> {
    title_of(html_first_texts(html, "title"@))
}

/// The title of a page as the web extractor reads it.
pub open spec fn extracted_title(html: Seq<char>, url: Seq<char>) -> Seq<char> {
    web_title_of(
        html_first_texts(html, "title"@),
        html_first_attr(html, "meta[property='og:title']"@, "content"@),
        url,
    )
}

/// A fetcher's title, from what was found in the first `title` element.
pub fn title_from(found: &Option<Vec<String>>) -> (t: String)
    ensures
        t@ == title_of(found_view(*found)),
{
    proof {
        reveal_strlit("");
        assert(""@ =~= Seq::<char>::empty());
    }
    match found {
        Some(ts) => string_of(&join_str(&chars_vecs(ts), "")),
        None => "Untitled".to_owned(),
    }
}

/// The web extractor's title, from what was found in the first `title`
/// element and the `og:title` meta property.
pub fn web_title_from(found: &Option<Vec<String>>, og: &Option<Option<String>>, url: &str) -> (t: String)
    ensures
        t@ == web_title_of(
            found_view(*found),
            match *og {
                Some(Some(c)) => Some(Some(c@)),
                Some(None) => Some(None),
                None => None,
            },
            url@,
        ),
{
    proof {
        reveal_strlit("");
        assert(""@ =~= Seq::<char>::empty());
    }
    match found {
        Some(ts) => {
            let j = join_str(&chars_vecs(ts), "");
            if j.len() > 0 {
                return string_of(&trim_whitespace(&j));
            }
        },
        None => {},
    }
    match og {
        Some(Some(c)) => c.clone(),
        _ => url.to_owned(),
    }
}

/// The title of a page as the scraper and the crawler read it.
pub fn page_title(html: &str) -> (t: String)
    ensures
        t@ == fetched_title(html@),
{
    let found = first_match_texts(html, "title");
    title_from(&found)
}

/// The title of a page as the web extractor reads it.
pub fn web_title(html: &str, url: &str) -> (t: String)
    ensures
        t@ == extracted_title(html@, url@),
{
    let found = first_match_texts(html, "title");
    let og = first_match_attr(html, "meta[property='og:title']", "content");
    web_title_from(&found, &og, url)
}

// ---------------------------------------------------------------------------
// The links of a page
// ---------------------------------------------------------------------------

/// A link target resolved against the page's URL (or read on its own when
/// the page's URL does not parse): its scheme and serialization.
pub open spec fn resolved(base: Seq<char>, href: Seq<char>) -> Option<(Seq<char>, Seq<char>)> {
    match url_parse(base) {
        Ok(_) => url_join(base, href),
        Err(_) => match url_parse(href) {
            Ok((scheme, text, _)) => Some((scheme, text)),
            Err(_) => None,
        },
    }
}

/// The targets, among those resolved, whose scheme is http or https, in
/// order.
pub open spec fn web_targets(rs: Seq<Option<(Seq<char>, Seq<char>)>>) -> Seq<Seq<char>>
    decreases rs.len(),
{
    if rs.len() == 0 {
        Seq::empty()
    } else {
        let rest = web_targets(rs.drop_last());
        match rs.last() {
            Some((scheme, text)) => if scheme == "http"@ || scheme == "https"@ {
                rest.push(text)
            } else {
                rest
            },
            None => rest,
        }
    }
}

/// Each anchor's target resolved against the page's URL (nothing for an
/// anchor without `href`).
pub open spec fn resolutions(base: Seq<char>, hrefs: Seq<Option<Seq<char>>>) -> Seq<
    Option<(Seq<char>, Seq<char>)>,
> {
    Seq::new(
        hrefs.len(),
        |i: int|
            match hrefs[i] {
                Some(h) => resolved(base, h),
                None => None,
            },
    )
}

/// The web links of a page.
pub open spec fn web_links(base: Seq<char>, hrefs: Seq<Option<Seq<char>>>) -> Seq<Seq<char>> {
    web_targets(resolutions(base, hrefs))
}

/// The views of resolved targets.
pub open spec fn target_views(v: Seq<Option<(String, String)>>) -> Seq<Option<(Seq<char>, Seq<char>)>> {
    v.map_values(
        |o: Option<(String, String)>|
            match o {
                Some((a, b)) => Some((a@, b@)),
                None => None,
            },
    )
}

/// The view of one resolved target.
pub open spec fn target_view(o: Option<(String, String)>) -> Option<(Seq<char>, Seq<char>)> {
    match o {
        Some((a, b)) => Some((a@, b@)),
        None => None,
    }
}

/// The links to keep, from the resolved targets: those with an http or
/// https scheme, in order.
pub fn keep_web_targets(rs: &Vec<Option<(String, String)>>) -> (links: Vec<String>)
    ensures
        string_views(links@) == web_targets(target_views(rs@)),
{
    let ghost rv = target_views(rs@);
    let mut links: Vec<String> = Vec::new();
    for i in 0..rs.len()
        invariant
            rv == target_views(rs@),
            string_views(links@) == web_targets(rv.take(i as int)),
    {
        proof {
            assert(rv.take(i + 1).drop_last() =~= rv.take(i as int));
            assert(rv.take(i + 1).last() == target_view(rs@[i as int]));
        }
        let ghost prev = links@;
        match &rs[i] {
            Some((scheme, text)) => {
                let sv = chars_of(scheme.as_str());
                if crate::query_expansion::same_str(&sv, "http")
                    || crate::query_expansion::same_str(&sv, "https") {
                    links.push(text.clone());
                    proof {
                        assert(links@ =~= prev.push(*text));
                        assert(string_views(links@) =~= string_views(prev).push(text@));
                    }
                }
            },
            None => {},
        }
        assert(string_views(links@) =~= web_targets(rv.take(i + 1)));
    }
    assert(rv.take(rs.len() as int) =~= rv);
    links
}

/// The web links of the page `html` found at `base_url`.
pub fn page_links(html: &str, base_url: &str) -> (links: Vec<String>)
    ensures
        string_views(links@) == web_links(base_url@, html_all_attrs(html@, "a[href]"@, "href"@)),
{
    let hrefs = all_match_attrs(html, "a[href]", "href");
    let ghost hv = opt_views(hrefs@);
    let ghost want = resolutions(base_url@, hv);
    let base_ok = parse_url(base_url).is_ok();
    let mut rs: Vec<Option<(String, String)>> = Vec::new();
    for i in 0..hrefs.len()
        invariant
            hv == opt_views(hrefs@),
            want == resolutions(base_url@, hv),
            base_ok == (url_parse(base_url@) is Ok),
            rs.len() == i,
            target_views(rs@) == want.take(i as int),
    {
        let r = match &hrefs[i] {
            Some(h) => if base_ok {
                join_url(base_url, h.as_str())
            } else {
                match parse_url(h.as_str()) {
                    Ok(p) => Some((p.scheme, p.text)),
                    Err(_) => None,
                }
            },
            None => None,
        };
        let ghost prev = rs@;
        proof {
            assert(target_view(r) == want[i as int]);
        }
        rs.push(r);
        proof {
            assert(rs@ =~= prev.push(r));
            assert(target_views(rs@) =~= target_views(prev).push(target_view(r)));
            assert(want.take(i + 1) =~= want.take(i as int).push(want[i as int]));
        }
    }
    assert(want.take(hrefs.len() as int) =~= want);
    keep_web_targets(&rs)
}

// ---------------------------------------------------------------------------
// The web extractor
// ---------------------------------------------------------------------------

/// Extracts web pages: the fallback extractor for any http(s) URL.
#[derive(Debug, Clone, Copy)]
pub struct WebExtractor;

impl WebExtractor {
    /// The web extractor.
    pub fn new() -> Self {
        WebExtractor
    }

    /// Does this extractor take the URL? Any http or https URL that no
    /// specific extractor (PDF, video, image, audio, repository) takes.
    pub fn can_handle(&self, url: &str) -> (r: bool)
        ensures
            r == crate::extractors::web_page_url(url@),
    {
        crate::extractors::handles_web(url)
    }

    /// The content type this extractor produces.
    pub fn content_type(&self) -> (t: crate::extractors::ContentType)
        ensures
            t == crate::extractors::ContentType::Web,
    {
        crate::extractors::ContentType::Web
    }

    /// The page's main text.
    pub fn extract_content(&self, html: &str) -> (t: String)
        ensures
            t@ == extracted_text(html@),
    {
        web_text(html)
    }

    /// The page's title.
    pub fn extract_title(&self, html: &str, url: &str) -> (t: String)
        ensures
            t@ == extracted_title(html@, url@),
    {
        web_title(html, url)
    }
}

} // verus!
