//! The web search back ends' own logic: the DuckDuckGo Lite result page read
//! row by row, its bot check, its query URL and user agents; the SearXNG
//! endpoint and the hits it keeps.
use vstd::prelude::*;
use vstd::utf8::encode_utf8;
use crate::html::utf8_longer_than;
use crate::models::SearchResult;
use crate::query_expansion::string_views;
use crate::text::{
    chars_of, contains_str, has_prefix, has_substring, join, join_str, starts_with_str, string_of,
    trim_whitespace, trim_ws, utf8_len, views,
};

verus! {

// ---------------------------------------------------------------------------
// DuckDuckGo Lite
// ---------------------------------------------------------------------------

/// A link of a row as plain text: its target attribute, if present, and its
/// text nodes.
pub type LinkText = (Option<Seq<char>>, Seq<Seq<char>>);

/// One table row of a result page as plain text: the text nodes of the row,
/// and its links, in the order `scraper` yields them.
pub type RowText = (Seq<Seq<char>>, Seq<LinkText>);

/// The elements of the page `html` that match `row_selector`, in the order
/// `scraper`'s selection yields them: each one's text nodes, and the elements
/// inside it that match `link_selector`, each with its attribute `attr` and
/// its text nodes. Empty when either selector does not parse.
pub uninterp spec fn html_rows(
    html: Seq<char>,
    row_selector: Seq<char>,
    link_selector: Seq<char>,
    attr: Seq<char>,
) -> Seq<RowText>;

/// A link of a table row.
#[derive(Debug, Clone)]
pub struct RowLink {
    pub href: Option<String>,
    pub texts: Vec<String>,
}

/// A table row of a result page, with its links in the order they were
/// found.
#[derive(Debug, Clone)]
pub struct TableRow {
    pub texts: Vec<String>,
    pub links: Vec<RowLink>,
}

/// The plain text of a link.
pub open spec fn link_text(l: RowLink) -> LinkText {
    (
        match l.href {
            Some(h) => Some(h@),
            None => None,
        },
        string_views(l.texts@),
    )
}

/// The plain text of a row.
pub open spec fn row_text(r: TableRow) -> RowText {
    (string_views(r.texts@), r.links@.map_values(|l: RowLink| link_text(l)))
}

/// The plain text of rows.
pub open spec fn rows_text(rs: Seq<TableRow>) -> Seq<RowText> {
    rs.map_values(|r: TableRow| row_text(r))
}

/// Parses the page with `scraper::Html::parse_document` and both selectors
/// with `scraper::Selector::parse`, and reads every match of the row
/// selector with its text nodes, and the matches of the link selector inside
/// it with their attribute `attr` and text nodes. What the HTML parser and
/// the selector engine compute is named, not restated.
#[verifier::external_body]
fn table_rows(html: &str, row_selector: &str, link_selector: &str, attr: &str) -> (rows: Vec<TableRow>)
    ensures
        rows_text(rows@) == html_rows(html@, row_selector@, link_selector@, attr@),
{
    let doc = scraper::Html::parse_document(html);
    match (scraper::Selector::parse(row_selector), scraper::Selector::parse(link_selector)) {
        (Ok(r), Ok(l)) => doc.select(&r).map(|row| TableRow {
            texts: row.text().map(|t| t.to_string()).collect(),
            links: row.select(&l).map(|a| RowLink {
                href: a.value().attr(attr).map(|h| h.to_string()),
                texts: a.text().map(|t| t.to_string()).collect(),
            }).collect(),
        }).collect(),
        _ => Vec::new(),
    }
}

/// The view of a hit: URL, title, snippet.
pub open spec fn hit_view(r: SearchResult) -> (Seq<char>, Seq<char>, Seq<char>) {
    (r.url@, r.title@, r.snippet@)
}

/// The hit a result row makes, if it makes one: a row whose first link goes
/// to an http(s) address off DuckDuckGo and whose title (the link's text,
/// trimmed) has more than three bytes; its snippet is the row's text.
pub open spec fn row_hit(r: RowText) -> Option<(Seq<char>, Seq<char>, Seq<char>)> {
    if r.1.len() == 0 {
        None
    } else {
        first_link_hit(r.0, r.1[0])
    }
}

/// The hit a row with text nodes `row` makes from its first link.
pub open spec fn first_link_hit(row: Seq<Seq<char>>, link: LinkText) -> Option<
    (Seq<char>, Seq<char>, Seq<char>),
> {
    match link {
        (Some(href), texts) => {
            let title = trim_ws(join(texts, Seq::empty()));
            if has_prefix(href, "http"@) && !has_substring(href, "duckduckgo.com"@) && title.len()
                > 0 && utf8_len(title) > 3 {
                Some((href, title, trim_ws(join(row, " "@))))
            } else {
                None
            }
        },
        _ => None,
    }
}

/// The hits that rows make, in order.
pub open spec fn row_hits(rs: Seq<RowText>) -> Seq<(Seq<char>, Seq<char>, Seq<char>)>
    decreases rs.len(),
{
    if rs.len() == 0 {
        Seq::empty()
    } else {
        let rest = row_hits(rs.drop_last());
        match row_hit(rs.last()) {
            Some(h) => rest.push(h),
            None => rest,
        }
    }
}

/// The rows that may hold results: after the first four (the page's
/// header), at most three per result wanted.
pub open spec fn result_window(rs: Seq<RowText>, max: nat) -> Seq<RowText> {
    let after = if rs.len() <= 4 {
        Seq::empty()
    } else {
        rs.skip(4)
    };
    after.take(if after.len() <= 3 * max { after.len() as int } else { (3 * max) as int })
}

/// The results of a DuckDuckGo Lite page: the first `max` hits of its
/// result window.
pub open spec fn lite_results(rs: Seq<RowText>, max: nat) -> Seq<(Seq<char>, Seq<char>, Seq<char>)> {
    let hits = row_hits(result_window(rs, max));
    hits.take(if hits.len() <= max { hits.len() as int } else { max as int })
}

/// `a` starts `b`.
pub open spec fn is_prefix_of<A>(a: Seq<A>, b: Seq<A>) -> bool {
    a.len() <= b.len() && b.take(a.len() as int) == a
}

/// The hits of the first rows start the hits of all rows.
proof fn lemma_row_hits_prefix(rs: Seq<RowText>, k: int)
    requires
        0 <= k <= rs.len(),
    ensures
        is_prefix_of(row_hits(rs.take(k)), row_hits(rs)),
    decreases rs.len() - k,
{
    if k < rs.len() {
        lemma_row_hits_prefix(rs, k + 1);
        let a = row_hits(rs.take(k));
        let b = row_hits(rs.take(k + 1));
        let c = row_hits(rs);
        assert(rs.take(k + 1).drop_last() =~= rs.take(k));
        assert(is_prefix_of(a, b)) by {
            assert(b.take(a.len() as int) =~= a);
        }
        assert(c.take(a.len() as int) =~= b.take(a.len() as int).take(a.len() as int));
        assert(c.take(a.len() as int) =~= a);
    } else {
        assert(rs.take(k) =~= rs);
        assert(row_hits(rs).take(row_hits(rs).len() as int) =~= row_hits(rs));
    }
}

/// Strings as character vectors.
fn char_vecs(v: &Vec<String>) -> (r: Vec<Vec<char>>)
    ensures
        views(r@) == string_views(v@),
{
    let mut r: Vec<Vec<char>> = Vec::new();
    for i in 0..v.len()
        invariant
            r.len() == i,
            views(r@) == string_views(v@).take(i as int),
    {
        let ghost prev = r@;
        r.push(chars_of(v[i].as_str()));
        proof {
            assert(r@ =~= prev.push(r@[i as int]));
            assert(views(r@) =~= views(prev).push(v@[i as int]@));
            assert(string_views(v@).take(i + 1) =~= string_views(v@).take(i as int).push(
                v@[i as int]@,
            ));
        }
    }
    assert(string_views(v@).take(v.len() as int) =~= string_views(v@));
    r
}

/// The hit a row makes, if it makes one.
fn hit_of_row(row: &TableRow) -> (h: Option<SearchResult>)
    ensures
        match h {
            Some(x) => row_hit(row_text(*row)) == Some(hit_view(x)),
            None => row_hit(row_text(*row)) is None,
        },
{
    proof {
        reveal_strlit("");
        assert(""@ =~= Seq::<char>::empty());
    }
    if row.links.len() == 0 {
        return None;
    }
    let link = &row.links[0];
    assert(row_text(*row).1[0] == link_text(*link));
    match &link.href {
        Some(href) => {
            let hv = chars_of(href.as_str());
            if starts_with_str(&hv, "http") && !contains_str(&hv, "duckduckgo.com") {
                let title = trim_whitespace(&join_str(&char_vecs(&link.texts), ""));
                if title.len() > 0 && utf8_longer_than(&title, 3) {
                    let snippet = trim_whitespace(&join_str(&char_vecs(&row.texts), " "));
                    return Some(
                        SearchResult {
                            url: href.clone(),
                            title: string_of(&title),
                            snippet: string_of(&snippet),
                        },
                    );
                }
            }
            None
        },
        None => None,
    }
}

/// The results of a DuckDuckGo Lite result page given as rows: at most
/// `max_results` hits, from the rows after the header, looking at no more
/// than three rows per result wanted.
pub fn parse_lite_results(rows: &Vec<TableRow>, max_results: usize) -> (results: Vec<SearchResult>)
    ensures
        results@.map_values(|r: SearchResult| hit_view(r)) == lite_results(
            rows_text(rows@),
            max_results as nat,
        ),
{
    let ghost rv = rows_text(rows@);
    let ghost w = result_window(rv, max_results as nat);
    let start: usize = if rows.len() <= 4 {
        rows.len()
    } else {
        4
    };
    let avail = rows.len() - start;
    let count: usize = if (avail as u128) <= 3 * (max_results as u128) {
        avail
    } else {
        (3 * (max_results as u128)) as usize
    };
    proof {
        assert(w.len() == count);
        assert forall|k: int| 0 <= k < count implies #[trigger] w[k] == row_text(rows@[start + k]) by {
            if rows.len() > 4 {
                assert(rv.skip(4)[k] == rv[k + 4]);
            }
        }
    }
    let mut results: Vec<SearchResult> = Vec::new();
    let mut k: usize = 0;
    while k < count
        invariant
            k <= count,
            start + count <= rows.len(),
            w.len() == count,
            w == result_window(rows_text(rows@), max_results as nat),
            forall|j: int| 0 <= j < count ==> #[trigger] w[j] == row_text(rows@[start + j]),
            results@.map_values(|r: SearchResult| hit_view(r)) == row_hits(w.take(k as int)),
            count > 0 ==> results.len() < max_results,
        decreases count - k,
    {
        proof {
            assert(w.take(k + 1).drop_last() =~= w.take(k as int));
            assert(w.take(k + 1).last() == w[k as int]);
        }
        let ghost prev = results@;
        match hit_of_row(&rows[start + k]) {
            Some(h) => {
                results.push(h);
                proof {
                    assert(results@ =~= prev.push(h));
                    assert(results@.map_values(|r: SearchResult| hit_view(r)) =~= prev.map_values(
                        |r: SearchResult| hit_view(r),
                    ).push(hit_view(h)));
                }
                if results.len() >= max_results {
                    proof {
                        lemma_row_hits_prefix(w, k + 1);
                        let hits = row_hits(w);
                        assert(hits.take(max_results as int) =~= row_hits(w.take(k + 1)));
                    }
                    return results;
                }
            },
            None => {},
        }
        k = k + 1;
    }
    proof {
        assert(w.take(count as int) =~= w);
    }
    results
}

/// The answer of a page that shows DuckDuckGo's bot check.
pub open spec fn bot_check(html: Seq<char>) -> Result<(), Seq<char>> {
    if has_substring(html, "anomaly"@) || has_substring(html, "challenge"@) || has_substring(
        html,
        "captcha"@,
    ) {
        Err("DuckDuckGo bot detection triggered - try again later or use Brave API"@)
    } else {
        Ok(())
    }
}

/// Refuse a result page that shows DuckDuckGo's bot check.
pub fn check_for_bot_wall(html: &str) -> (r: Result<(), String>)
    ensures
        match r {
            Ok(()) => bot_check(html@) is Ok,
            Err(m) => bot_check(html@) == Err::<(), Seq<char>>(m@),
        },
{
    let h = chars_of(html);
    if contains_str(&h, "anomaly") || contains_str(&h, "challenge") || contains_str(&h, "captcha") {
        Err("DuckDuckGo bot detection triggered - try again later or use Brave API".to_owned())
    } else {
        Ok(())
    }
}

/// The results of a DuckDuckGo Lite result page.
pub fn lite_page_results(html: &str, max_results: usize) -> (results: Vec<SearchResult>)
    ensures
        results@.map_values(|r: SearchResult| hit_view(r)) == lite_results(
            html_rows(html@, "tr"@, "a"@, "href"@),
            max_results as nat,
        ),
{
    let rows = table_rows(html, "tr", "a", "href");
    parse_lite_results(&rows, max_results)
}

// ---------------------------------------------------------------------------
// Query URLs
// ---------------------------------------------------------------------------

/// A byte that percent-encoding leaves alone: an ASCII letter or digit, or
/// one of `-`, `.`, `_`, `~`.
pub open spec fn unreserved(b: u8) -> bool {
    (48 <= b <= 57) || (65 <= b <= 90) || (97 <= b <= 122) || b == 45 || b == 46 || b == 95 || b
        == 126
}

/// An upper-case hexadecimal digit.
pub open spec fn hex_upper(d: int) -> char {
    if d < 10 {
        (48 + d) as char
    } else {
        (55 + d) as char
    }
}

/// Bytes percent-encoded: each byte that is not unreserved written `%XX`
/// with upper-case hexadecimal digits.
pub open spec fn percent_encoded(bytes: Seq<u8>) -> Seq<char>
    decreases bytes.len(),
{
    if bytes.len() == 0 {
        Seq::empty()
    } else {
        let b = bytes.last();
        percent_encoded(bytes.drop_last()) + if unreserved(b) {
            seq![b as char]
        } else {
            seq!['%', hex_upper((b / 16) as int), hex_upper((b % 16) as int)]
        }
    }
}

/// Percent-encodes the text with `urlencoding::encode`, which, as its
/// documentation says, encodes every UTF-8 byte except ASCII letters,
/// digits and `-`, `_`, `.`, `~` (its source writes upper-case digits).
#[verifier::external_body]
fn url_encode(s: &str) -> (r: String)
    ensures
        r@ == percent_encoded(encode_utf8(s@)),
{
    urlencoding::encode(s).into_owned()
}

/// The DuckDuckGo Lite URL that searches for `query`.
pub fn lite_search_url(query: &str) -> (u: String)
    ensures
        u@ == "https://lite.duckduckgo.com/lite/?q="@ + percent_encoded(encode_utf8(query@)),
{
    let mut u = "https://lite.duckduckgo.com/lite/?q=".to_owned();
    let e = url_encode(query);
    u.append(e.as_str());
    u
}

/// A number drawn at random below `n` with `fastrand::usize(..n)` (which
/// panics on an empty range, so `n` is not zero). Of the outcome only the
/// range is stated: it rests on chance.
#[verifier::external_body]
fn random_below(n: usize) -> (r: usize)
    requires
        n > 0,
    ensures
        r < n,
{
    fastrand::usize(..n)
}

/// The browsers whose user agents the DuckDuckGo searcher presents.
pub open spec fn user_agents() -> Seq<Seq<char>> {
    seq![
        "Mozilla/5.0 (Windows NT 10.0; Win64; x64) AppleWebKit/537.36 (KHTML, like Gecko) Chrome/120.0.0.0 Safari/537.36"@,
        "Mozilla/5.0 (Macintosh; Intel Mac OS X 10_15_7) AppleWebKit/537.36 (KHTML, like Gecko) Chrome/120.0.0.0 Safari/537.36"@,
        "Mozilla/5.0 (X11; Linux x86_64) AppleWebKit/537.36 (KHTML, like Gecko) Chrome/120.0.0.0 Safari/537.36"@,
        "Mozilla/5.0 (Windows NT 10.0; Win64; x64; rv:122.0) Gecko/20100101 Firefox/122.0"@,
        "Mozilla/5.0 (Macintosh; Intel Mac OS X 10_15_7) AppleWebKit/605.1.15 (KHTML, like Gecko) Version/17.2 Safari/605.1.15"@,
    ]
}

/// A user agent picked at random from the list.
pub fn pick_user_agent() -> (ua: String)
    ensures
        user_agents().contains(ua@),
{
    let mut agents: Vec<&str> = Vec::new();
    agents.push(
        "Mozilla/5.0 (Windows NT 10.0; Win64; x64) AppleWebKit/537.36 (KHTML, like Gecko) Chrome/120.0.0.0 Safari/537.36",
    );
    agents.push(
        "Mozilla/5.0 (Macintosh; Intel Mac OS X 10_15_7) AppleWebKit/537.36 (KHTML, like Gecko) Chrome/120.0.0.0 Safari/537.36",
    );
    agents.push(
        "Mozilla/5.0 (X11; Linux x86_64) AppleWebKit/537.36 (KHTML, like Gecko) Chrome/120.0.0.0 Safari/537.36",
    );
    agents.push("Mozilla/5.0 (Windows NT 10.0; Win64; x64; rv:122.0) Gecko/20100101 Firefox/122.0");
    agents.push(
        "Mozilla/5.0 (Macintosh; Intel Mac OS X 10_15_7) AppleWebKit/605.1.15 (KHTML, like Gecko) Version/17.2 Safari/605.1.15",
    );
    let i = random_below(agents.len());
    let ua = agents[i].to_owned();
    proof {
        assert(ua@ == user_agents()[i as int]);
    }
    ua
}

// ---------------------------------------------------------------------------
// SearXNG
// ---------------------------------------------------------------------------

/// The SearXNG instance used when none is configured.
pub open spec fn default_searxng() -> Seq<char> {
    "http://localhost:8888"@
}

/// The search endpoint of a SearXNG instance (the configured one, else the
/// default).
pub fn searxng_endpoint(base_url: Option<&str>) -> (u: String)
    ensures
        u@ == match base_url {
            Some(b) => b@,
            None => default_searxng(),
        } + "/search"@,
{
    let mut u = match base_url {
        Some(b) => b.to_owned(),
        None => "http://localhost:8888".to_owned(),
    };
    u.append("/search");
    u
}

/// The hits kept of those a back end returned: at most `max`, in order.
pub fn keep_hits(hits: Vec<SearchResult>, max: usize) -> (kept: Vec<SearchResult>)
    ensures
        kept@ == hits@.take(if hits.len() <= max { hits.len() as int } else { max as int }),
{
    let mut hits = hits;
    if hits.len() > max {
        hits.truncate(max);
    }
    hits
}

/// The error of a SearXNG answer that is not the JSON expected, showing its
/// first five hundred characters.
pub fn searxng_parse_error(body: &str) -> (m: String)
    ensures
        m@ == "Failed to parse SearXNG response. First 500 chars: "@ + body@.take(
            if body@.len() <= 500 {
                body@.len() as int
            } else {
                500
            },
        ),
{
    let b = chars_of(body);
    let mut m = chars_of("Failed to parse SearXNG response. First 500 chars: ");
    crate::text::extend(&mut m, &crate::text::take_chars(&b, 500));
    string_of(&m)
}

/// A result page never yields more results than were asked for.
pub proof fn lemma_lite_results_bounded(rs: Seq<RowText>, max: nat)
    ensures
        lite_results(rs, max).len() <= max,
{
}

/// A page is refused as DuckDuckGo's bot check exactly when it mentions
/// "anomaly", "challenge" or "captcha".
pub proof fn lemma_bot_wall_words(html: Seq<char>)
    ensures
        bot_check(html) is Err <==> (has_substring(html, "anomaly"@) || has_substring(
            html,
            "challenge"@,
        ) || has_substring(html, "captcha"@)),
{
}

/// Every hit that rows make is the hit of one of the rows.
proof fn lemma_row_hits_members(rs: Seq<RowText>)
    ensures
        forall|i: int|
            #![trigger row_hits(rs)[i]]
            0 <= i < row_hits(rs).len() ==> exists|k: int|
                0 <= k < rs.len() && row_hit(#[trigger] rs[k]) == Some(row_hits(rs)[i]),
    decreases rs.len(),
{
    if rs.len() > 0 {
        let front = rs.drop_last();
        lemma_row_hits_members(front);
        let h = row_hits(rs);
        let f = row_hits(front);
        assert forall|i: int| #![trigger h[i]] 0 <= i < h.len() implies exists|k: int|
            0 <= k < rs.len() && row_hit(#[trigger] rs[k]) == Some(h[i]) by {
            if i < f.len() {
                assert(h[i] == f[i]);
                let k = choose|k: int| 0 <= k < front.len() && row_hit(#[trigger] front[k]) == Some(f[i]);
                assert(rs[k] == front[k]);
            } else {
                assert(rs[rs.len() - 1] == rs.last());
            }
        }
    }
}

/// Where each result of a DuckDuckGo Lite page comes from: a row after the
/// first four and among the first three per result wanted, whose first link
/// has an http(s) target off duckduckgo.com; the result's URL is that
/// target, its title the link's text trimmed (more than three bytes), and
/// its snippet the row's text joined by spaces and trimmed.
pub proof fn lemma_lite_results_from_rows(rs: Seq<RowText>, max: nat)
    ensures
        forall|i: int|
            #![trigger lite_results(rs, max)[i]]
            0 <= i < lite_results(rs, max).len() ==> exists|k: int|
                4 <= k < rs.len() && k < 4 + 3 * max && #[trigger] rs[k].1.len() > 0 && ({
                    let r = lite_results(rs, max)[i];
                    let link = rs[k].1[0];
                    &&& link.0 == Some(r.0)
                    &&& has_prefix(r.0, "http"@)
                    &&& !has_substring(r.0, "duckduckgo.com"@)
                    &&& r.1 == trim_ws(join(link.1, Seq::empty()))
                    &&& utf8_len(r.1) > 3
                    &&& r.2 == trim_ws(join(rs[k].0, " "@))
                }),
{
    let w = result_window(rs, max);
    let hits = row_hits(w);
    lemma_row_hits_members(w);
    let res = lite_results(rs, max);
    assert forall|i: int| #![trigger res[i]] 0 <= i < res.len() implies exists|k: int|
        4 <= k < rs.len() && k < 4 + 3 * max && #[trigger] rs[k].1.len() > 0 && ({
            let r = res[i];
            let link = rs[k].1[0];
            &&& link.0 == Some(r.0)
            &&& has_prefix(r.0, "http"@)
            &&& !has_substring(r.0, "duckduckgo.com"@)
            &&& r.1 == trim_ws(join(link.1, Seq::empty()))
            &&& utf8_len(r.1) > 3
            &&& r.2 == trim_ws(join(rs[k].0, " "@))
        }) by {
        assert(res[i] == hits[i]);
        let k = choose|k: int| 0 <= k < w.len() && row_hit(#[trigger] w[k]) == Some(hits[i]);
        assert(rs.len() > 4);
        assert(w[k] == rs[k + 4]);
        let row = rs[k + 4];
        assert(row.1.len() > 0);
    }
}

/// Bytes read as characters.
pub open spec fn byte_chars(bytes: Seq<u8>) -> Seq<char> {
    Seq::new(bytes.len(), |i: int| bytes[i] as char)
}

/// Bytes that are all unreserved are written as they are.
proof fn lemma_unreserved_bytes(bytes: Seq<u8>)
    requires
        forall|i: int| 0 <= i < bytes.len() ==> unreserved(#[trigger] bytes[i]),
    ensures
        percent_encoded(bytes) == byte_chars(bytes),
    decreases bytes.len(),
{
    if bytes.len() > 0 {
        lemma_unreserved_bytes(bytes.drop_last());
        assert(byte_chars(bytes) =~= byte_chars(bytes.drop_last()).push(bytes.last() as char));
    } else {
        assert(byte_chars(bytes) =~= Seq::<char>::empty());
    }
}

/// Text made only of ASCII letters, digits, `-`, `.`, `_` and `~` is left as
/// it is by the query encoding.
pub proof fn lemma_plain_query_unchanged(s: Seq<char>)
    requires
        forall|i: int| 0 <= i < s.len() ==> #[trigger] unreserved_char(s[i]),
    ensures
        percent_encoded(encode_utf8(s)) == s,
{
    assert(vstd::utf8::is_ascii_chars(s)) by {
        assert forall|i: int| 0 <= i < s.len() implies '\0' <= #[trigger] s[i] <= '\u{7f}' by {
            assert(unreserved_char(s[i]));
        }
    }
    vstd::utf8::is_ascii_chars_encode_utf8(s);
    let b = encode_utf8(s);
    assert forall|i: int| 0 <= i < b.len() implies unreserved(#[trigger] b[i]) by {
        assert(s[i] as u8 == b[i]);
        assert(unreserved_char(s[i]));
    }
    lemma_unreserved_bytes(b);
    assert forall|i: int| 0 <= i < s.len() implies #[trigger] byte_chars(b)[i] == s[i] by {
        assert(s[i] as u8 == b[i]);
        assert(unreserved_char(s[i]));
    }
    assert(byte_chars(b) =~= s);
}

/// An ASCII letter or digit, or one of `-`, `.`, `_`, `~`.
pub open spec fn unreserved_char(c: char) -> bool {
    ('0' <= c <= '9') || ('A' <= c <= 'Z') || ('a' <= c <= 'z') || c == '-' || c == '.' || c == '_'
        || c == '~'
}

} // verus!
