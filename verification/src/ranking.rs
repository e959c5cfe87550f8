//! Ranking of search hits: one hit per URL (the first one seen), ordered by
//! relevance to the query (ties by URL), cut to the page budget.
use vstd::prelude::*;
use crate::models::SearchResult;
use crate::query_expansion::{relevance_points, score_relevance_points};
use crate::text::{
    chars_of, lemma_lex_asymmetric, lemma_lex_irreflexive, lemma_lex_total, lemma_lex_transitive,
    lex_less, lex_lt,
};

verus! {

/// The relevance of a hit to the query, in half-points.
pub open spec fn points_of(q: Seq<char>, r: SearchResult) -> int {
    relevance_points(q, r.title@, r.snippet@)
}

/// `a` is listed before `b`: more relevant, or as relevant with a smaller URL.
pub open spec fn ranks_before(q: Seq<char>, a: SearchResult, b: SearchResult) -> bool {
    points_of(q, a) > points_of(q, b) || (points_of(q, a) == points_of(q, b) && lex_lt(
        a.url@,
        b.url@,
    ))
}

/// Some hit of `s` has URL `u`.
pub open spec fn has_url(s: Seq<SearchResult>, u: Seq<char>) -> bool {
    exists|i: int| 0 <= i < s.len() && (#[trigger] s[i]).url@ == u
}

/// `s[k]` is the first hit of `s` with its URL.
pub open spec fn first_occurrence(s: Seq<SearchResult>, k: int) -> bool {
    0 <= k < s.len() && forall|j: int| 0 <= j < k ==> (#[trigger] s[j]).url@ != s[k].url@
}

/// `x` is the first hit of `s` with its URL.
pub open spec fn is_first_hit(s: Seq<SearchResult>, x: SearchResult) -> bool {
    exists|k: int| first_occurrence(s, k) && s[k] == x
}

/// The first hit for each URL, in the order the URLs first appear.
pub open spec fn dedup(s: Seq<SearchResult>) -> Seq<SearchResult>
    decreases s.len(),
{
    if s.len() == 0 {
        seq![]
    } else {
        let d = dedup(s.drop_last());
        if has_url(d, s.last().url@) {
            d
        } else {
            d.push(s.last())
        }
    }
}

/// Each hit of `r` comes before every later one.
pub open spec fn strictly_ranked(q: Seq<char>, r: Seq<SearchResult>) -> bool {
    forall|i: int, j: int| 0 <= i < j < r.len() ==> ranks_before(q, #[trigger] r[i], #[trigger] r[j])
}

/// `r` is the ranking of the hits `s` for query `q` within a budget of `max`
/// pages: at most `max` hits, each the first hit of `s` with its URL, in
/// ranking order, and every URL of `s` that is left out ranks after all of
/// them (which can only happen when the budget is used up).
pub open spec fn is_ranking(q: Seq<char>, s: Seq<SearchResult>, max: int, r: Seq<SearchResult>) -> bool {
    &&& r.len() <= max
    &&& strictly_ranked(q, r)
    &&& forall|i: int| 0 <= i < r.len() ==> is_first_hit(s, #[trigger] r[i])
    &&& forall|k: int|
        first_occurrence(s, k) && !has_url(r, s[k].url@) ==> r.len() == max && forall|i: int|
            0 <= i < r.len() ==> ranks_before(q, #[trigger] r[i], s[k])
}

// ---------------------------------------------------------------------------
// The ranking order
// ---------------------------------------------------------------------------

/// No hit ranks before itself.
pub proof fn lemma_ranks_irreflexive(q: Seq<char>, a: SearchResult)
    ensures
        !ranks_before(q, a, a),
{
    lemma_lex_irreflexive(a.url@);
}

/// The ranking order is transitive.
pub proof fn lemma_ranks_transitive(q: Seq<char>, a: SearchResult, b: SearchResult, c: SearchResult)
    requires
        ranks_before(q, a, b),
        ranks_before(q, b, c),
    ensures
        ranks_before(q, a, c),
{
    if points_of(q, a) == points_of(q, b) && points_of(q, b) == points_of(q, c) {
        lemma_lex_transitive(a.url@, b.url@, c.url@);
    }
}

/// Hits with different URLs are ordered one way or the other.
pub proof fn lemma_ranks_total(q: Seq<char>, a: SearchResult, b: SearchResult)
    requires
        a.url@ != b.url@,
    ensures
        ranks_before(q, a, b) || ranks_before(q, b, a),
{
    lemma_lex_total(a.url@, b.url@);
}

/// The ranking order is asymmetric.
pub proof fn lemma_ranks_asymmetric(q: Seq<char>, a: SearchResult, b: SearchResult)
    requires
        ranks_before(q, a, b),
    ensures
        !ranks_before(q, b, a),
{
    if points_of(q, a) == points_of(q, b) {
        lemma_lex_asymmetric(a.url@, b.url@);
    }
}

// ---------------------------------------------------------------------------
// Facts about `dedup`
// ---------------------------------------------------------------------------

/// `dedup` keeps exactly the URLs of its input.
pub proof fn lemma_dedup_urls(s: Seq<SearchResult>, u: Seq<char>)
    ensures
        has_url(dedup(s), u) == has_url(s, u),
    decreases s.len(),
{
    if s.len() > 0 {
        let p = s.drop_last();
        let d = dedup(p);
        let x = s.last();
        lemma_dedup_urls(p, u);
        lemma_dedup_urls(p, x.url@);
        if has_url(s, u) {
            let i = choose|i: int| 0 <= i < s.len() && (#[trigger] s[i]).url@ == u;
            if i < s.len() - 1 {
                assert(p[i] == s[i]);
                assert(has_url(p, u));
            } else if !has_url(d, x.url@) {
                assert(dedup(s)[d.len() as int] == x);
            }
        }
        if has_url(p, u) {
            let i = choose|i: int| 0 <= i < p.len() && (#[trigger] p[i]).url@ == u;
            assert(s[i] == p[i]);
        }
        if has_url(dedup(s), u) && !has_url(d, x.url@) {
            let i = choose|i: int| 0 <= i < dedup(s).len() && (#[trigger] dedup(s)[i]).url@ == u;
            if i < d.len() {
                assert(dedup(s)[i] == d[i]);
            } else {
                assert(s[s.len() - 1] == x);
            }
        }
        if has_url(d, u) && !has_url(d, x.url@) {
            let i = choose|i: int| 0 <= i < d.len() && (#[trigger] d[i]).url@ == u;
            assert(dedup(s)[i] == d[i]);
        }
    }
}

/// Below the last position, first occurrences in `s` and in `s` without its
/// last hit agree.
proof fn lemma_first_occurrence_prefix(s: Seq<SearchResult>, k: int)
    requires
        s.len() > 0,
        0 <= k < s.len() - 1,
    ensures
        first_occurrence(s, k) == first_occurrence(s.drop_last(), k),
{
    let p = s.drop_last();
    assert(s[k] == p[k]);
    assert forall|j: int| 0 <= j < k implies (#[trigger] s[j]) == p[j] by {}
}

/// The last hit of `s` is a first occurrence exactly when its URL is new.
proof fn lemma_first_occurrence_last(s: Seq<SearchResult>)
    requires
        s.len() > 0,
    ensures
        first_occurrence(s, s.len() - 1) == !has_url(s.drop_last(), s.last().url@),
{
    let p = s.drop_last();
    let n = s.len() - 1;
    if has_url(p, s.last().url@) {
        let j = choose|j: int| 0 <= j < p.len() && (#[trigger] p[j]).url@ == s.last().url@;
        assert(s[j] == p[j]);
    } else {
        assert forall|j: int| 0 <= j < n implies (#[trigger] s[j]).url@ != s[n].url@ by {
            assert(s[j] == p[j]);
            if s[j].url@ == s[n].url@ {
                assert(has_url(p, s.last().url@));
            }
        }
    }
}

/// Each hit that `dedup` keeps is the first hit of the input with its URL.
pub proof fn lemma_dedup_members(s: Seq<SearchResult>)
    ensures
        forall|i: int| 0 <= i < dedup(s).len() ==> is_first_hit(s, #[trigger] dedup(s)[i]),
    decreases s.len(),
{
    if s.len() > 0 {
        let p = s.drop_last();
        let d = dedup(p);
        let e = dedup(s);
        lemma_dedup_members(p);
        lemma_dedup_urls(p, s.last().url@);
        lemma_first_occurrence_last(s);
        assert forall|i: int| 0 <= i < e.len() implies is_first_hit(s, #[trigger] e[i]) by {
            if i < d.len() {
                assert(e[i] == d[i]);
                assert(is_first_hit(p, d[i]));
                let k = choose|k: int| first_occurrence(p, k) && p[k] == d[i];
                lemma_first_occurrence_prefix(s, k);
                assert(s[k] == p[k]);
                assert(first_occurrence(s, k) && s[k] == e[i]);
            } else {
                assert(e[i] == s[s.len() - 1]);
                assert(first_occurrence(s, s.len() - 1));
            }
        }
    }
}

/// `dedup` keeps the first hit for every URL.
pub proof fn lemma_dedup_complete(s: Seq<SearchResult>)
    ensures
        forall|k: int|
            first_occurrence(s, k) ==> exists|i: int|
                0 <= i < dedup(s).len() && #[trigger] dedup(s)[i] == s[k],
    decreases s.len(),
{
    if s.len() > 0 {
        let p = s.drop_last();
        let d = dedup(p);
        let e = dedup(s);
        lemma_dedup_complete(p);
        lemma_dedup_urls(p, s.last().url@);
        lemma_first_occurrence_last(s);
        assert forall|k: int| first_occurrence(s, k) implies exists|i: int|
            0 <= i < e.len() && #[trigger] e[i] == s[k] by {
            if k < s.len() - 1 {
                lemma_first_occurrence_prefix(s, k);
                let i = choose|i: int| 0 <= i < d.len() && #[trigger] d[i] == p[k];
                assert(e[i] == d[i]);
                assert(s[k] == p[k]);
            } else {
                assert(e[d.len() as int] == s[k]);
            }
        }
    }
}

/// The URLs that `dedup` keeps are distinct.
pub proof fn lemma_dedup_distinct(s: Seq<SearchResult>)
    ensures
        forall|i: int, j: int|
            0 <= i < j < dedup(s).len() ==> (#[trigger] dedup(s)[i]).url@ != (
            #[trigger] dedup(s)[j]).url@,
    decreases s.len(),
{
    if s.len() > 0 {
        let p = s.drop_last();
        let d = dedup(p);
        let e = dedup(s);
        let x = s.last();
        lemma_dedup_distinct(p);
        assert forall|i: int, j: int| 0 <= i < j < e.len() implies (#[trigger] e[i]).url@ != (
        #[trigger] e[j]).url@ by {
            if j < d.len() {
                assert(e[i] == d[i] && e[j] == d[j]);
            } else {
                assert(e[i] == d[i]);
                assert(e[j] == x);
                if d[i].url@ == x.url@ {
                    assert(has_url(d, x.url@));
                }
            }
        }
    }
}

/// A ranking never lists a URL twice.
pub proof fn lemma_ranking_distinct_urls(
    q: Seq<char>,
    s: Seq<SearchResult>,
    max: int,
    r: Seq<SearchResult>,
    i: int,
    j: int,
)
    requires
        is_ranking(q, s, max, r),
        0 <= i < j < r.len(),
    ensures
        r[i].url@ != r[j].url@,
{
    assert(is_first_hit(s, r[i]) && is_first_hit(s, r[j]));
    let ki = choose|k: int| first_occurrence(s, k) && s[k] == r[i];
    let kj = choose|k: int| first_occurrence(s, k) && s[k] == r[j];
    if r[i].url@ == r[j].url@ {
        if ki < kj {
            assert(s[ki].url@ != s[kj].url@);
        } else if kj < ki {
            assert(s[kj].url@ != s[ki].url@);
        } else {
            assert(ranks_before(q, r[i], r[j]));
            lemma_ranks_irreflexive(q, r[i]);
        }
    }
}

/// Two first hits with one URL are the same hit.
proof fn lemma_first_hits_by_url(s: Seq<SearchResult>, x: SearchResult, y: SearchResult)
    requires
        is_first_hit(s, x),
        is_first_hit(s, y),
        x.url@ == y.url@,
    ensures
        x == y,
{
    let kx = choose|k: int| first_occurrence(s, k) && s[k] == x;
    let ky = choose|k: int| first_occurrence(s, k) && s[k] == y;
    if kx < ky {
        assert(s[kx].url@ != s[ky].url@);
    } else if ky < kx {
        assert(s[ky].url@ != s[kx].url@);
    }
}

/// Rankings that agree before position `i` agree at `i`, or both end there.
proof fn lemma_rankings_agree_at(
    q: Seq<char>,
    s: Seq<SearchResult>,
    max: int,
    r1: Seq<SearchResult>,
    r2: Seq<SearchResult>,
    i: int,
)
    requires
        is_ranking(q, s, max, r1),
        is_ranking(q, s, max, r2),
        0 <= i,
        i <= r1.len(),
        i <= r2.len(),
        forall|j: int| 0 <= j < i ==> r1[j] == r2[j],
    ensures
        i < r1.len() <==> i < r2.len(),
        i < r1.len() ==> r1[i] == r2[i],
{
    if i < r1.len() && i < r2.len() {
        let a = r1[i];
        let b = r2[i];
        if a != b {
            assert(is_first_hit(s, a) && is_first_hit(s, b));
            if a.url@ == b.url@ {
                lemma_first_hits_by_url(s, a, b);
            }
            lemma_ranks_total(q, a, b);
            if ranks_before(q, a, b) {
                lemma_ranking_misses(q, s, max, r1, r2, i, a, b);
            } else {
                lemma_ranking_misses(q, s, max, r2, r1, i, b, a);
            }
        }
    } else if i < r2.len() {
        lemma_ranking_ends(q, s, max, r1, r2, i);
    } else if i < r1.len() {
        lemma_ranking_ends(q, s, max, r2, r1, i);
    }
}

/// Where two rankings first differ, the hit that ranks before the other's
/// cannot be missing from the other ranking, nor present in it.
proof fn lemma_ranking_misses(
    q: Seq<char>,
    s: Seq<SearchResult>,
    max: int,
    r1: Seq<SearchResult>,
    r2: Seq<SearchResult>,
    i: int,
    a: SearchResult,
    b: SearchResult,
)
    requires
        is_ranking(q, s, max, r1),
        is_ranking(q, s, max, r2),
        0 <= i < r1.len(),
        i < r2.len(),
        forall|j: int| 0 <= j < i ==> r1[j] == r2[j],
        a == r1[i],
        b == r2[i],
    ensures
        !ranks_before(q, a, b),
{
    if !ranks_before(q, a, b) {
        return;
    }
    lemma_ranks_asymmetric(q, a, b);
    let ka = choose|k: int| first_occurrence(s, k) && s[k] == a;
    if has_url(r2, a.url@) {
        let j = choose|j: int| 0 <= j < r2.len() && (#[trigger] r2[j]).url@ == a.url@;
        assert(is_first_hit(s, r2[j]));
        lemma_first_hits_by_url(s, r2[j], a);
        if j < i {
            assert(r1[j] == r2[j]);
            lemma_ranking_distinct_urls(q, s, max, r1, j, i);
        } else if j == i {
        } else {
            assert(ranks_before(q, r2[i], r2[j]));
        }
    } else {
        assert(first_occurrence(s, ka));
        assert(ranks_before(q, r2[i], s[ka]));
    }
}

/// A ranking that ends where another goes on would have to be full, so the
/// other would be over the budget.
proof fn lemma_ranking_ends(
    q: Seq<char>,
    s: Seq<SearchResult>,
    max: int,
    r1: Seq<SearchResult>,
    r2: Seq<SearchResult>,
    i: int,
)
    requires
        is_ranking(q, s, max, r1),
        is_ranking(q, s, max, r2),
        i == r1.len(),
        i <= r2.len(),
        forall|j: int| 0 <= j < i ==> r1[j] == r2[j],
    ensures
        r2.len() == i,
{
    if i == r2.len() {
        return;
    }
    let b = r2[i];
    assert(is_first_hit(s, b));
    let kb = choose|k: int| first_occurrence(s, k) && s[k] == b;
    if has_url(r1, b.url@) {
        let j = choose|j: int| 0 <= j < r1.len() && (#[trigger] r1[j]).url@ == b.url@;
        assert(r1[j] == r2[j]);
        lemma_ranking_distinct_urls(q, s, max, r2, j, i);
    } else {
        assert(first_occurrence(s, kb));
        assert(r1.len() == max);
    }
}

/// The ranking of hits for a query within a budget is unique: whatever
/// produces a ranking produces this one.
pub proof fn lemma_ranking_unique(
    q: Seq<char>,
    s: Seq<SearchResult>,
    max: int,
    r1: Seq<SearchResult>,
    r2: Seq<SearchResult>,
)
    requires
        is_ranking(q, s, max, r1),
        is_ranking(q, s, max, r2),
    ensures
        r1 == r2,
{
    lemma_rankings_agree_from(q, s, max, r1, r2, 0);
}

/// Rankings that agree before position `i` agree everywhere.
proof fn lemma_rankings_agree_from(
    q: Seq<char>,
    s: Seq<SearchResult>,
    max: int,
    r1: Seq<SearchResult>,
    r2: Seq<SearchResult>,
    i: int,
)
    requires
        is_ranking(q, s, max, r1),
        is_ranking(q, s, max, r2),
        0 <= i <= r1.len(),
        i <= r2.len(),
        forall|j: int| 0 <= j < i ==> r1[j] == r2[j],
    ensures
        r1 == r2,
    decreases r1.len() - i,
{
    lemma_rankings_agree_at(q, s, max, r1, r2, i);
    if i < r1.len() {
        lemma_rankings_agree_from(q, s, max, r1, r2, i + 1);
    } else {
        assert(r1 =~= r2);
    }
}

// ---------------------------------------------------------------------------
// Executable ranking
// ---------------------------------------------------------------------------

/// A hit with its relevance.
struct Scored {
    points: u128,
    result: SearchResult,
}

/// A copy of a hit.
pub fn copy_result(r: &SearchResult) -> (c: SearchResult)
    ensures
        c == *r,
{
    SearchResult { url: r.url.clone(), title: r.title.clone(), snippet: r.snippet.clone() }
}

/// Does some hit of `d` have the URL `u`?
fn url_present(d: &Vec<SearchResult>, u: &String) -> (r: bool)
    ensures
        r == has_url(d@, u@),
{
    for i in 0..d.len()
        invariant
            forall|k: int| 0 <= k < i ==> (#[trigger] d@[k]).url@ != u@,
    {
        if d[i].url == *u {
            return true;
        }
    }
    false
}

/// The first hit for each URL, in the order the URLs first appear.
fn distinct_by_url(s: &Vec<SearchResult>) -> (d: Vec<SearchResult>)
    ensures
        d@ == dedup(s@),
{
    let mut d: Vec<SearchResult> = Vec::new();
    for k in 0..s.len()
        invariant
            d@ == dedup(s@.take(k as int)),
    {
        proof {
            assert(s@.take(k + 1).drop_last() =~= s@.take(k as int));
            assert(s@.take(k + 1).last() == s@[k as int]);
        }
        if !url_present(&d, &s[k].url) {
            d.push(copy_result(&s[k]));
        }
    }
    assert(s@.take(s.len() as int) =~= s@);
    d
}

/// Does the scored hit `a` rank before `x`, whose relevance is `p`?
fn before(Ghost(q): Ghost<Seq<char>>, a: &Scored, p: u128, x: &SearchResult) -> (r: bool)
    requires
        a.points == points_of(q, a.result),
        p == points_of(q, *x),
    ensures
        r == ranks_before(q, a.result, *x),
{
    if a.points > p {
        true
    } else if a.points < p {
        false
    } else {
        lex_less(&chars_of(a.result.url.as_str()), &chars_of(x.url.as_str()))
    }
}

/// The hits of a scored list.
spec fn results_of(v: Seq<Scored>) -> Seq<SearchResult> {
    v.map_values(|x: Scored| x.result)
}

/// Every element of `a` occurs in `b`.
pub open spec fn all_in<A>(a: Seq<A>, b: Seq<A>) -> bool {
    forall|j: int| 0 <= j < a.len() ==> b.contains(#[trigger] a[j])
}

/// Inserting an element that `b` holds keeps `a` within `b`.
proof fn lemma_all_in_insert_left<A>(a: Seq<A>, b: Seq<A>, pos: int, x: A)
    requires
        all_in(a, b),
        b.contains(x),
        0 <= pos <= a.len(),
    ensures
        all_in(a.insert(pos, x), b),
{
    let n = a.insert(pos, x);
    assert forall|j: int| 0 <= j < n.len() implies b.contains(#[trigger] n[j]) by {
        if j < pos {
            assert(n[j] == a[j]);
        } else if j > pos {
            assert(n[j] == a[j - 1]);
        }
    }
}

/// Inserting into `b` keeps `a` within it, and `b` then holds the new element.
proof fn lemma_all_in_insert_right<A>(a: Seq<A>, b: Seq<A>, pos: int, x: A)
    requires
        all_in(a, b),
        0 <= pos <= b.len(),
    ensures
        all_in(a, b.insert(pos, x)),
        b.insert(pos, x).contains(x),
{
    let n = b.insert(pos, x);
    assert(n[pos] == x);
    assert forall|j: int| 0 <= j < a.len() implies n.contains(#[trigger] a[j]) by {
        let i = choose|i: int| 0 <= i < b.len() && b[i] == a[j];
        if i < pos {
            assert(n[i] == b[i]);
        } else {
            assert(n[i + 1] == b[i]);
        }
    }
}

/// Appending to `b` keeps `a` within it, and `b` then holds the new element.
proof fn lemma_all_in_push<A>(a: Seq<A>, b: Seq<A>, x: A)
    requires
        all_in(a, b),
    ensures
        all_in(a, b.push(x)),
        b.push(x).contains(x),
{
    let n = b.push(x);
    assert(n[b.len() as int] == x);
    assert forall|j: int| 0 <= j < a.len() implies n.contains(#[trigger] a[j]) by {
        let i = choose|i: int| 0 <= i < b.len() && b[i] == a[j];
        assert(n[i] == b[i]);
    }
}

/// Inserting `x` where everything before ranks before it and it ranks before
/// everything after keeps a list ranked.
proof fn lemma_insert_ranked(q: Seq<char>, s: Seq<SearchResult>, pos: int, x: SearchResult)
    requires
        strictly_ranked(q, s),
        0 <= pos <= s.len(),
        forall|i: int| 0 <= i < pos ==> ranks_before(q, #[trigger] s[i], x),
        forall|j: int| pos <= j < s.len() ==> ranks_before(q, x, #[trigger] s[j]),
    ensures
        strictly_ranked(q, s.insert(pos, x)),
{
    let n = s.insert(pos, x);
    assert forall|i: int, j: int| 0 <= i < j < n.len() implies ranks_before(
        q,
        #[trigger] n[i],
        #[trigger] n[j],
    ) by {
        if j < pos {
            assert(n[i] == s[i] && n[j] == s[j]);
        } else if j == pos {
            assert(n[i] == s[i]);
        } else if i == pos {
            assert(n[j] == s[j - 1]);
        } else if i < pos {
            assert(n[i] == s[i] && n[j] == s[j - 1]);
        } else {
            assert(n[i] == s[i - 1] && n[j] == s[j - 1]);
        }
    }
}

/// The first `n` hits of a ranked arrangement of `dedup(s)` form the ranking
/// of `s`, when `n` is the budget or all of it.
proof fn lemma_prefix_is_ranking(
    q: Seq<char>,
    s: Seq<SearchResult>,
    max: int,
    rs: Seq<SearchResult>,
    n: int,
)
    requires
        strictly_ranked(q, rs),
        all_in(rs, dedup(s)),
        all_in(dedup(s), rs),
        n == (if max < rs.len() {
            max
        } else {
            rs.len() as int
        }),
        0 <= max,
    ensures
        is_ranking(q, s, max, rs.take(n)),
{
    let r = rs.take(n);
    let e = dedup(s);
    lemma_dedup_members(s);
    lemma_dedup_complete(s);
    assert forall|i: int, j: int| 0 <= i < j < r.len() implies ranks_before(
        q,
        #[trigger] r[i],
        #[trigger] r[j],
    ) by {
        assert(r[i] == rs[i] && r[j] == rs[j]);
    }
    assert forall|i: int| 0 <= i < r.len() implies is_first_hit(s, #[trigger] r[i]) by {
        assert(r[i] == rs[i]);
        assert(e.contains(rs[i]));
        let i0 = choose|i0: int| 0 <= i0 < e.len() && e[i0] == rs[i];
        assert(is_first_hit(s, e[i0]));
    }
    assert forall|k: int| first_occurrence(s, k) && !has_url(r, s[k].url@) implies r.len() == max
        && forall|i: int| 0 <= i < r.len() ==> ranks_before(q, #[trigger] r[i], s[k]) by {
        let i0 = choose|i0: int| 0 <= i0 < e.len() && #[trigger] e[i0] == s[k];
        assert(rs.contains(e[i0]));
        let j0 = choose|j: int| 0 <= j < rs.len() && rs[j] == e[i0];
        if j0 < n {
            assert(r[j0] == rs[j0]);
            assert(has_url(r, s[k].url@));
        }
        assert forall|i: int| 0 <= i < r.len() implies ranks_before(q, #[trigger] r[i], s[k]) by {
            assert(r[i] == rs[i]);
            assert(ranks_before(q, rs[i], rs[j0]));
        }
    }
    assert(r.len() <= max);
    assert(strictly_ranked(q, r));
    assert(forall|k: int|
        first_occurrence(s, k) && !has_url(r, s[k].url@) ==> r.len() == max && forall|i: int|
            0 <= i < r.len() ==> ranks_before(q, #[trigger] r[i], s[k]));
}

/// Rank search hits for a query: keep the first hit for each URL, order the
/// hits by relevance (most relevant first, ties by URL) and keep at most
/// `max_pages` of them.
pub fn rank_results(query: &str, results: &Vec<SearchResult>, max_pages: usize) -> (ranked: Vec<
    SearchResult,
>)
    ensures
        is_ranking(query@, results@, max_pages as int, ranked@),
{
    let ghost q = query@;
    let d = distinct_by_url(results);
    proof {
        lemma_dedup_members(results@);
        lemma_dedup_complete(results@);
        lemma_dedup_distinct(results@);
        assert(d@.take(0) =~= Seq::<SearchResult>::empty());
    }
    let mut sorted: Vec<Scored> = Vec::new();
    for k in 0..d.len()
        invariant
            q == query@,
            d@ == dedup(results@),
            forall|i: int, j: int|
                0 <= i < j < d.len() ==> (#[trigger] d@[i]).url@ != (#[trigger] d@[j]).url@,
            sorted.len() == k,
            forall|j: int|
                0 <= j < sorted.len() ==> (#[trigger] sorted@[j]).points == points_of(
                    q,
                    sorted@[j].result,
                ),
            strictly_ranked(q, results_of(sorted@)),
            all_in(results_of(sorted@), d@.take(k as int)),
            all_in(d@.take(k as int), results_of(sorted@)),
    {
        let x = copy_result(&d[k]);
        let p = score_relevance_points(query, x.title.as_str(), x.snippet.as_str());
        let ghost rs = results_of(sorted@);
        let mut pos: usize = 0;
        while pos < sorted.len() && before(Ghost(q), &sorted[pos], p, &x)
            invariant
                pos <= sorted.len(),
                p == points_of(q, x),
                rs == results_of(sorted@),
                forall|j: int|
                    0 <= j < sorted.len() ==> (#[trigger] sorted@[j]).points == points_of(
                        q,
                        sorted@[j].result,
                    ),
                forall|i: int| 0 <= i < pos ==> ranks_before(q, #[trigger] rs[i], x),
            decreases sorted.len() - pos,
        {
            pos = pos + 1;
        }
        proof {
            if pos < sorted.len() {
                let y = rs[pos as int];
                assert(d@.take(k as int).contains(y));
                let i0 = choose|i: int| 0 <= i < k && d@.take(k as int)[i] == y;
                assert(d@[i0] == y);
                assert(d@[i0].url@ != d@[k as int].url@);
                lemma_ranks_total(q, y, x);
                assert forall|j: int| pos <= j < rs.len() implies ranks_before(
                    q,
                    x,
                    #[trigger] rs[j],
                ) by {
                    if j > pos {
                        lemma_ranks_transitive(q, x, y, rs[j]);
                    }
                }
            }
            lemma_insert_ranked(q, rs, pos as int, x);
            assert(d@.take(k + 1) =~= d@.take(k as int).push(x));
            lemma_all_in_push(rs, d@.take(k as int), x);
            lemma_all_in_insert_left(rs, d@.take(k + 1), pos as int, x);
            lemma_all_in_insert_right(d@.take(k as int), rs, pos as int, x);
            lemma_all_in_push(d@.take(k as int), rs.insert(pos as int, x), x);
        }
        let ghost old_sorted = sorted@;
        sorted.insert(pos, Scored { points: p, result: x });
        proof {
            let ns = sorted@;
            assert(results_of(ns) =~= rs.insert(pos as int, x));
            assert forall|j: int| 0 <= j < ns.len() implies (#[trigger] ns[j]).points == points_of(
                q,
                ns[j].result,
            ) by {
                if j < pos {
                    assert(ns[j] == old_sorted[j]);
                } else if j > pos {
                    assert(ns[j] == old_sorted[j - 1]);
                }
            }
            assert forall|j: int| 0 <= j < d@.take(k + 1).len() implies results_of(ns).contains(
                #[trigger] d@.take(k + 1)[j],
            ) by {
                if j < k {
                    assert(d@.take(k + 1)[j] == d@.take(k as int)[j]);
                } else {
                    assert(d@.take(k + 1)[j] == x);
                }
            }
        }
    }
    let ghost rs = results_of(sorted@);
    proof {
        assert(d@.take(d.len() as int) =~= d@);
    }
    let n = if max_pages < sorted.len() {
        max_pages
    } else {
        sorted.len()
    };
    let mut ranked: Vec<SearchResult> = Vec::new();
    for i in 0..n
        invariant
            n <= sorted.len(),
            rs == results_of(sorted@),
            ranked@ == rs.take(i as int),
    {
        ranked.push(copy_result(&sorted[i].result));
        assert(rs.take(i + 1) =~= rs.take(i as int).push(rs[i as int]));
    }
    proof {
        assert(ranked@ =~= rs.take(n as int));
        lemma_prefix_is_ranking(q, results@, max_pages as int, rs, n as int);
    }
    ranked
}

} // verus!
