//! The crawler's frontier: the queue of URLs to fetch, the set of URLs
//! already fetched, and the batches the crawl takes from the queue; and the
//! cleaning of page text that every fetcher applies.
use vstd::prelude::*;
use crate::query_expansion::string_views;
use crate::text::{chars_of, join, join_str, split_whitespace, string_of, take_chars, words};

verus! {

/// The most characters of page text that are kept.
pub const MAX_TEXT_CHARS: usize = 50000;

/// Page text cleaned: its words joined by single spaces, cut to at most
/// fifty thousand characters.
pub open spec fn cleaned(text: Seq<char>) -> Seq<char> {
    let j = join(words(text), " "@);
    j.take(if j.len() <= 50000 { j.len() as int } else { 50000 })
}

/// Cleaned text never holds more than fifty thousand characters.
pub proof fn lemma_cleaned_bounded(text: Seq<char>)
    ensures
        cleaned(text).len() <= 50000,
{
}

/// Clean page text: collapse white space, cut to the size limit.
pub fn clean_text(text: &str) -> (t: String)
    ensures
        t@ == cleaned(text@),
{
    let ws = split_whitespace(&chars_of(text));
    let j = join_str(&ws, " ");
    string_of(&take_chars(&j, MAX_TEXT_CHARS))
}

/// How many URLs a crawl fetches at once.
pub const BATCH_SIZE: usize = 5;

/// How many links deep a crawl may follow.
pub const MAX_DEPTH: usize = 3;

/// The URLs waiting to be fetched, and those already fetched.
#[derive(Debug, Clone)]
pub struct CrawlFrontier {
    queue: Vec<String>,
    visited: Vec<String>,
}

/// Membership of a URL among strings.
pub open spec fn listed(v: Seq<String>, u: Seq<char>) -> bool {
    exists|i: int| 0 <= i < v.len() && (#[trigger] v[i])@ == u
}

/// The URLs of `links` that are not in `seen`, in order.
pub open spec fn unseen(links: Seq<Seq<char>>, seen: Set<Seq<char>>) -> Seq<Seq<char>>
    decreases links.len(),
{
    if links.len() == 0 {
        Seq::empty()
    } else {
        let rest = unseen(links.drop_last(), seen);
        if seen.contains(links.last()) {
            rest
        } else {
            rest.push(links.last())
        }
    }
}

/// Every URL of `unseen(links, seen)` is outside `seen`.
pub proof fn lemma_unseen_are_new(links: Seq<Seq<char>>, seen: Set<Seq<char>>)
    ensures
        forall|i: int|
            0 <= i < unseen(links, seen).len() ==> !seen.contains(#[trigger] unseen(links, seen)[i]),
    decreases links.len(),
{
    if links.len() > 0 {
        let rest = unseen(links.drop_last(), seen);
        lemma_unseen_are_new(links.drop_last(), seen);
        assert forall|i: int|
            0 <= i < unseen(links, seen).len() implies !seen.contains(
            #[trigger] unseen(links, seen)[i],
        ) by {
            if i < rest.len() {
                assert(unseen(links, seen)[i] == rest[i]);
            }
        }
    }
}

impl CrawlFrontier {
    /// The URLs waiting, in the order they will be fetched.
    pub closed spec fn queued(&self) -> Seq<Seq<char>> {
        string_views(self.queue@)
    }

    /// The URLs already handed out for fetching.
    pub closed spec fn seen(&self) -> Set<Seq<char>> {
        Set::new(|u: Seq<char>| listed(self.visited@, u))
    }

    /// An empty frontier.
    pub fn new() -> (f: Self)
        ensures
            f.queued() == Seq::<Seq<char>>::empty(),
            f.seen() == Set::<Seq<char>>::empty(),
    {
        let f = CrawlFrontier { queue: Vec::new(), visited: Vec::new() };
        assert(f.queued() =~= Seq::<Seq<char>>::empty());
        assert(f.seen() =~= Set::<Seq<char>>::empty());
        f
    }

    /// Queue the seed URLs, after what is waiting.
    pub fn seed(&mut self, urls: Vec<String>)
        ensures
            final(self).queued() == old(self).queued() + string_views(urls@),
            final(self).seen() == old(self).seen(),
    {
        let ghost q0 = self.queued();
        for i in 0..urls.len()
            invariant
                self.queued() == q0 + string_views(urls@).take(i as int),
                self.seen() == old(self).seen(),
        {
            let ghost prev = self.queue@;
            self.queue.push(urls[i].clone());
            proof {
                assert(self.queue@ =~= prev.push(urls@[i as int]));
                assert(string_views(self.queue@) =~= string_views(prev).push(urls@[i as int]@));
                assert(string_views(urls@).take(i + 1) =~= string_views(urls@).take(i as int).push(
                    urls@[i as int]@,
                ));
                assert(self.seen() =~= old(self).seen());
            }
        }
        assert(string_views(urls@).take(urls.len() as int) =~= string_views(urls@));
    }

    /// Has the URL been handed out for fetching?
    pub fn is_visited(&self, url: &str) -> (r: bool)
        ensures
            r == self.seen().contains(url@),
    {
        let u = url.to_owned();
        let mut i: usize = 0;
        while i < self.visited.len()
            invariant
                i <= self.visited.len(),
                u@ == url@,
                forall|j: int| 0 <= j < i ==> (#[trigger] self.visited@[j])@ != url@,
            decreases self.visited.len() - i,
        {
            if self.visited[i] == u {
                assert(listed(self.visited@, url@));
                return true;
            }
            i = i + 1;
        }
        false
    }

    /// Record that a URL is handed out for fetching.
    fn mark_visited(&mut self, url: &String)
        ensures
            final(self).seen() == old(self).seen().insert(url@),
            final(self).queued() == old(self).queued(),
    {
        if !self.is_visited(url.as_str()) {
            let ghost prev = self.visited@;
            self.visited.push(url.clone());
            proof {
                assert(self.visited@ =~= prev.push(*url));
                assert forall|u: Seq<char>| listed(self.visited@, u) == (listed(prev, u) || u == url@) by {
                    if listed(self.visited@, u) {
                        let k = choose|k: int| 0 <= k < self.visited@.len() && (#[trigger] self.visited@[k])@ == u;
                        if k < prev.len() {
                            assert(prev[k] == self.visited@[k]);
                        }
                    }
                    if listed(prev, u) {
                        let k = choose|k: int| 0 <= k < prev.len() && (#[trigger] prev[k])@ == u;
                        assert(self.visited@[k] == prev[k]);
                    }
                    if u == url@ {
                        assert(self.visited@[prev.len() as int] == *url);
                    }
                }
                assert(self.seen() =~= old(self).seen().insert(url@));
            }
        } else {
            assert(self.seen() =~= old(self).seen().insert(url@));
        }
    }

    /// The next batch to fetch, once `crawled` of `max_pages` pages are in:
    /// `None` when the budget is used up or nothing waits (the frontier then
    /// unchanged); otherwise the first (at most five) waiting URLs, taken off
    /// the queue and recorded as handed out.
    pub fn next_batch(&mut self, crawled: usize, max_pages: usize) -> (batch: Option<Vec<String>>)
        ensures
            match batch {
                None => (crawled >= max_pages || old(self).queued().len() == 0) && *final(self)
                    == *old(self),
                Some(b) => {
                    let n = if old(self).queued().len() < 5 {
                        old(self).queued().len() as int
                    } else {
                        5
                    };
                    &&& crawled < max_pages
                    &&& n > 0
                    &&& string_views(b@) == old(self).queued().take(n)
                    &&& final(self).queued() == old(self).queued().skip(n)
                    &&& final(self).seen() == old(self).seen().union(
                        string_views(b@).to_set(),
                    )
                },
            },
    {
        if crawled >= max_pages || self.queue.len() == 0 {
            return None;
        }
        let ghost q0 = self.queued();
        let ghost s0 = self.seen();
        let n: usize = if self.queue.len() < BATCH_SIZE {
            self.queue.len()
        } else {
            BATCH_SIZE
        };
        let mut b: Vec<String> = Vec::new();
        for i in 0..n
            invariant
                n <= q0.len(),
                n <= 5,
                string_views(b@) == q0.take(i as int),
                self.queued() == q0.skip(i as int),
                self.seen() == s0.union(string_views(b@).to_set()),
        {
            let ghost pq = self.queue@;
            let ghost pb = b@;
            assert(string_views(pq).len() == pq.len());
            assert(pq.len() == q0.len() - i);
            let u = self.queue.remove(0);
            proof {
                assert(u@ == q0[i as int]) by {
                    assert(string_views(pq)[0] == q0.skip(i as int)[0]);
                }
                assert(self.queue@ =~= pq.subrange(1, pq.len() as int));
                assert forall|k: int| 0 <= k < self.queue@.len() implies (#[trigger] string_views(
                    self.queue@,
                )[k]) == q0.skip(i + 1)[k] by {
                    assert(self.queue@[k] == pq[k + 1]);
                    assert(string_views(pq)[k + 1] == q0.skip(i as int)[k + 1]);
                }
                assert(string_views(self.queue@) =~= q0.skip(i + 1));
            }
            self.mark_visited(&u);
            b.push(u);
            proof {
                assert(b@ =~= pb.push(u));
                assert(string_views(b@) =~= string_views(pb).push(u@));
                assert(q0.take(i + 1) =~= q0.take(i as int).push(q0[i as int]));
                assert(string_views(b@).to_set() =~= string_views(pb).to_set().insert(u@)) by {
                    string_views(pb).lemma_push_to_set_commute(u@);
                }
                assert(self.seen() =~= s0.union(string_views(b@).to_set()));
            }
        }
        Some(b)
    }

    /// Queue the links a fetched page holds, after what is waiting, leaving
    /// out those already handed out.
    pub fn enqueue_links(&mut self, links: &Vec<String>)
        ensures
            final(self).queued() == old(self).queued() + unseen(string_views(links@), old(self).seen()),
            final(self).seen() == old(self).seen(),
    {
        let ghost q0 = self.queued();
        let ghost s0 = self.seen();
        let ghost lv = string_views(links@);
        for i in 0..links.len()
            invariant
                lv == string_views(links@),
                self.seen() == s0,
                self.queued() == q0 + unseen(lv.take(i as int), s0),
        {
            proof {
                assert(lv.take(i + 1).drop_last() =~= lv.take(i as int));
                assert(lv.take(i + 1).last() == links@[i as int]@);
            }
            if !self.is_visited(links[i].as_str()) {
                let ghost prev = self.queue@;
                self.queue.push(links[i].clone());
                proof {
                    assert(self.queue@ =~= prev.push(links@[i as int]));
                    assert(string_views(self.queue@) =~= string_views(prev).push(links@[i as int]@));
                    assert(self.seen() =~= s0);
                }
            }
            assert(self.queued() =~= q0 + unseen(lv.take(i + 1), s0));
        }
        assert(lv.take(links.len() as int) =~= lv);
    }
}

/// Every link of a page that was not handed out yet is queued: `unseen`
/// keeps each such link, and only links of the page.
pub proof fn lemma_unseen_links_are_queued(links: Seq<Seq<char>>, seen: Set<Seq<char>>)
    ensures
        forall|j: int|
            0 <= j < links.len() && !seen.contains(#[trigger] links[j]) ==> unseen(links, seen).contains(
                links[j],
            ),
        forall|i: int|
            0 <= i < unseen(links, seen).len() ==> links.contains(#[trigger] unseen(links, seen)[i]),
    decreases links.len(),
{
    if links.len() > 0 {
        let front = links.drop_last();
        lemma_unseen_links_are_queued(front, seen);
        let u = unseen(links, seen);
        let uf = unseen(front, seen);
        assert forall|j: int|
            0 <= j < links.len() && !seen.contains(#[trigger] links[j]) implies u.contains(links[j]) by {
            if j < front.len() {
                assert(front[j] == links[j]);
                let k = choose|k: int| 0 <= k < uf.len() && uf[k] == links[j];
                assert(u[k] == uf[k]);
            } else {
                assert(links[j] == links.last());
                assert(u[u.len() - 1] == links.last());
            }
        }
        assert forall|i: int| 0 <= i < u.len() implies links.contains(#[trigger] u[i]) by {
            if i < uf.len() {
                assert(u[i] == uf[i]);
                let k = choose|k: int| 0 <= k < front.len() && front[k] == uf[i];
                assert(links[k] == front[k]);
            } else {
                assert(u[i] == links.last());
                assert(links[links.len() - 1] == links.last());
            }
        }
    }
}

/// A URL once handed out is never queued again by the links of later pages:
/// what `enqueue_links` adds lies outside the handed-out set.
pub proof fn lemma_no_refetch_from_links(
    before: Seq<Seq<char>>,
    after: Seq<Seq<char>>,
    links: Seq<Seq<char>>,
    seen: Set<Seq<char>>,
)
    requires
        after == before + unseen(links, seen),
    ensures
        forall|i: int| before.len() <= i < after.len() ==> !seen.contains(#[trigger] after[i]),
{
    lemma_unseen_are_new(links, seen);
    assert forall|i: int| before.len() <= i < after.len() implies !seen.contains(#[trigger] after[i]) by {
        assert(after[i] == unseen(links, seen)[i - before.len()]);
    }
}

} // verus!
