//! Query expansion and relevance scoring for search queries.
use vstd::prelude::*;
use crate::text::{
    ascii_lower_text, ascii_text, chars_of, contains, contains_str, extend, extend_str,
    has_substring, is_word, join, lemma_joined_lower, lemma_lower_text_fixed, lemma_lowercase_ascii,
    lemma_lowercase_idempotent, lemma_words_clean, lemma_words_lower, lemma_words_of_joined, lower,
    replace_all, replace_str, same, split_whitespace, string_of, trim_non_alnum,
    trim_non_alphanumeric, unicode_lowercase, views, words,
};

verus! {

/// `w` is one of the common words that carry no search meaning.
pub open spec fn is_stop_word(w: Seq<char>) -> bool {
    ||| w == "the"@
    ||| w == "a"@
    ||| w == "an"@
    ||| w == "and"@
    ||| w == "or"@
    ||| w == "but"@
    ||| w == "is"@
    ||| w == "are"@
    ||| w == "was"@
    ||| w == "were"@
    ||| w == "how"@
    ||| w == "what"@
    ||| w == "why"@
    ||| w == "when"@
    ||| w == "where"@
    ||| w == "which"@
    ||| w == "who"@
    ||| w == "whom"@
    ||| w == "does"@
    ||| w == "do"@
    ||| w == "did"@
    ||| w == "has"@
    ||| w == "have"@
    ||| w == "had"@
    ||| w == "will"@
    ||| w == "would"@
    ||| w == "should"@
    ||| w == "can"@
    ||| w == "could"@
    ||| w == "may"@
    ||| w == "might"@
    ||| w == "must"@
    ||| w == "to"@
    ||| w == "of"@
    ||| w == "in"@
    ||| w == "on"@
    ||| w == "at"@
    ||| w == "for"@
    ||| w == "with"@
    ||| w == "about"@
    ||| w == "as"@
    ||| w == "by"@
    ||| w == "from"@
    ||| w == "this"@
    ||| w == "that"@
    ||| w == "these"@
    ||| w == "those"@
    ||| w == "it"@
    ||| w == "its"@
    ||| w == "i"@
    ||| w == "you"@
    ||| w == "we"@
    ||| w == "they"@
    ||| w == "them"@
    ||| w == "be"@
    ||| w == "being"@
}

/// The views of a vector of strings.
pub open spec fn string_views(v: Seq<String>) -> Seq<Seq<char>> {
    v.map_values(|s: String| s@)
}

/// Keeps the words whose alphanumeric core is not a stop word.
pub open spec fn meaningful(ws: Seq<Seq<char>>) -> Seq<Seq<char>>
    decreases ws.len(),
{
    if ws.len() == 0 {
        seq![]
    } else if is_stop_word(trim_non_alnum(ws.last())) {
        meaningful(ws.drop_last())
    } else {
        meaningful(ws.drop_last()).push(ws.last())
    }
}

/// No kept word is a stop word, and every kept word is one of the words.
pub proof fn lemma_meaningful_words(ws: Seq<Seq<char>>)
    ensures
        forall|i: int|
            0 <= i < meaningful(ws).len() ==> !is_stop_word(
                trim_non_alnum(#[trigger] meaningful(ws)[i]),
            ) && ws.contains(meaningful(ws)[i]),
    decreases ws.len(),
{
    if ws.len() > 0 {
        let rest = ws.drop_last();
        lemma_meaningful_words(rest);
        assert forall|i: int| 0 <= i < meaningful(ws).len() implies !is_stop_word(
            trim_non_alnum(#[trigger] meaningful(ws)[i]),
        ) && ws.contains(meaningful(ws)[i]) by {
            if i < meaningful(rest).len() {
                assert(meaningful(ws)[i] == meaningful(rest)[i]);
                let k = choose|k: int| 0 <= k < rest.len() && rest[k] == meaningful(rest)[i];
                assert(ws[k] == rest[k]);
            } else {
                assert(meaningful(ws)[i] == ws.last());
                assert(ws[ws.len() - 1] == ws.last());
            }
        }
    }
}

/// The key terms of a query: its lower-cased words, without stop words.
pub open spec fn key_terms(query: Seq<char>) -> Seq<Seq<char>> {
    meaningful(words(unicode_lowercase(query)))
}

/// Keeping the meaningful words of meaningful words changes nothing.
proof fn lemma_meaningful_idempotent(ws: Seq<Seq<char>>)
    ensures
        meaningful(meaningful(ws)) == meaningful(ws),
    decreases ws.len(),
{
    if ws.len() > 0 {
        let rest = ws.drop_last();
        lemma_meaningful_idempotent(rest);
        if !is_stop_word(trim_non_alnum(ws.last())) {
            let m = meaningful(rest).push(ws.last());
            assert(m.drop_last() =~= meaningful(rest));
            assert(m.last() == ws.last());
        }
    }
}

/// Extracting the key terms of a query's key terms, joined by spaces, gives
/// the same key terms again (for an ASCII query).
pub proof fn lemma_key_terms_idempotent(q: Seq<char>)
    requires
        ascii_text(q),
    ensures
        key_terms(join(key_terms(q), " "@)) == key_terms(q),
{
    let l = unicode_lowercase(q);
    lemma_lowercase_ascii(q);
    let ws = words(l);
    lemma_words_lower(l);
    lemma_words_clean(l);
    let terms = meaningful(ws);
    lemma_meaningful_words(ws);
    assert forall|i: int| 0 <= i < terms.len() implies ascii_lower_text(#[trigger] terms[i]) && is_word(
        terms[i],
    ) by {
        let k = choose|k: int| 0 <= k < ws.len() && ws[k] == terms[i];
        assert(ascii_lower_text(ws[k]));
        assert(ws[k].len() > 0);
    }
    lemma_joined_lower(terms);
    let j = join(terms, " "@);
    lemma_lower_text_fixed(j);
    lemma_words_of_joined(terms);
    lemma_meaningful_idempotent(ws);
}

/// The common English words a search ignores: articles, conjunctions,
/// question words, auxiliary verbs, prepositions, demonstratives and
/// pronouns.
pub open spec fn common_words() -> Set<Seq<char>> {
    set!["the"@, "a"@, "an"@, "and"@, "or"@, "but"@, "is"@, "are"@, "was"@, "were"@, "how"@, "what"@, "why"@, "when"@, "where"@, "which"@, "who"@, "whom"@, "does"@, "do"@, "did"@, "has"@, "have"@, "had"@, "will"@, "would"@, "should"@, "can"@, "could"@, "may"@, "might"@, "must"@, "to"@, "of"@, "in"@, "on"@, "at"@, "for"@, "with"@, "about"@, "as"@, "by"@, "from"@, "this"@, "that"@, "these"@, "those"@, "it"@, "its"@, "i"@, "you"@, "we"@, "they"@, "them"@, "be"@, "being"@]
}

/// A stop word is exactly a common word.
proof fn lemma_stop_words_are_common(w: Seq<char>)
    ensures
        is_stop_word(w) <==> common_words().contains(w),
{
}

/// The meaningful words keep every word that is not a stop word.
proof fn lemma_meaningful_keeps(ws: Seq<Seq<char>>)
    ensures
        forall|i: int|
            0 <= i < ws.len() && !is_stop_word(trim_non_alnum(#[trigger] ws[i])) ==> meaningful(
                ws,
            ).contains(ws[i]),
    decreases ws.len(),
{
    if ws.len() > 0 {
        let front = ws.drop_last();
        lemma_meaningful_keeps(front);
        assert forall|i: int|
            0 <= i < ws.len() && !is_stop_word(trim_non_alnum(#[trigger] ws[i])) implies meaningful(
            ws,
        ).contains(ws[i]) by {
            if i < front.len() {
                assert(front[i] == ws[i]);
                let m = meaningful(front);
                let k = choose|k: int| 0 <= k < m.len() && m[k] == ws[i];
                if is_stop_word(trim_non_alnum(ws.last())) {
                    assert(meaningful(ws)[k] == ws[i]);
                } else {
                    assert(meaningful(ws) == m.push(ws.last()));
                    assert(meaningful(ws)[k] == ws[i]);
                }
            } else {
                assert(ws[i] == ws.last());
                assert(meaningful(ws).last() == ws[i]);
                assert(meaningful(ws)[meaningful(ws).len() - 1] == ws[i]);
            }
        }
    }
}

/// The key terms of a query are its lower-cased words whose alphanumeric
/// core is no common word: no key term's core is a common word, and every
/// lower-cased word whose core is not one is a key term.
pub proof fn lemma_key_terms_skip_common_words(q: Seq<char>)
    ensures
        forall|i: int|
            0 <= i < key_terms(q).len() ==> !common_words().contains(
                trim_non_alnum(#[trigger] key_terms(q)[i]),
            ),
        forall|i: int|
            0 <= i < words(unicode_lowercase(q)).len() && !common_words().contains(
                trim_non_alnum(#[trigger] words(unicode_lowercase(q))[i]),
            ) ==> key_terms(q).contains(words(unicode_lowercase(q))[i]),
{
    let ws = words(unicode_lowercase(q));
    lemma_meaningful_words(ws);
    lemma_meaningful_keeps(ws);
    assert forall|i: int| 0 <= i < key_terms(q).len() implies !common_words().contains(
        trim_non_alnum(#[trigger] key_terms(q)[i]),
    ) by {
        lemma_stop_words_are_common(trim_non_alnum(key_terms(q)[i]));
    }
    assert forall|i: int|
        0 <= i < ws.len() && !common_words().contains(trim_non_alnum(#[trigger] ws[i])) implies key_terms(
        q,
    ).contains(ws[i]) by {
        lemma_stop_words_are_common(trim_non_alnum(ws[i]));
    }
}

/// `w@ == lit@`.
pub fn same_str(w: &Vec<char>, lit: &str) -> (r: bool)
    ensures
        r == (w@ == lit@),
{
    let l = chars_of(lit);
    same(w, &l)
}

/// Is `w` a stop word?
pub fn stop_word(w: &Vec<char>) -> (r: bool)
    ensures
        r == is_stop_word(w@),
{
        same_str(w, "the")
        || same_str(w, "a")
        || same_str(w, "an")
        || same_str(w, "and")
        || same_str(w, "or")
        || same_str(w, "but")
        || same_str(w, "is")
        || same_str(w, "are")
        || same_str(w, "was")
        || same_str(w, "were")
        || same_str(w, "how")
        || same_str(w, "what")
        || same_str(w, "why")
        || same_str(w, "when")
        || same_str(w, "where")
        || same_str(w, "which")
        || same_str(w, "who")
        || same_str(w, "whom")
        || same_str(w, "does")
        || same_str(w, "do")
        || same_str(w, "did")
        || same_str(w, "has")
        || same_str(w, "have")
        || same_str(w, "had")
        || same_str(w, "will")
        || same_str(w, "would")
        || same_str(w, "should")
        || same_str(w, "can")
        || same_str(w, "could")
        || same_str(w, "may")
        || same_str(w, "might")
        || same_str(w, "must")
        || same_str(w, "to")
        || same_str(w, "of")
        || same_str(w, "in")
        || same_str(w, "on")
        || same_str(w, "at")
        || same_str(w, "for")
        || same_str(w, "with")
        || same_str(w, "about")
        || same_str(w, "as")
        || same_str(w, "by")
        || same_str(w, "from")
        || same_str(w, "this")
        || same_str(w, "that")
        || same_str(w, "these")
        || same_str(w, "those")
        || same_str(w, "it")
        || same_str(w, "its")
        || same_str(w, "i")
        || same_str(w, "you")
        || same_str(w, "we")
        || same_str(w, "they")
        || same_str(w, "them")
        || same_str(w, "be")
        || same_str(w, "being")
}

/// The statement form of a question: the question words, "work" and "?"
/// removed, in this order (each replacement applies to the previous result).
pub open spec fn statement_form(q: Seq<char>) -> Seq<char> {
    let e = Seq::<char>::empty();
    let s = replace_all(q, "how does "@, e);
    let s = replace_all(s, "how do "@, e);
    let s = replace_all(s, "how to "@, e);
    let s = replace_all(s, "what is "@, e);
    let s = replace_all(s, "what are "@, e);
    let s = replace_all(s, "why is "@, e);
    let s = replace_all(s, "why are "@, e);
    let s = replace_all(s, " work?"@, e);
    let s = replace_all(s, " work"@, e);
    replace_all(s, "?"@, e)
}

/// The lower-cased query is a question.
pub open spec fn asks_question(l: Seq<char>) -> bool {
    has_substring(l, "how"@) || has_substring(l, "what"@) || has_substring(l, "why"@)
}

/// The lower-cased text asks for fresh information.
pub open spec fn wants_fresh(l: Seq<char>) -> bool {
    has_substring(l, "latest"@) || has_substring(l, "new"@) || has_substring(l, "recent"@)
}

/// The lower-cased query already asks for a guide.
pub open spec fn wants_guide(l: Seq<char>) -> bool {
    has_substring(l, "guide"@) || has_substring(l, "tutorial"@)
}

/// The lower-cased query is about programming.
pub open spec fn technical(l: Seq<char>) -> bool {
    ||| has_substring(l, "rust"@)
    ||| has_substring(l, "python"@)
    ||| has_substring(l, "javascript"@)
    ||| has_substring(l, "programming"@)
    ||| has_substring(l, "code"@)
    ||| has_substring(l, "api"@)
}

/// The lower-cased query names a technology worth comparing.
pub open spec fn names_technology(l: Seq<char>) -> bool {
    ||| has_substring(l, "rust"@)
    ||| has_substring(l, "python"@)
    ||| has_substring(l, "javascript"@)
    ||| has_substring(l, "tokio"@)
    ||| has_substring(l, "async"@)
    ||| has_substring(l, "go"@)
}

/// Every variant of a query, in order, before the limit of five. A question
/// is turned into its statement form for the explained, tutorial,
/// understanding and latest variants.
pub open spec fn expansion_candidates(q: Seq<char>) -> Seq<Seq<char>> {
    let l = unicode_lowercase(q);
    let c = statement_form(q);
    let s1 = if asks_question(l) {
        seq![q, c + " explained"@, c + " tutorial"@, "understanding "@ + c]
    } else {
        seq![q]
    };
    let topic = if asks_question(l) {
        c
    } else {
        q
    };
    let s2 = if !wants_fresh(l) {
        s1.push("latest "@ + topic)
    } else {
        s1
    };
    let s3 = if !wants_guide(l) {
        s2.push(q + " guide"@)
    } else {
        s2
    };
    let s4 = if technical(l) {
        s3.push(q + " best practices"@)
    } else {
        s3
    };
    if names_technology(l) {
        s4.push(q + " compared"@)
    } else {
        s4
    }
}

/// The expanded queries: the first five variants.
pub open spec fn expansions(q: Seq<char>) -> Seq<Seq<char>> {
    let c = expansion_candidates(q);
    if c.len() <= 5 {
        c
    } else {
        c.take(5)
    }
}

/// The expansion of a query starts with the query itself and holds at most
/// five queries.
pub proof fn lemma_expansion_shape(q: Seq<char>)
    ensures
        1 <= expansions(q).len() <= 5,
        expansions(q)[0] == q,
{
}

/// The variants of a query that asks no question (its lower case holds none
/// of "how", "what", "why"): the query itself first, then "latest <query>"
/// unless it already asks for fresh information ("latest", "new",
/// "recent"), "<query> guide" unless it already asks for a guide ("guide",
/// "tutorial"), "<query> best practices" when it is about programming
/// ("rust", "python", "javascript", "programming", "code", "api"), and
/// "<query> compared" when it names a technology ("rust", "python",
/// "javascript", "tokio", "async", "go"); nothing else.
pub proof fn lemma_plain_query_variants(q: Seq<char>)
    requires
        !has_substring(unicode_lowercase(q), "how"@),
        !has_substring(unicode_lowercase(q), "what"@),
        !has_substring(unicode_lowercase(q), "why"@),
    ensures
        ({
            let l = unicode_lowercase(q);
            let e = expansions(q);
            &&& e[0] == q
            &&& !(has_substring(l, "latest"@) || has_substring(l, "new"@) || has_substring(
                l,
                "recent"@,
            )) ==> e.contains("latest "@ + q)
            &&& !(has_substring(l, "guide"@) || has_substring(l, "tutorial"@)) ==> e.contains(
                q + " guide"@,
            )
            &&& (has_substring(l, "rust"@) || has_substring(l, "python"@) || has_substring(
                l,
                "javascript"@,
            ) || has_substring(l, "programming"@) || has_substring(l, "code"@) || has_substring(
                l,
                "api"@,
            )) ==> e.contains(q + " best practices"@)
            &&& (has_substring(l, "rust"@) || has_substring(l, "python"@) || has_substring(
                l,
                "javascript"@,
            ) || has_substring(l, "tokio"@) || has_substring(l, "async"@) || has_substring(
                l,
                "go"@,
            )) ==> e.contains(q + " compared"@)
            &&& forall|i: int|
                0 <= i < e.len() ==> #[trigger] e[i] == q || e[i] == "latest "@ + q || e[i] == q
                    + " guide"@ || e[i] == q + " best practices"@ || e[i] == q + " compared"@
        }),
{
    let e = expansion_candidates(q);
    let l = unicode_lowercase(q);
    let s1 = seq![q];
    let s2 = if !wants_fresh(l) {
        s1.push("latest "@ + q)
    } else {
        s1
    };
    let s3 = if !wants_guide(l) {
        s2.push(q + " guide"@)
    } else {
        s2
    };
    let s4 = if technical(l) {
        s3.push(q + " best practices"@)
    } else {
        s3
    };
    assert(e.len() <= 5);
    assert(expansions(q) == e);
    if !wants_fresh(l) {
        assert(s2[1] == "latest "@ + q);
        assert(e[1] == "latest "@ + q);
    }
    if !wants_guide(l) {
        assert(e[s2.len() as int] == q + " guide"@);
    }
    if technical(l) {
        assert(e[s3.len() as int] == q + " best practices"@);
    }
    if names_technology(l) {
        assert(e[s4.len() as int] == q + " compared"@);
    }
}

/// A question's explained, tutorial, understanding and latest variants all
/// speak of one topic (the result): the second, third and fourth queries
/// are "<topic> explained", "<topic> tutorial" and "understanding <topic>",
/// and, when the question does not already ask for fresh information, the
/// fifth and last is "latest <topic>".
pub proof fn lemma_question_variants(q: Seq<char>) -> (topic: Seq<char>)
    requires
        has_substring(unicode_lowercase(q), "how"@) || has_substring(unicode_lowercase(q), "what"@)
            || has_substring(unicode_lowercase(q), "why"@),
    ensures
        ({
            let e = expansions(q);
            let l = unicode_lowercase(q);
            &&& e.len() >= 4
            &&& e[0] == q
            &&& e[1] == topic + " explained"@
            &&& e[2] == topic + " tutorial"@
            &&& e[3] == "understanding "@ + topic
            &&& !(has_substring(l, "latest"@) || has_substring(l, "new"@) || has_substring(
                l,
                "recent"@,
            )) ==> e.len() == 5 && e[4] == "latest "@ + topic
        }),
{
    let c = statement_form(q);
    let e = expansions(q);
    let l = unicode_lowercase(q);
    assert(e[1] == c + " explained"@ && e[2] == c + " tutorial"@ && e[3] == "understanding "@ + c);
    assert(!wants_fresh(l) ==> e[4] == "latest "@ + c);
    c
}

/// `a + lit` as a `String`.
fn glue(a: &Vec<char>, lit: &str) -> (r: String)
    ensures
        r@ == a@ + lit@,
{
    let mut v: Vec<char> = Vec::new();
    extend(&mut v, a);
    extend_str(&mut v, lit);
    string_of(&v)
}

/// `lit + a` as a `String`.
fn glue_front(lit: &str, a: &Vec<char>) -> (r: String)
    ensures
        r@ == lit@ + a@,
{
    let mut v: Vec<char> = Vec::new();
    extend_str(&mut v, lit);
    extend(&mut v, a);
    string_of(&v)
}

/// The statement form of a question.
fn to_statement(q: &Vec<char>) -> (r: Vec<char>)
    ensures
        r@ == statement_form(q@),
{
    proof {
        reveal_strlit("how does ");
        reveal_strlit("how do ");
        reveal_strlit("how to ");
        reveal_strlit("what is ");
        reveal_strlit("what are ");
        reveal_strlit("why is ");
        reveal_strlit("why are ");
        reveal_strlit(" work?");
        reveal_strlit(" work");
        reveal_strlit("?");
        reveal_strlit("");
    }
    let s = replace_str(q, "how does ", "");
    let s = replace_str(&s, "how do ", "");
    let s = replace_str(&s, "how to ", "");
    let s = replace_str(&s, "what is ", "");
    let s = replace_str(&s, "what are ", "");
    let s = replace_str(&s, "why is ", "");
    let s = replace_str(&s, "why are ", "");
    let s = replace_str(&s, " work?", "");
    let s = replace_str(&s, " work", "");
    let s = replace_str(&s, "?", "");
    assert(""@ =~= Seq::<char>::empty());
    s
}

/// Expand a query into related queries for better coverage (at most five,
/// the query itself first).
pub fn expand_query(query: &str) -> (queries: Vec<String>)
    ensures
        string_views(queries@) == expansions(query@),
{
    let q = chars_of(query);
    let l = lower(query);
    let mut queries: Vec<String> = Vec::new();
    queries.push(string_of(&q));
    let question = contains_str(&l, "how") || contains_str(&l, "what") || contains_str(&l, "why");
    let topic = if question {
        let c = to_statement(&q);
        queries.push(glue(&c, " explained"));
        queries.push(glue(&c, " tutorial"));
        queries.push(glue_front("understanding ", &c));
        c
    } else {
        q.clone()
    };
    if !(contains_str(&l, "latest") || contains_str(&l, "new") || contains_str(&l, "recent")) {
        queries.push(glue_front("latest ", &topic));
    }
    if !(contains_str(&l, "guide") || contains_str(&l, "tutorial")) {
        queries.push(glue(&q, " guide"));
    }
    if contains_str(&l, "rust") || contains_str(&l, "python") || contains_str(&l, "javascript")
        || contains_str(&l, "programming") || contains_str(&l, "code") || contains_str(&l, "api") {
        queries.push(glue(&q, " best practices"));
    }
    if contains_str(&l, "rust") || contains_str(&l, "python") || contains_str(&l, "javascript")
        || contains_str(&l, "tokio") || contains_str(&l, "async") || contains_str(&l, "go") {
        queries.push(glue(&q, " compared"));
    }
    assert(string_views(queries@) =~= expansion_candidates(query@));
    queries.truncate(5);
    assert(string_views(queries@) =~= expansions(query@));
    queries
}

/// Generate search terms from a query: its lower-cased words whose
/// alphanumeric core is not a stop word.
pub fn extract_key_terms(query: &str) -> (terms: Vec<String>)
    ensures
        string_views(terms@) == key_terms(query@),
{
    let l = lower(query);
    let ws = split_whitespace(&l);
    let mut out: Vec<String> = Vec::new();
    for i in 0..ws.len()
        invariant
            views(ws@) == words(unicode_lowercase(query@)),
            string_views(out@) == meaningful(views(ws@).take(i as int)),
    {
        let ghost pre = views(ws@).take(i as int);
        let ghost cur = views(ws@).take(i + 1);
        proof {
            assert(cur.drop_last() =~= pre);
            assert(cur.last() == ws@[i as int]@);
        }
        let core = trim_non_alphanumeric(&ws[i]);
        if !stop_word(&core) {
            out.push(string_of(&ws[i]));
            assert(string_views(out@) =~= meaningful(cur));
        }
    }
    assert(views(ws@).take(ws.len() as int) =~= views(ws@));
    out
}

/// The lower-cased title promises fresh information.
pub open spec fn fresh_title(tl: Seq<char>) -> bool {
    ||| has_substring(tl, "2026"@)
    ||| has_substring(tl, "2025"@)
    ||| has_substring(tl, "latest"@)
    ||| has_substring(tl, "new"@)
}

/// The lower-cased title looks like official documentation or a guide.
pub open spec fn official_title(tl: Seq<char>) -> bool {
    ||| has_substring(tl, "documentation"@)
    ||| has_substring(tl, "official"@)
    ||| has_substring(tl, "guide"@)
    ||| has_substring(tl, "docs"@)
}

/// Half-points earned by the key terms: 6 for each term found in the
/// lower-cased title, 2 for each found in the lower-cased snippet.
pub open spec fn term_points(terms: Seq<Seq<char>>, tl: Seq<char>, sl: Seq<char>) -> int
    decreases terms.len(),
{
    if terms.len() == 0 {
        0
    } else {
        let t = unicode_lowercase(terms.last());
        term_points(terms.drop_last(), tl, sl) + (if has_substring(tl, t) {
            6int
        } else {
            0int
        }) + (if has_substring(sl, t) {
            2int
        } else {
            0int
        })
    }
}

/// The relevance of a search hit to a query, in half-points: key terms in
/// the title (3 points each) and snippet (1 point each), the whole query in
/// the title (10) and snippet (5), a fresh title for a query asking for fresh
/// information (2), and an official-looking title (1.5).
pub open spec fn relevance_points(q: Seq<char>, title: Seq<char>, snippet: Seq<char>) -> int {
    let ql = unicode_lowercase(q);
    let tl = unicode_lowercase(title);
    let sl = unicode_lowercase(snippet);
    term_points(key_terms(q), tl, sl) + (if has_substring(tl, ql) {
        20int
    } else {
        0int
    }) + (if has_substring(sl, ql) {
        10int
    } else {
        0int
    }) + (if wants_fresh(ql) && fresh_title(tl) {
        4int
    } else {
        0int
    }) + (if official_title(tl) {
        3int
    } else {
        0int
    })
}

/// Key-term points are never negative.
proof fn lemma_term_points_nonneg(terms: Seq<Seq<char>>, tl: Seq<char>, sl: Seq<char>)
    ensures
        term_points(terms, tl, sl) >= 0,
    decreases terms.len(),
{
    if terms.len() > 0 {
        lemma_term_points_nonneg(terms.drop_last(), tl, sl);
    }
}

/// Key-term points are at most eight half-points per term.
proof fn lemma_term_points_at_most(terms: Seq<Seq<char>>, tl: Seq<char>, sl: Seq<char>)
    ensures
        term_points(terms, tl, sl) <= 8 * terms.len(),
    decreases terms.len(),
{
    if terms.len() > 0 {
        lemma_term_points_at_most(terms.drop_last(), tl, sl);
    }
}

/// A hit's relevance lies between zero and four points per key term of the
/// query plus eighteen and a half (in half-points: eight per key term plus
/// thirty-seven).
pub proof fn lemma_relevance_bounded(q: Seq<char>, title: Seq<char>, snippet: Seq<char>)
    ensures
        0 <= relevance_points(q, title, snippet) <= 8 * key_terms(q).len() + 37,
{
    let tl = unicode_lowercase(title);
    let sl = unicode_lowercase(snippet);
    lemma_term_points_nonneg(key_terms(q), tl, sl);
    lemma_term_points_at_most(key_terms(q), tl, sl);
}

/// Relevance ignores case: lower-casing the query, the title and the snippet
/// first changes no score (for ASCII text).
pub proof fn lemma_relevance_ignores_case(q: Seq<char>, title: Seq<char>, snippet: Seq<char>)
    requires
        ascii_text(q),
        ascii_text(title),
        ascii_text(snippet),
    ensures
        relevance_points(q, title, snippet) == relevance_points(
            unicode_lowercase(q),
            unicode_lowercase(title),
            unicode_lowercase(snippet),
        ),
{
    lemma_lowercase_idempotent(q);
    lemma_lowercase_idempotent(title);
    lemma_lowercase_idempotent(snippet);
}

/// A title that holds the whole query (ignoring case) scores at least ten
/// points, and a hit never scores below zero.
pub proof fn lemma_exact_title_match_scores(q: Seq<char>, title: Seq<char>, snippet: Seq<char>)
    ensures
        relevance_points(q, title, snippet) >= 0,
        has_substring(unicode_lowercase(title), unicode_lowercase(q)) ==> relevance_points(
            q,
            title,
            snippet,
        ) >= 20,
{
    lemma_term_points_nonneg(
        key_terms(q),
        unicode_lowercase(title),
        unicode_lowercase(snippet),
    );
}

/// Score a title and snippet by their relevance to a query, in half-points
/// (twice the score in points).
pub fn score_relevance_points(query: &str, title: &str, snippet: &str) -> (points: u128)
    ensures
        points == relevance_points(query@, title@, snippet@),
{
    let ql = lower(query);
    let tl = lower(title);
    let sl = lower(snippet);
    let terms = extract_key_terms(query);
    let mut points: u128 = 0;
    for i in 0..terms.len()
        invariant
            string_views(terms@) == key_terms(query@),
            points == term_points(string_views(terms@).take(i as int), tl@, sl@),
            points <= 8 * i,
    {
        let ghost pre = string_views(terms@).take(i as int);
        let ghost cur = string_views(terms@).take(i + 1);
        proof {
            assert(cur.drop_last() =~= pre);
            assert(cur.last() == terms@[i as int]@);
        }
        let t = lower(terms[i].as_str());
        if contains(&tl, &t) {
            points = points + 6;
        }
        if contains(&sl, &t) {
            points = points + 2;
        }
    }
    assert(string_views(terms@).take(terms.len() as int) =~= string_views(terms@));
    if contains(&tl, &ql) {
        points = points + 20;
    }
    if contains(&sl, &ql) {
        points = points + 10;
    }
    if (contains_str(&ql, "latest") || contains_str(&ql, "new") || contains_str(&ql, "recent")) && (
    contains_str(&tl, "2026") || contains_str(&tl, "2025") || contains_str(&tl, "latest")
        || contains_str(&tl, "new")) {
        points = points + 4;
    }
    if contains_str(&tl, "documentation") || contains_str(&tl, "official") || contains_str(
        &tl,
        "guide",
    ) || contains_str(&tl, "docs") {
        points = points + 3;
    }
    points
}

} // verus!
