//! Character-sequence utilities: the text model that every other module
//! states its contracts over (`Seq<char>`, the view of `str` and `String`).
use vstd::prelude::*;

verus! {

/// The Unicode `White_Space` property of a character (PropList.txt): tab,
/// line feed, vertical tab, form feed, carriage return, space, next line,
/// no-break space, ogham space mark, the spaces U+2000 to U+200A, line and
/// paragraph separator, narrow no-break space, medium mathematical space
/// and ideographic space.
pub open spec fn unicode_white_space(c: char) -> bool {
    let n = c as u32;
    ||| 0x9 <= n <= 0xd
    ||| n == 0x20
    ||| n == 0x85
    ||| n == 0xa0
    ||| n == 0x1680
    ||| 0x2000 <= n <= 0x200a
    ||| n == 0x2028
    ||| n == 0x2029
    ||| n == 0x202f
    ||| n == 0x205f
    ||| n == 0x3000
}

/// The Unicode `Alphabetic` or `Numeric` property of a character beyond
/// ASCII.
pub uninterp spec fn non_ascii_alphanumeric(c: char) -> bool;

/// An ASCII letter or digit.
pub open spec fn ascii_alphanumeric(c: char) -> bool {
    ('0' <= c && c <= '9') || ('A' <= c && c <= 'Z') || ('a' <= c && c <= 'z')
}

/// The Unicode `Alphabetic` or `Numeric` property of a character: among
/// ASCII characters, exactly the letters and digits.
pub open spec fn unicode_alphanumeric(c: char) -> bool {
    if (c as u32) < 128 {
        ascii_alphanumeric(c)
    } else {
        non_ascii_alphanumeric(c)
    }
}

/// The Unicode default lower-case mapping of a text that is not all ASCII.
pub uninterp spec fn non_ascii_lowercase(s: Seq<char>) -> Seq<char>;

/// Text made of ASCII characters only.
pub open spec fn ascii_text(s: Seq<char>) -> bool {
    forall|i: int| 0 <= i < s.len() ==> (#[trigger] s[i] as u32) < 128
}

/// The lower case of an ASCII character: `A` to `Z` become `a` to `z`,
/// every other character stays.
pub open spec fn ascii_lower(c: char) -> char {
    if 'A' <= c && c <= 'Z' {
        ((c as u32) + 32) as char
    } else {
        c
    }
}

/// The Unicode default lower-case mapping of a whole string: for ASCII text,
/// `A` to `Z` become `a` to `z` and every other character stays.
pub open spec fn unicode_lowercase(s: Seq<char>) -> Seq<char> {
    if ascii_text(s) {
        s.map_values(|c: char| ascii_lower(c))
    } else {
        non_ascii_lowercase(s)
    }
}

/// `char::is_whitespace` reports the Unicode `White_Space` property.
pub assume_specification[ char::is_whitespace ](c: char) -> (r: bool)
    ensures
        r == unicode_white_space(c),
;

/// `char::is_alphanumeric` reports whether the character is alphabetic or
/// numeric in Unicode: among ASCII characters, exactly the letters and
/// digits; beyond ASCII the tables are named, not restated.
pub assume_specification[ char::is_alphanumeric ](c: char) -> (r: bool)
    ensures
        r == if (c as u32) < 128 {
            ascii_alphanumeric(c)
        } else {
            non_ascii_alphanumeric(c)
        },
;

/// `str::to_lowercase` applies the Unicode lower-case mapping. For ASCII
/// text (as for `char::to_lowercase`) the letters `A` to `Z` map to `a` to
/// `z` and every character without a lower-case mapping stays as it is;
/// the mapping of other text is named, not restated.
pub assume_specification[ str::to_lowercase ](s: &str) -> (r: String)
    ensures
        r@ == if ascii_text(s@) {
            s@.map_values(|c: char| ascii_lower(c))
        } else {
            non_ascii_lowercase(s@)
        },
;

/// `String::push` appends one character.
pub assume_specification[ String::push ](s: &mut String, ch: char)
    ensures
        final(s)@ == old(s)@.push(ch),
;

// ---------------------------------------------------------------------------
// Specifications
// ---------------------------------------------------------------------------

/// `needle` occurs in `hay` starting at position `i`.
pub open spec fn occurs_at(hay: Seq<char>, needle: Seq<char>, i: int) -> bool {
    0 <= i && i + needle.len() <= hay.len() && hay.subrange(i, i + needle.len()) == needle
}

/// `needle` occurs somewhere in `hay` (what `str::contains` answers).
pub open spec fn has_substring(hay: Seq<char>, needle: Seq<char>) -> bool {
    exists|i: int| #[trigger] occurs_at(hay, needle, i)
}

/// `hay` begins with `prefix`.
pub open spec fn has_prefix(hay: Seq<char>, prefix: Seq<char>) -> bool {
    prefix.len() <= hay.len() && hay.take(prefix.len() as int) == prefix
}

/// `hay` ends with `suffix`.
pub open spec fn has_suffix(hay: Seq<char>, suffix: Seq<char>) -> bool {
    suffix.len() <= hay.len() && hay.skip(hay.len() - suffix.len()) == suffix
}

/// Left-to-right replacement of every non-overlapping occurrence of `pat`
/// by `rep` (what `str::replace` computes for a non-empty pattern).
pub open spec fn replace_all(s: Seq<char>, pat: Seq<char>, rep: Seq<char>) -> Seq<char>
    decreases s.len(),
{
    if pat.len() == 0 || s.len() < pat.len() {
        s
    } else if s.take(pat.len() as int) == pat {
        rep + replace_all(s.skip(pat.len() as int), pat, rep)
    } else {
        seq![s[0]] + replace_all(s.skip(1), pat, rep)
    }
}

/// The maximal runs of non-white-space characters of `s`, in order (what
/// `str::split_whitespace` yields).
pub open spec fn words(s: Seq<char>) -> Seq<Seq<char>>
    decreases s.len(),
{
    if s.len() == 0 {
        seq![]
    } else {
        let prev = words(s.drop_last());
        let c = s.last();
        if unicode_white_space(c) {
            prev
        } else if s.len() >= 2 && !unicode_white_space(s[s.len() - 2]) {
            prev.update(prev.len() - 1, prev.last().push(c))
        } else {
            prev.push(seq![c])
        }
    }
}

/// The pieces of `parts` joined with `sep` between neighbours.
pub open spec fn join(parts: Seq<Seq<char>>, sep: Seq<char>) -> Seq<char>
    decreases parts.len(),
{
    if parts.len() == 0 {
        seq![]
    } else if parts.len() == 1 {
        parts[0]
    } else {
        join(parts.drop_last(), sep) + sep + parts.last()
    }
}

/// The character sequences held by a vector of character vectors.
pub open spec fn views(v: Seq<Vec<char>>) -> Seq<Seq<char>> {
    v.map_values(|w: Vec<char>| w@)
}

/// `s` without its leading characters that satisfy `p`.
pub open spec fn trim_start_by(s: Seq<char>, p: spec_fn(char) -> bool) -> Seq<char>
    decreases s.len(),
{
    if s.len() > 0 && p(s[0]) {
        trim_start_by(s.skip(1), p)
    } else {
        s
    }
}

/// `s` without its trailing characters that satisfy `p`.
pub open spec fn trim_end_by(s: Seq<char>, p: spec_fn(char) -> bool) -> Seq<char>
    decreases s.len(),
{
    if s.len() > 0 && p(s.last()) {
        trim_end_by(s.drop_last(), p)
    } else {
        s
    }
}

/// `s` without leading and trailing characters that satisfy `p` (what
/// `str::trim_matches` computes for a character predicate).
pub open spec fn trim_by(s: Seq<char>, p: spec_fn(char) -> bool) -> Seq<char> {
    trim_end_by(trim_start_by(s, p), p)
}

/// `s` without leading and trailing white space (what `str::trim` computes).
pub open spec fn trim_ws(s: Seq<char>) -> Seq<char> {
    trim_by(s, |c: char| unicode_white_space(c))
}

/// `s` without leading and trailing characters that are not alphanumeric.
pub open spec fn trim_non_alnum(s: Seq<char>) -> Seq<char> {
    trim_by(s, |c: char| !unicode_alphanumeric(c))
}

/// The decimal digit character for `d < 10`.
pub open spec fn digit_char(d: nat) -> char {
    (48 + d) as char
}

/// The decimal numeral of `n`, without leading zeros (what `{}` prints).
pub open spec fn decimal(n: nat) -> Seq<char>
    decreases n,
{
    if n < 10 {
        seq![digit_char(n)]
    } else {
        decimal(n / 10).push(digit_char(n % 10))
    }
}

/// The number of bytes that UTF-8 uses for `c` (what `char::len_utf8` returns).
pub open spec fn utf8_width(c: char) -> nat {
    if (c as u32) < 0x80 {
        1
    } else if (c as u32) < 0x800 {
        2
    } else if (c as u32) < 0x10000 {
        3
    } else {
        4
    }
}

/// The number of bytes that UTF-8 uses for `s` (what `str::len` returns).
pub open spec fn utf8_len(s: Seq<char>) -> nat
    decreases s.len(),
{
    if s.len() == 0 {
        0
    } else {
        utf8_len(s.drop_last()) + utf8_width(s.last())
    }
}

/// Lexicographic order of character sequences by code point, the order of
/// `str` (UTF-8 byte order agrees with code-point order).
pub open spec fn lex_lt(a: Seq<char>, b: Seq<char>) -> bool
    decreases a.len(),
{
    if a.len() == 0 {
        b.len() > 0
    } else if b.len() == 0 {
        false
    } else if a[0] != b[0] {
        (a[0] as int) < (b[0] as int)
    } else {
        lex_lt(a.skip(1), b.skip(1))
    }
}

// ---------------------------------------------------------------------------
// Lemmas
// ---------------------------------------------------------------------------

/// A string whose last character is not white space has at least one word.
pub proof fn lemma_words_nonempty(s: Seq<char>)
    requires
        s.len() > 0,
        !unicode_white_space(s.last()),
    ensures
        words(s).len() > 0,
    decreases s.len(),
{
    if s.len() >= 2 && !unicode_white_space(s[s.len() - 2]) {
        lemma_words_nonempty(s.drop_last());
    }
}

/// Every word is non-empty and free of white space.
pub proof fn lemma_words_clean(s: Seq<char>)
    ensures
        forall|i: int|
            0 <= i < words(s).len() ==> (#[trigger] words(s)[i]).len() > 0 && forall|j: int|
                0 <= j < words(s)[i].len() ==> !unicode_white_space(words(s)[i][j]),
    decreases s.len(),
{
    if s.len() > 0 {
        lemma_words_clean(s.drop_last());
        let prev = words(s.drop_last());
        let c = s.last();
        if !unicode_white_space(c) && s.len() >= 2 && !unicode_white_space(s[s.len() - 2]) {
            lemma_words_nonempty(s.drop_last());
            assert forall|i: int| 0 <= i < words(s).len() implies (#[trigger] words(s)[i]).len()
                > 0 && forall|j: int|
                0 <= j < words(s)[i].len() ==> !unicode_white_space(words(s)[i][j]) by {
                if i == prev.len() - 1 {
                    let w = prev.last().push(c);
                    assert(words(s)[i] == w);
                    assert forall|j: int| 0 <= j < w.len() implies !unicode_white_space(w[j]) by {
                        if j < w.len() - 1 {
                            assert(w[j] == prev[prev.len() - 1][j]);
                        }
                    }
                }
            }
        }
    }
}

/// Text already in ASCII lower case: every character is ASCII and stays
/// the same when lower-cased.
pub open spec fn ascii_lower_text(s: Seq<char>) -> bool {
    forall|i: int| 0 <= i < s.len() ==> (#[trigger] s[i] as u32) < 128 && ascii_lower(s[i]) == s[i]
}

/// Lower-casing ASCII text gives ASCII lower-case text.
pub proof fn lemma_lowercase_ascii(s: Seq<char>)
    requires
        ascii_text(s),
    ensures
        ascii_lower_text(unicode_lowercase(s)),
{
    let l = unicode_lowercase(s);
    assert forall|i: int| 0 <= i < l.len() implies (#[trigger] l[i] as u32) < 128 && ascii_lower(l[i])
        == l[i] by {
        assert(l[i] == ascii_lower(s[i]));
        assert((s[i] as u32) < 128);
    }
}

/// ASCII lower-case text is its own lower case.
pub proof fn lemma_lower_text_fixed(s: Seq<char>)
    requires
        ascii_lower_text(s),
    ensures
        ascii_text(s),
        unicode_lowercase(s) == s,
{
    assert(ascii_text(s));
    assert(unicode_lowercase(s) =~= s);
}

/// Lower-casing ASCII text twice gives what lower-casing it once gives.
pub proof fn lemma_lowercase_idempotent(s: Seq<char>)
    requires
        ascii_text(s),
    ensures
        unicode_lowercase(unicode_lowercase(s)) == unicode_lowercase(s),
{
    lemma_lowercase_ascii(s);
    lemma_lower_text_fixed(unicode_lowercase(s));
}

/// The words of ASCII lower-case text are ASCII lower-case text.
pub proof fn lemma_words_lower(s: Seq<char>)
    requires
        ascii_lower_text(s),
    ensures
        forall|i: int| 0 <= i < words(s).len() ==> ascii_lower_text(#[trigger] words(s)[i]),
    decreases s.len(),
{
    if s.len() > 0 {
        let t = s.drop_last();
        assert(ascii_lower_text(t)) by {
            assert forall|i: int| 0 <= i < t.len() implies (#[trigger] t[i] as u32) < 128
                && ascii_lower(t[i]) == t[i] by {
                assert(t[i] == s[i]);
            }
        }
        lemma_words_lower(t);
        let prev = words(t);
        let c = s.last();
        assert((s[s.len() - 1] as u32) < 128 && ascii_lower(s[s.len() - 1]) == s[s.len() - 1]);
        if unicode_white_space(c) {
        } else if s.len() >= 2 && !unicode_white_space(s[s.len() - 2]) {
            lemma_words_nonempty(t);
            assert forall|i: int| 0 <= i < words(s).len() implies ascii_lower_text(
                #[trigger] words(s)[i],
            ) by {
                if i == prev.len() - 1 {
                    let w = prev.last().push(c);
                    assert(words(s)[i] == w);
                    assert(ascii_lower_text(prev[prev.len() - 1]));
                    assert forall|j: int| 0 <= j < w.len() implies (#[trigger] w[j] as u32) < 128
                        && ascii_lower(w[j]) == w[j] by {
                        if j < w.len() - 1 {
                            assert(w[j] == prev[prev.len() - 1][j]);
                        }
                    }
                } else {
                    assert(words(s)[i] == prev[i]);
                }
            }
        } else {
            assert forall|i: int| 0 <= i < words(s).len() implies ascii_lower_text(
                #[trigger] words(s)[i],
            ) by {
                if i == prev.len() {
                    assert(words(s)[i] =~= seq![c]);
                } else {
                    assert(words(s)[i] == prev[i]);
                }
            }
        }
    }
}

/// A word: non-empty, with no white space in it.
pub open spec fn is_word(w: Seq<char>) -> bool {
    w.len() > 0 && forall|j: int| 0 <= j < w.len() ==> !unicode_white_space(#[trigger] w[j])
}

/// A word appended to text that is empty or ends in white space is one more
/// word of it.
proof fn lemma_words_append_word(b: Seq<char>, w: Seq<char>)
    requires
        b.len() == 0 || unicode_white_space(b.last()),
        is_word(w),
    ensures
        words(b + w) == words(b).push(w),
    decreases w.len(),
{
    let s = b + w;
    let c = w.last();
    assert(s.last() == c);
    assert(!unicode_white_space(w[w.len() - 1]));
    if w.len() == 1 {
        assert(s.drop_last() =~= b);
        if s.len() >= 2 {
            assert(s[s.len() - 2] == b.last());
        }
        assert(seq![c] =~= w);
    } else {
        let w1 = w.drop_last();
        assert(is_word(w1)) by {
            assert forall|j: int| 0 <= j < w1.len() implies !unicode_white_space(#[trigger] w1[j]) by {
                assert(w1[j] == w[j]);
            }
        }
        lemma_words_append_word(b, w1);
        assert(s.drop_last() =~= b + w1);
        assert(s[s.len() - 2] == w[w.len() - 2]);
        assert(!unicode_white_space(w[w.len() - 2]));
        let prev = words(b + w1);
        assert(prev.last() == w1);
        assert(w1.push(c) =~= w);
        assert(prev.update(prev.len() - 1, w) =~= words(b).push(w));
    }
}

/// Splitting words joined by single spaces gives the words back.
pub proof fn lemma_words_of_joined(ws: Seq<Seq<char>>)
    requires
        forall|i: int| 0 <= i < ws.len() ==> is_word(#[trigger] ws[i]),
    ensures
        words(join(ws, " "@)) == ws,
    decreases ws.len(),
{
    reveal_strlit(" ");
    if ws.len() == 0 {
    } else if ws.len() == 1 {
        assert(is_word(ws[0]));
        lemma_words_append_word(Seq::empty(), ws[0]);
        assert(Seq::<char>::empty() + ws[0] =~= ws[0]);
        assert(words(Seq::<char>::empty()).push(ws[0]) =~= ws);
    } else {
        let front = ws.drop_last();
        assert forall|i: int| 0 <= i < front.len() implies is_word(#[trigger] front[i]) by {
            assert(front[i] == ws[i]);
        }
        lemma_words_of_joined(front);
        let a = join(front, " "@);
        let b = a + " "@;
        assert(b.drop_last() =~= a);
        assert(b.last() == ' ');
        assert(words(b) == words(a));
        assert(is_word(ws[ws.len() - 1]));
        lemma_words_append_word(b, ws.last());
        assert(join(ws, " "@) == b + ws.last());
        assert(front.push(ws.last()) =~= ws);
    }
}

/// Text made of ASCII lower-case words joined by spaces is ASCII lower-case
/// text.
pub proof fn lemma_joined_lower(ws: Seq<Seq<char>>)
    requires
        forall|i: int| 0 <= i < ws.len() ==> ascii_lower_text(#[trigger] ws[i]),
    ensures
        ascii_lower_text(join(ws, " "@)),
    decreases ws.len(),
{
    reveal_strlit(" ");
    if ws.len() == 1 {
        assert(ascii_lower_text(ws[0]));
    } else if ws.len() > 1 {
        let front = ws.drop_last();
        assert forall|i: int| 0 <= i < front.len() implies ascii_lower_text(#[trigger] front[i]) by {
            assert(front[i] == ws[i]);
        }
        lemma_joined_lower(front);
        let a = join(front, " "@);
        let w = ws.last();
        assert(ascii_lower_text(ws[ws.len() - 1]));
        let j = a + " "@ + w;
        assert forall|i: int| 0 <= i < j.len() implies (#[trigger] j[i] as u32) < 128 && ascii_lower(
            j[i],
        ) == j[i] by {
            if i < a.len() {
                assert(j[i] == a[i]);
            } else if i == a.len() {
                assert(j[i] == ' ');
            } else {
                assert(j[i] == w[i - a.len() - 1]);
            }
        }
    }
}

/// No sequence comes before itself.
pub proof fn lemma_lex_irreflexive(a: Seq<char>)
    ensures
        !lex_lt(a, a),
    decreases a.len(),
{
    if a.len() > 0 {
        lemma_lex_irreflexive(a.skip(1));
    }
}

/// The order is transitive.
pub proof fn lemma_lex_transitive(a: Seq<char>, b: Seq<char>, c: Seq<char>)
    requires
        lex_lt(a, b),
        lex_lt(b, c),
    ensures
        lex_lt(a, c),
    decreases a.len(),
{
    if a.len() > 0 && b.len() > 0 && c.len() > 0 {
        if a[0] == b[0] && b[0] == c[0] {
            lemma_lex_transitive(a.skip(1), b.skip(1), c.skip(1));
        }
    }
}

/// Distinct sequences are ordered one way or the other.
pub proof fn lemma_lex_total(a: Seq<char>, b: Seq<char>)
    requires
        a != b,
    ensures
        lex_lt(a, b) || lex_lt(b, a),
    decreases a.len(),
{
    if a.len() > 0 && b.len() > 0 && a[0] == b[0] {
        if a.skip(1) == b.skip(1) {
            assert(a =~= seq![a[0]] + a.skip(1));
            assert(b =~= seq![b[0]] + b.skip(1));
        }
        lemma_lex_total(a.skip(1), b.skip(1));
    } else if a.len() == 0 && b.len() == 0 {
        assert(a =~= b);
    }
}

/// The order is asymmetric.
pub proof fn lemma_lex_asymmetric(a: Seq<char>, b: Seq<char>)
    requires
        lex_lt(a, b),
    ensures
        !lex_lt(b, a),
{
    if lex_lt(b, a) {
        lemma_lex_transitive(a, b, a);
        lemma_lex_irreflexive(a);
    }
}

/// Characterises `trim_start_by` by the index of the first kept character.
pub proof fn lemma_trim_start_at(s: Seq<char>, p: spec_fn(char) -> bool, a: int)
    requires
        0 <= a <= s.len(),
        forall|k: int| 0 <= k < a ==> p(#[trigger] s[k]),
        a == s.len() || !p(s[a]),
    ensures
        trim_start_by(s, p) == s.skip(a),
    decreases a,
{
    if a == 0 {
        assert(s.skip(0) =~= s);
    } else {
        let t = s.skip(1);
        assert forall|k: int| 0 <= k < a - 1 implies p(#[trigger] t[k]) by {
            assert(t[k] == s[k + 1]);
        }
        if a - 1 < t.len() {
            assert(t[a - 1] == s[a]);
        }
        lemma_trim_start_at(t, p, a - 1);
        assert(t.skip(a - 1) =~= s.skip(a));
    }
}

/// Characterises `trim_end_by` by the length of the kept prefix.
pub proof fn lemma_trim_end_at(s: Seq<char>, p: spec_fn(char) -> bool, b: int)
    requires
        0 <= b <= s.len(),
        forall|k: int| b <= k < s.len() ==> p(#[trigger] s[k]),
        b == 0 || !p(s[b - 1]),
    ensures
        trim_end_by(s, p) == s.take(b),
    decreases s.len() - b,
{
    if b == s.len() {
        assert(s.take(b) =~= s);
    } else {
        let t = s.drop_last();
        assert forall|k: int| b <= k < t.len() implies p(#[trigger] t[k]) by {
            assert(t[k] == s[k]);
        }
        if b > 0 {
            assert(t[b - 1] == s[b - 1]);
        }
        lemma_trim_end_at(t, p, b);
        assert(t.take(b) =~= s.take(b));
    }
}

// ---------------------------------------------------------------------------
// Executable functions
// ---------------------------------------------------------------------------

/// The characters of `s`, in order.
pub fn chars_of(s: &str) -> (v: Vec<char>)
    ensures
        v@ == s@,
{
    let mut v: Vec<char> = Vec::new();
    for c in iter: s.chars()
        invariant
            v@ == iter.seq().take(iter.index() as int),
    {
        v.push(c);
    }
    v
}

/// A `String` holding exactly the characters of `v`.
pub fn string_of(v: &Vec<char>) -> (s: String)
    ensures
        s@ == v@,
{
    let mut s = String::new();
    for i in 0..v.len()
        invariant
            s@ == v@.take(i as int),
    {
        s.push(v[i]);
        assert(v@.take(i + 1) =~= v@.take(i as int).push(v@[i as int]));
    }
    assert(v@.take(v.len() as int) =~= v@);
    s
}

/// The lower-cased characters of `s`.
pub fn lower(s: &str) -> (v: Vec<char>)
    ensures
        v@ == unicode_lowercase(s@),
{
    let l = s.to_lowercase();
    chars_of(l.as_str())
}

/// Appends the characters of `src` to `dst`.
pub fn extend(dst: &mut Vec<char>, src: &Vec<char>)
    ensures
        final(dst)@ == old(dst)@ + src@,
{
    let ghost start = dst@;
    for i in 0..src.len()
        invariant
            dst@ == start + src@.take(i as int),
    {
        dst.push(src[i]);
        assert(src@.take(i + 1) =~= src@.take(i as int).push(src@[i as int]));
    }
    assert(src@.take(src.len() as int) =~= src@);
}

/// Appends the characters of `src` to `dst`.
pub fn extend_str(dst: &mut Vec<char>, src: &str)
    ensures
        final(dst)@ == old(dst)@ + src@,
{
    let v = chars_of(src);
    extend(dst, &v);
}

/// `a` and `b` hold the same characters.
pub fn same(a: &Vec<char>, b: &Vec<char>) -> (r: bool)
    ensures
        r == (a@ == b@),
{
    if a.len() != b.len() {
        return false;
    }
    for i in 0..a.len()
        invariant
            a.len() == b.len(),
            forall|k: int| 0 <= k < i ==> a@[k] == b@[k],
    {
        if a[i] != b[i] {
            return false;
        }
    }
    assert(a@ =~= b@);
    true
}

/// Does `needle` occur in `hay` at position `i`?
pub fn occurs_at_exec(hay: &Vec<char>, needle: &Vec<char>, i: usize) -> (r: bool)
    requires
        i <= hay.len(),
    ensures
        r == occurs_at(hay@, needle@, i as int),
{
    if needle.len() > hay.len() - i {
        return false;
    }
    for j in 0..needle.len()
        invariant
            i + needle.len() <= hay.len(),
            forall|k: int| 0 <= k < j ==> hay@[i + k] == needle@[k],
    {
        if hay[i + j] != needle[j] {
            assert(hay@.subrange(i as int, i + needle.len())[j as int] != needle@[j as int]);
            return false;
        }
    }
    assert(hay@.subrange(i as int, i + needle.len()) =~= needle@);
    true
}

/// Does `needle` occur anywhere in `hay`?
pub fn contains(hay: &Vec<char>, needle: &Vec<char>) -> (r: bool)
    ensures
        r == has_substring(hay@, needle@),
{
    if needle.len() > hay.len() {
        assert(forall|i: int| !#[trigger] occurs_at(hay@, needle@, i));
        return false;
    }
    let last = hay.len() - needle.len();
    let mut i: usize = 0;
    while i < last
        invariant
            last == hay.len() - needle.len(),
            i <= last,
            forall|k: int| 0 <= k < i ==> !#[trigger] occurs_at(hay@, needle@, k),
        decreases last - i,
    {
        if occurs_at_exec(hay, needle, i) {
            return true;
        }
        i = i + 1;
    }
    if occurs_at_exec(hay, needle, last) {
        return true;
    }
    assert(forall|k: int| !#[trigger] occurs_at(hay@, needle@, k));
    false
}

/// Does the literal `needle` occur anywhere in `hay`?
pub fn contains_str(hay: &Vec<char>, needle: &str) -> (r: bool)
    ensures
        r == has_substring(hay@, needle@),
{
    let n = chars_of(needle);
    contains(hay, &n)
}

/// Does `hay` begin with `prefix`?
pub fn starts_with(hay: &Vec<char>, prefix: &Vec<char>) -> (r: bool)
    ensures
        r == has_prefix(hay@, prefix@),
{
    let r = occurs_at_exec(hay, prefix, 0);
    proof {
        if prefix@.len() <= hay@.len() {
            assert(hay@.subrange(0, prefix@.len() as int) =~= hay@.take(prefix@.len() as int));
        }
    }
    r
}

/// Does `hay` begin with the literal `prefix`?
pub fn starts_with_str(hay: &Vec<char>, prefix: &str) -> (r: bool)
    ensures
        r == has_prefix(hay@, prefix@),
{
    let p = chars_of(prefix);
    starts_with(hay, &p)
}

/// Does `hay` end with `suffix`?
pub fn ends_with(hay: &Vec<char>, suffix: &Vec<char>) -> (r: bool)
    ensures
        r == has_suffix(hay@, suffix@),
{
    if suffix.len() > hay.len() {
        return false;
    }
    let start = hay.len() - suffix.len();
    let r = occurs_at_exec(hay, suffix, start);
    proof {
        assert(hay@.subrange(start as int, hay@.len() as int) =~= hay@.skip(start as int));
    }
    r
}

/// Does `hay` end with the literal `suffix`?
pub fn ends_with_str(hay: &Vec<char>, suffix: &str) -> (r: bool)
    ensures
        r == has_suffix(hay@, suffix@),
{
    let p = chars_of(suffix);
    ends_with(hay, &p)
}


/// The characters `s[from..to]`.
pub fn slice(s: &Vec<char>, from: usize, to: usize) -> (r: Vec<char>)
    requires
        from <= to <= s.len(),
    ensures
        r@ == s@.subrange(from as int, to as int),
{
    let mut r: Vec<char> = Vec::new();
    let mut i = from;
    while i < to
        invariant
            from <= i <= to <= s.len(),
            r@ == s@.subrange(from as int, i as int),
        decreases to - i,
    {
        r.push(s[i]);
        assert(s@.subrange(from as int, i + 1) =~= s@.subrange(from as int, i as int).push(
            s@[i as int],
        ));
        i = i + 1;
    }
    r
}

/// At most the first `n` characters of `s` (what `chars().take(n)` keeps).
pub fn take_chars(s: &Vec<char>, n: usize) -> (r: Vec<char>)
    ensures
        r@ == s@.take(if n <= s.len() { n as int } else { s.len() as int }),
{
    let end = if n <= s.len() {
        n
    } else {
        s.len()
    };
    let r = slice(s, 0, end);
    assert(s@.subrange(0, end as int) =~= s@.take(end as int));
    r
}

/// Replaces every non-overlapping occurrence of `pat`, scanning left to right.
pub fn replace(s: &Vec<char>, pat: &Vec<char>, rep: &Vec<char>) -> (r: Vec<char>)
    requires
        pat.len() > 0,
    ensures
        r@ == replace_all(s@, pat@, rep@),
{
    let mut out: Vec<char> = Vec::new();
    let mut i: usize = 0;
    assert(s@.skip(0) =~= s@);
    while i < s.len()
        invariant
            pat.len() > 0,
            i <= s.len(),
            replace_all(s@, pat@, rep@) == out@ + replace_all(s@.skip(i as int), pat@, rep@),
        decreases s.len() - i,
    {
        let ghost t = s@.skip(i as int);
        if occurs_at_exec(s, pat, i) {
            proof {
                assert(t.take(pat@.len() as int) =~= s@.subrange(i as int, i + pat@.len()));
                assert(t.skip(pat@.len() as int) =~= s@.skip(i + pat@.len()));
            }
            extend(&mut out, rep);
            i = i + pat.len();
        } else {
            proof {
                if t.len() >= pat@.len() {
                    assert(t.take(pat@.len() as int) =~= s@.subrange(i as int, i + pat@.len()));
                } else {
                    assert(replace_all(t.skip(1), pat@, rep@) == t.skip(1));
                }
                assert(t =~= seq![s@[i as int]] + t.skip(1));
                assert(t.skip(1) =~= s@.skip(i + 1));
            }
            out.push(s[i]);
            i = i + 1;
        }
    }
    assert(s@.skip(i as int) =~= Seq::<char>::empty());
    out
}

/// Replaces every non-overlapping occurrence of the literal `pat` by `rep`.
pub fn replace_str(s: &Vec<char>, pat: &str, rep: &str) -> (r: Vec<char>)
    requires
        pat@.len() > 0,
    ensures
        r@ == replace_all(s@, pat@, rep@),
{
    let p = chars_of(pat);
    let q = chars_of(rep);
    replace(s, &p, &q)
}

/// The white-space separated words of `s`.
pub fn split_whitespace(s: &Vec<char>) -> (r: Vec<Vec<char>>)
    ensures
        views(r@) == words(s@),
{
    let mut acc: Vec<Vec<char>> = Vec::new();
    for i in 0..s.len()
        invariant
            views(acc@) == words(s@.take(i as int)),
    {
        let c = s[i];
        let ghost pre = s@.take(i as int);
        let ghost cur = s@.take(i + 1);
        proof {
            assert(cur.drop_last() =~= pre);
            assert(cur.last() == c);
        }
        if c.is_whitespace() {
        } else if i > 0 && !s[i - 1].is_whitespace() {
            proof {
                assert(pre.last() == s@[i - 1]);
                lemma_words_nonempty(pre);
                assert(cur[cur.len() - 2] == s@[i - 1]);
            }
            let mut w = acc.pop().unwrap();
            w.push(c);
            acc.push(w);
            proof {
                assert(views(acc@) =~= words(pre).update(
                    words(pre).len() - 1,
                    words(pre).last().push(c),
                ));
            }
        } else {
            let mut w: Vec<char> = Vec::new();
            w.push(c);
            acc.push(w);
            proof {
                if i > 0 {
                    assert(cur[cur.len() - 2] == s@[i - 1]);
                }
                assert(views(acc@) =~= words(pre).push(seq![c]));
            }
        }
    }
    assert(s@.take(s.len() as int) =~= s@);
    acc
}

/// The pieces of `parts` joined with `sep`.
pub fn join_with(parts: &Vec<Vec<char>>, sep: &Vec<char>) -> (r: Vec<char>)
    ensures
        r@ == join(views(parts@), sep@),
{
    let mut out: Vec<char> = Vec::new();
    for i in 0..parts.len()
        invariant
            out@ == join(views(parts@).take(i as int), sep@),
    {
        let ghost pre = views(parts@).take(i as int);
        let ghost cur = views(parts@).take(i + 1);
        proof {
            assert(cur.drop_last() =~= pre);
            assert(cur.last() == parts@[i as int]@);
        }
        if i > 0 {
            extend(&mut out, sep);
        }
        extend(&mut out, &parts[i]);
        proof {
            if i == 0 {
                assert(out@ =~= cur[0]);
            }
        }
    }
    assert(views(parts@).take(parts.len() as int) =~= views(parts@));
    out
}

/// The pieces of `parts` joined with the literal `sep`.
pub fn join_str(parts: &Vec<Vec<char>>, sep: &str) -> (r: Vec<char>)
    ensures
        r@ == join(views(parts@), sep@),
{
    let s = chars_of(sep);
    join_with(parts, &s)
}

/// `s` without leading and trailing white space.
pub fn trim_whitespace(s: &Vec<char>) -> (r: Vec<char>)
    ensures
        r@ == trim_ws(s@),
{
    let ghost p = |c: char| unicode_white_space(c);
    let mut a: usize = 0;
    while a < s.len() && s[a].is_whitespace()
        invariant
            a <= s.len(),
            p == (|c: char| unicode_white_space(c)),
            forall|k: int| 0 <= k < a ==> p(#[trigger] s@[k]),
        decreases s.len() - a,
    {
        a = a + 1;
    }
    let mut b: usize = s.len();
    while b > a && s[b - 1].is_whitespace()
        invariant
            a <= b <= s.len(),
            p == (|c: char| unicode_white_space(c)),
            forall|k: int| b <= k < s.len() ==> p(#[trigger] s@[k]),
        decreases b - a,
    {
        b = b - 1;
    }
    proof {
        lemma_trim_start_at(s@, p, a as int);
        let t = s@.skip(a as int);
        assert forall|k: int| b - a <= k < t.len() implies p(#[trigger] t[k]) by {
            assert(t[k] == s@[k + a]);
        }
        if b > a {
            assert(t[b - a - 1] == s@[b - 1]);
        }
        lemma_trim_end_at(t, p, b - a);
        assert(t.take(b - a) =~= s@.subrange(a as int, b as int));
    }
    slice(s, a, b)
}

/// `s` without leading and trailing characters that are not alphanumeric.
pub fn trim_non_alphanumeric(s: &Vec<char>) -> (r: Vec<char>)
    ensures
        r@ == trim_non_alnum(s@),
{
    let ghost p = |c: char| !unicode_alphanumeric(c);
    let mut a: usize = 0;
    while a < s.len() && !s[a].is_alphanumeric()
        invariant
            a <= s.len(),
            p == (|c: char| !unicode_alphanumeric(c)),
            forall|k: int| 0 <= k < a ==> p(#[trigger] s@[k]),
        decreases s.len() - a,
    {
        a = a + 1;
    }
    let mut b: usize = s.len();
    while b > a && !s[b - 1].is_alphanumeric()
        invariant
            a <= b <= s.len(),
            p == (|c: char| !unicode_alphanumeric(c)),
            forall|k: int| b <= k < s.len() ==> p(#[trigger] s@[k]),
        decreases b - a,
    {
        b = b - 1;
    }
    proof {
        lemma_trim_start_at(s@, p, a as int);
        let t = s@.skip(a as int);
        assert forall|k: int| b - a <= k < t.len() implies p(#[trigger] t[k]) by {
            assert(t[k] == s@[k + a]);
        }
        if b > a {
            assert(t[b - a - 1] == s@[b - 1]);
        }
        lemma_trim_end_at(t, p, b - a);
        assert(t.take(b - a) =~= s@.subrange(a as int, b as int));
    }
    slice(s, a, b)
}

/// The decimal digit character for `d`.
pub fn digit(d: u64) -> (c: char)
    requires
        d < 10,
    ensures
        c == digit_char(d as nat),
{
    let b: u8 = 48u8 + (d as u8);
    b as char
}

/// The decimal numeral of `n`.
pub fn decimal_of(n: u64) -> (r: Vec<char>)
    ensures
        r@ == decimal(n as nat),
    decreases n,
{
    if n < 10 {
        let mut r: Vec<char> = Vec::new();
        r.push(digit(n));
        assert(r@ =~= seq![digit_char(n as nat)]);
        r
    } else {
        let mut r = decimal_of(n / 10);
        r.push(digit(n % 10));
        r
    }
}

/// Does `a` come before `b` in lexicographic order?
pub fn lex_less(a: &Vec<char>, b: &Vec<char>) -> (r: bool)
    ensures
        r == lex_lt(a@, b@),
{
    let mut i: usize = 0;
    assert(a@.skip(0) =~= a@ && b@.skip(0) =~= b@);
    while i < a.len() && i < b.len() && a[i] == b[i]
        invariant
            i <= a.len(),
            i <= b.len(),
            forall|k: int| 0 <= k < i ==> a@[k] == b@[k],
            lex_lt(a@, b@) == lex_lt(a@.skip(i as int), b@.skip(i as int)),
        decreases a.len() - i,
    {
        proof {
            let x = a@.skip(i as int);
            let y = b@.skip(i as int);
            assert(x.skip(1) =~= a@.skip(i + 1));
            assert(y.skip(1) =~= b@.skip(i + 1));
        }
        i = i + 1;
    }
    if i == a.len() {
        i < b.len()
    } else if i == b.len() {
        false
    } else {
        a[i] < b[i]
    }
}

} // verus!
