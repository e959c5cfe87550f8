//! The service's settings: how the values it is configured with are read,
//! their defaults, and the cache categories it cleans up at start.
use vstd::prelude::*;
use crate::cache::{join_path, path_join};
use crate::text::{chars_of, decimal};

verus! {

/// The value of a string of ASCII digits (at least one); `None` when it is
/// empty or holds anything else.
pub open spec fn digits_value(s: Seq<char>) -> Option<int>
    decreases s.len(),
{
    if s.len() == 0 {
        None
    } else if !('0' <= s.last() && s.last() <= '9') {
        None
    } else if s.len() == 1 {
        Some(s.last() as int - '0' as int)
    } else {
        match digits_value(s.drop_last()) {
            Some(v) => Some(v * 10 + (s.last() as int - '0' as int)),
            None => None,
        }
    }
}

/// The value of an unsigned number as Rust's `FromStr` reads it: an
/// optional `+`, then digits.
pub open spec fn unsigned_value(s: Seq<char>) -> Option<int> {
    if s.len() > 0 && s[0] == '+' {
        digits_value(s.skip(1))
    } else {
        digits_value(s)
    }
}

/// The value of a signed number as Rust's `FromStr` reads it: an optional
/// `+` or `-`, then digits.
pub open spec fn signed_value(s: Seq<char>) -> Option<int> {
    if s.len() > 0 && s[0] == '-' {
        match digits_value(s.skip(1)) {
            Some(v) => Some(-v),
            None => None,
        }
    } else {
        unsigned_value(s)
    }
}

/// A number in `u16`, as `u16::from_str` reads it.
pub open spec fn u16_text(s: Seq<char>) -> Option<u16> {
    match unsigned_value(s) {
        Some(v) => if v <= 65535 {
            Some(v as u16)
        } else {
            None
        },
        None => None,
    }
}

/// A number in `i64`, as `i64::from_str` reads it.
pub open spec fn i64_text(s: Seq<char>) -> Option<i64> {
    match signed_value(s) {
        Some(v) => if i64::MIN <= v <= i64::MAX {
            Some(v as i64)
        } else {
            None
        },
        None => None,
    }
}

proof fn lemma_digits_nonneg(s: Seq<char>)
    ensures
        digits_value(s) matches Some(v) ==> v >= 0,
    decreases s.len(),
{
    if s.len() > 1 {
        lemma_digits_nonneg(s.drop_last());
    }
}

/// A longer string of digits has at least the value of its prefix.
proof fn lemma_digits_grow(s: Seq<char>, k: int)
    requires
        0 < k <= s.len(),
        digits_value(s) is Some,
    ensures
        digits_value(s.take(k)) is Some,
        digits_value(s.take(k))->0 <= digits_value(s)->0,
    decreases s.len() - k,
{
    if k == s.len() {
        assert(s.take(k) =~= s);
    } else {
        assert(s.drop_last().take(k) =~= s.take(k));
        lemma_digits_nonneg(s.drop_last());
        lemma_digits_grow(s.drop_last(), k);
    }
}

/// The value of digits `s[from..]`, if they are digits and their value is
/// at most `limit`; `None` otherwise.
fn digits_upto(s: &Vec<char>, from: usize, limit: u128) -> (r: Option<u128>)
    requires
        from <= s.len(),
        limit < 0x1_0000_0000_0000_0000_0000,
    ensures
        match r {
            Some(v) => digits_value(s@.skip(from as int)) == Some(v as int) && v <= limit,
            None => match digits_value(s@.skip(from as int)) {
                Some(v) => v > limit,
                None => true,
            },
        },
{
    let ghost t = s@.skip(from as int);
    if from == s.len() {
        return None;
    }
    let mut v: u128 = 0;
    let mut i: usize = from;
    while i < s.len()
        invariant
            from < i <= s.len() || i == from,
            from < s.len(),
            t == s@.skip(from as int),
            limit < 0x1_0000_0000_0000_0000_0000,
            v <= limit,
            i == from ==> v == 0,
            i > from ==> digits_value(t.take(i - from)) == Some(v as int),
        decreases s.len() - i,
    {
        let c = s[i];
        if !('0' <= c && c <= '9') {
            proof {
                lemma_not_digits(t, i - from);
            }
            return None;
        }
        let d = (c as u32 - '0' as u32) as u128;
        proof {
            assert(t.take(i + 1 - from).drop_last() =~= t.take(i - from));
            assert(t.take(i + 1 - from).last() == c);
        }
        let nv = v * 10 + d;
        if nv > limit {
            proof {
                if digits_value(t) is Some {
                    lemma_digits_grow(t, i + 1 - from);
                }
            }
            return None;
        }
        v = nv;
        i = i + 1;
    }
    proof {
        assert(t.take(i - from) =~= t);
    }
    Some(v)
}

/// A string with a non-digit at `k` has no digits value.
proof fn lemma_not_digits(t: Seq<char>, k: int)
    requires
        0 <= k < t.len(),
        !('0' <= t[k] && t[k] <= '9'),
    ensures
        digits_value(t) is None,
    decreases t.len(),
{
    if k < t.len() - 1 {
        lemma_not_digits(t.drop_last(), k);
    }
}

/// Read a number in `u16`, as `u16::from_str` does.
pub fn parse_u16(text: &str) -> (r: Option<u16>)
    ensures
        r == u16_text(text@),
{
    let s = chars_of(text);
    let from: usize = if s.len() > 0 && s[0] == '+' {
        1
    } else {
        0
    };
    assert(s@ == text@);
    assert(s@.skip(0) =~= s@);
    assert(unsigned_value(text@) == digits_value(s@.skip(from as int)));
    match digits_upto(&s, from, 65535) {
        Some(v) => {
            assert(u16_text(text@) == Some(v as u16));
            Some(v as u16)
        },
        None => {
            assert(u16_text(text@) is None);
            None
        },
    }
}

/// Read a number in `i64`, as `i64::from_str` does.
pub fn parse_i64(text: &str) -> (r: Option<i64>)
    ensures
        r == i64_text(text@),
{
    let s = chars_of(text);
    if s.len() > 0 && s[0] == '-' {
        proof {
            lemma_digits_nonneg(s@.skip(1));
        }
        match digits_upto(&s, 1, 0x8000_0000_0000_0000) {
            Some(v) => {
                if v == 0x8000_0000_0000_0000 {
                    Some(i64::MIN)
                } else {
                    let w = v as i64;
                    Some(-w)
                }
            },
            None => None,
        }
    } else {
        let from: usize = if s.len() > 0 && s[0] == '+' {
            1
        } else {
            0
        };
        proof {
            assert(s@.skip(0) =~= s@);
            lemma_digits_nonneg(s@.skip(from as int));
        }
        match digits_upto(&s, from, 0x7fff_ffff_ffff_ffff) {
            Some(v) => Some(v as i64),
            None => None,
        }
    }
}

/// A port setting: the configured value if any, else the default; a value
/// that is not a port number is refused with `Invalid <name>`.
pub fn port_setting(value: Option<&str>, default: u16, name: &str) -> (r: Result<u16, String>)
    ensures
        match value {
            None => r == Ok::<u16, String>(default),
            Some(v) => match u16_text(v@) {
                Some(p) => r == Ok::<u16, String>(p),
                None => r matches Err(m) && m@ == "Invalid "@ + name@,
            },
        },
{
    match value {
        None => Ok(default),
        Some(v) => match parse_u16(v) {
            Some(p) => Ok(p),
            None => {
                let mut m = "Invalid ".to_owned();
                m.append(name);
                Err(m)
            },
        },
    }
}

/// The port of the REST API when none is configured.
pub const DEFAULT_PORT: u16 = 8765;

/// The port of the MCP server when none is configured.
pub const DEFAULT_MCP_PORT: u16 = 8766;

/// How long cached index pages live, in seconds, when not configured (or
/// configured with something that is not a number).
pub fn cache_ttl_seconds(value: Option<&str>) -> (t: i64)
    ensures
        t == match value {
            Some(v) => match i64_text(v@) {
                Some(n) => n,
                None => 86400,
            },
            None => 86400,
        },
{
    match value {
        Some(v) => match parse_i64(v) {
            Some(n) => n,
            None => 86400,
        },
        None => 86400,
    }
}

/// A text setting: the configured value if any, else the default.
pub fn text_setting(value: Option<&str>, default: &str) -> (t: String)
    ensures
        t@ == match value {
            Some(v) => v@,
            None => default@,
        },
{
    match value {
        Some(v) => v.to_owned(),
        None => default.to_owned(),
    }
}

/// The directory of the cache: `cache` under the index directory.
pub fn cache_root(index_path: &str) -> (p: String)
    ensures
        p@ == path_join(index_path@, "cache"@),
{
    join_path(index_path, "cache")
}

/// The cache categories cleaned up at start, with their times to live in
/// hours.
pub open spec fn cleanup_plan() -> Seq<(Seq<char>, u64)> {
    seq![
        ("pages"@, 24u64),
        ("youtube"@, 168u64),
        ("llm"@, 24u64),
        ("extractors_web"@, 24u64),
        ("extractors_pdf"@, 24u64),
        ("extractors_video"@, 168u64),
        ("extractors_audio"@, 168u64),
        ("extractors_image"@, 24u64),
        ("extractors_code"@, 168u64),
    ]
}

/// The cache categories cleaned up at start, with their times to live.
pub fn cleanup_schedule() -> (plan: Vec<(String, u64)>)
    ensures
        plan@.map_values(|e: (String, u64)| (e.0@, e.1)) == cleanup_plan(),
{
    let mut plan: Vec<(String, u64)> = Vec::new();
    plan.push(("pages".to_owned(), 24));
    plan.push(("youtube".to_owned(), 168));
    plan.push(("llm".to_owned(), 24));
    plan.push(("extractors_web".to_owned(), 24));
    plan.push(("extractors_pdf".to_owned(), 24));
    plan.push(("extractors_video".to_owned(), 168));
    plan.push(("extractors_audio".to_owned(), 168));
    plan.push(("extractors_image".to_owned(), 24));
    plan.push(("extractors_code".to_owned(), 168));
    assert(plan@.map_values(|e: (String, u64)| (e.0@, e.1)) =~= cleanup_plan());
    plan
}

/// How long the embeddings are kept, in hours.
pub const EMBEDDING_TTL_HOURS: u64 = 168;

/// Every character of a decimal numeral is a digit, the first included.
proof fn lemma_decimal_digits(n: nat)
    ensures
        decimal(n).len() >= 1,
        forall|i: int| 0 <= i < decimal(n).len() ==> '0' <= #[trigger] decimal(n)[i] <= '9',
    decreases n,
{
    if n >= 10 {
        lemma_decimal_digits(n / 10);
    }
}

/// A decimal numeral reads back as its number.
proof fn lemma_decimal_value(n: nat)
    ensures
        digits_value(decimal(n)) == Some(n as int),
    decreases n,
{
    lemma_decimal_digits(n);
    if n >= 10 {
        lemma_decimal_value(n / 10);
        let d = decimal(n);
        assert(d.drop_last() =~= decimal(n / 10));
        vstd::arithmetic::div_mod::lemma_fundamental_div_mod(n as int, 10);
    }
}

/// A port number written in decimal (as the service logs it) reads back as
/// the same port.
pub proof fn lemma_port_roundtrip(port: u16)
    ensures
        u16_text(decimal(port as nat)) == Some(port),
{
    lemma_decimal_digits(port as nat);
    lemma_decimal_value(port as nat);
}

} // verus!
