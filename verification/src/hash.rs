//! Cache keys: the lower-case hexadecimal digest of a string under std's
//! `DefaultHasher`.
use std::collections::hash_map::DefaultHasher;
use std::hash::Hasher;
use vstd::prelude::*;
use vstd::utf8::encode_utf8;
use vstd::std_specs::hash::DefaultHasherAdditionalSpecFns;
use crate::text::{extend_str, join, string_of};

verus! {

/// The lower-case hexadecimal digit for `d < 16`.
pub open spec fn hex_digit_char(d: nat) -> char {
    if d < 10 {
        (48 + d) as char
    } else {
        (87 + d) as char
    }
}

/// The lower-case hexadecimal numeral of `n`, without leading zeros (what
/// `{:x}` prints).
pub open spec fn hex(n: nat) -> Seq<char>
    decreases n,
{
    if n < 16 {
        seq![hex_digit_char(n)]
    } else {
        hex(n / 16).push(hex_digit_char(n % 16))
    }
}

/// The `DefaultHasher` digest of the byte stream that hashing a string feeds
/// a hasher: its UTF-8 bytes, then the terminator byte `0xff`.
pub open spec fn digest(s: Seq<char>) -> u64 {
    DefaultHasher::spec_finish(seq![encode_utf8(s), seq![0xffu8]])
}

/// The cache key of a string.
pub open spec fn key_of(s: Seq<char>) -> Seq<char> {
    hex(digest(s) as nat)
}

/// The separator that `cache_key_multi` puts between the values.
pub open spec fn multi_separator() -> Seq<char> {
    seq![':', ':']
}

/// The cache key of several values.
pub open spec fn multi_key_of(values: Seq<Seq<char>>) -> Seq<char> {
    key_of(join(values, multi_separator()))
}

/// Every hexadecimal numeral is a non-empty run of `0-9a-f`.
pub proof fn lemma_hex_shape(n: nat)
    ensures
        hex(n).len() > 0,
        forall|i: int|
            0 <= i < hex(n).len() ==> ('0' <= #[trigger] hex(n)[i] <= '9' || 'a' <= hex(n)[i]
                <= 'f'),
    decreases n,
{
    if n >= 16 {
        lemma_hex_shape(n / 16);
    }
}

/// A cache key is a non-empty string of lower-case hexadecimal digits, so it
/// is a safe file name.
pub proof fn lemma_key_is_hex(s: Seq<char>)
    ensures
        key_of(s).len() > 0,
        forall|i: int|
            0 <= i < key_of(s).len() ==> ('0' <= #[trigger] key_of(s)[i] <= '9' || 'a'
                <= key_of(s)[i] <= 'f'),
{
    lemma_hex_shape(digest(s) as nat);
}

/// The key of a single value is the key of that value itself.
pub proof fn lemma_multi_key_single(v: Seq<char>)
    ensures
        multi_key_of(seq![v]) == key_of(v),
{
    assert(join(seq![v], multi_separator()) == v);
}

/// The lower-case hexadecimal digit for `d`.
fn hex_digit(d: u64) -> (c: char)
    requires
        d < 16,
    ensures
        c == hex_digit_char(d as nat),
{
    if d < 10 {
        let b: u8 = 48u8 + (d as u8);
        b as char
    } else {
        let b: u8 = 87u8 + (d as u8);
        b as char
    }
}

/// The lower-case hexadecimal numeral of `n`.
fn hex_of(n: u64) -> (r: Vec<char>)
    ensures
        r@ == hex(n as nat),
    decreases n,
{
    if n < 16 {
        let mut r: Vec<char> = Vec::new();
        r.push(hex_digit(n));
        assert(r@ =~= seq![hex_digit_char(n as nat)]);
        r
    } else {
        let mut r = hex_of(n / 16);
        r.push(hex_digit(n % 16));
        r
    }
}

/// Generate a cache key from a value.
pub fn cache_key(value: &str) -> (key: String)
    ensures
        key@ == key_of(value@),
{
    let mut hasher = DefaultHasher::new();
    hasher.write(value.as_bytes());
    let terminator: [u8; 1] = [0xffu8];
    hasher.write(terminator.as_slice());
    assert(terminator@ =~= seq![0xffu8]);
    assert(hasher@ =~= seq![encode_utf8(value@), seq![0xffu8]]);
    let d = hasher.finish();
    string_of(&hex_of(d))
}

/// Generate a cache key from multiple values, joined with `::`.
pub fn cache_key_multi(values: &[&str]) -> (key: String)
    ensures
        key@ == multi_key_of(values@.map_values(|v: &str| v@)),
{
    let ghost parts = values@.map_values(|v: &str| v@);
    let mut combined: Vec<char> = Vec::new();
    for i in 0..values.len()
        invariant
            parts == values@.map_values(|v: &str| v@),
            combined@ == join(parts.take(i as int), multi_separator()),
    {
        let ghost pre = parts.take(i as int);
        let ghost cur = parts.take(i + 1);
        proof {
            assert(cur.drop_last() =~= pre);
            assert(cur.last() == values@[i as int]@);
        }
        if i > 0 {
            extend_str(&mut combined, "::");
            proof {
                reveal_strlit("::");
                assert("::"@ =~= multi_separator());
            }
        }
        extend_str(&mut combined, values[i]);
        proof {
            if i == 0 {
                assert(combined@ =~= cur[0]);
            }
        }
    }
    assert(parts.take(values.len() as int) =~= parts);
    let s = string_of(&combined);
    cache_key(s.as_str())
}

} // verus!
