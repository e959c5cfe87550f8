//! Where cached items live and when they expire. The cache keeps one JSON
//! file per item, `<root>/<category>/<key>.json`, stamped with the second it
//! was written; an item older than its category's time to live is expired.
use vstd::prelude::*;
use crate::hash::{key_of, lemma_key_is_hex};
use crate::query_expansion::string_views;
use crate::text::{has_prefix, has_suffix};

verus! {

/// The path that `base` joined with `part` names, as a Unix path: an absolute
/// `part` replaces `base`; otherwise `part` goes after `base`, with a `/`
/// between them unless `base` is empty or already ends in one.
pub open spec fn path_join(base: Seq<char>, part: Seq<char>) -> Seq<char> {
    if has_prefix(part, "/"@) {
        part
    } else if base.len() == 0 || base.last() == '/' {
        base + part
    } else {
        base + "/"@ + part
    }
}

/// Join `part` onto the path `base`.
pub fn join_path(base: &str, part: &str) -> (p: String)
    ensures
        p@ == path_join(base@, part@),
{
    proof {
        reveal_strlit("/");
    }
    let b = base.to_owned();
    let q = part.to_owned();
    let bv = crate::text::chars_of(base);
    let pv = crate::text::chars_of(part);
    if pv.len() > 0 && pv[0] == '/' {
        assert(has_prefix(part@, "/"@)) by {
            assert(part@.subrange(0, 1) =~= "/"@);
        }
        q
    } else {
        assert(!has_prefix(part@, "/"@)) by {
            if pv.len() > 0 {
                assert(part@.subrange(0, 1)[0] == part@[0]);
            }
        }
        if bv.len() == 0 || bv[bv.len() - 1] == '/' {
            let mut r = b;
            r.append(part);
            r
        } else {
            let mut r = b;
            r.append("/");
            r.append(part);
            r
        }
    }
}

/// The file of an item: `<root>/<category>/<key>.json`.
pub open spec fn item_path(root: Seq<char>, category: Seq<char>, key: Seq<char>) -> Seq<char> {
    path_join(path_join(root, category), key + ".json"@)
}

/// An item written at `cached_at` is expired at `now` (both in seconds since
/// the epoch) when it is older than `ttl_hours` hours.
pub open spec fn expired(now: int, cached_at: int, ttl_hours: int) -> bool {
    now - cached_at > ttl_hours * 3600
}

/// The cache's files under one root directory.
#[derive(Debug, Clone)]
pub struct CacheManager {
    root: String,
}

impl CacheManager {
    /// The root directory.
    pub closed spec fn root_path(&self) -> Seq<char> {
        self.root@
    }

    /// A cache rooted at the directory `root` (which the caller creates).
    pub fn new(root: &str) -> (c: Self)
        ensures
            c.root_path() == root@,
    {
        CacheManager { root: root.to_owned() }
    }

    /// The root directory.
    pub fn root(&self) -> (r: String)
        ensures
            r@ == self.root_path(),
    {
        self.root.clone()
    }

    /// The directory of a category.
    pub fn category_dir(&self, category: &str) -> (d: String)
        ensures
            d@ == path_join(self.root_path(), category@),
    {
        join_path(self.root.as_str(), category)
    }

    /// The file of the item with `key` in `category`.
    pub fn cache_path(&self, category: &str, key: &str) -> (p: String)
        ensures
            p@ == item_path(self.root_path(), category@, key@),
    {
        let dir = join_path(self.root.as_str(), category);
        let mut file = key.to_owned();
        file.append(".json");
        join_path(dir.as_str(), file.as_str())
    }
}

/// Is an item written at `cached_at` expired at `now`? (A stamp later than
/// `now`, from a clock gone backwards, has no age yet: it is fresh.)
pub fn is_expired(now: u64, cached_at: u64, ttl_hours: u64) -> (r: bool)
    ensures
        r == expired(now as int, cached_at as int, ttl_hours as int),
{
    if cached_at > now {
        return false;
    }
    let age: u64 = now - cached_at;
    (age as u128) > (ttl_hours as u128) * 3600
}

/// The names of the files, of those given with their stamps, that are
/// expired at `now`, in the order given.
pub open spec fn expired_names(now: int, ttl_hours: int, files: Seq<(String, u64)>) -> Seq<
    Seq<char>,
>
    decreases files.len(),
{
    if files.len() == 0 {
        Seq::empty()
    } else {
        let rest = expired_names(now, ttl_hours, files.drop_last());
        if expired(now, files.last().1 as int, ttl_hours) {
            rest.push(files.last().0@)
        } else {
            rest
        }
    }
}

/// The files of a category directory to delete at `now`: those whose stamp
/// shows them expired, in the order given.
pub fn expired_files(now: u64, ttl_hours: u64, files: &Vec<(String, u64)>) -> (gone: Vec<String>)
    ensures
        string_views(gone@) == expired_names(now as int, ttl_hours as int, files@),
{
    let mut gone: Vec<String> = Vec::new();
    for i in 0..files.len()
        invariant
            string_views(gone@) == expired_names(now as int, ttl_hours as int, files@.take(i as int)),
    {
        proof {
            assert(files@.take(i + 1).drop_last() =~= files@.take(i as int));
            assert(files@.take(i + 1).last() == files@[i as int]);
        }
        let stamp = files[i].1;
        if is_expired(now, stamp, ttl_hours) {
            gone.push(files[i].0.clone());
        }
        assert(string_views(gone@) =~= expired_names(now as int, ttl_hours as int, files@.take(i + 1)));
    }
    assert(files@.take(files.len() as int) =~= files@);
    gone
}

/// An item just written is never expired.
pub proof fn lemma_fresh_when_written(now: int, ttl_hours: int)
    requires
        ttl_hours >= 0,
    ensures
        !expired(now, now, ttl_hours),
{
}

/// Once expired, an item stays expired as time goes on.
pub proof fn lemma_expiry_is_final(now: int, later: int, cached_at: int, ttl_hours: int)
    requires
        expired(now, cached_at, ttl_hours),
        now <= later,
    ensures
        expired(later, cached_at, ttl_hours),
{
}

/// Every item's file lies in its category's directory and is named after its
/// key.
pub proof fn lemma_item_in_category(root: Seq<char>, category: Seq<char>, key: Seq<char>)
    requires
        !has_prefix(key, "/"@),
    ensures
        has_prefix(item_path(root, category, key), path_join(root, category)),
        has_suffix(item_path(root, category, key), key + ".json"@),
{
    let dir = path_join(root, category);
    let file = key + ".json"@;
    let p = item_path(root, category, key);
    lemma_file_not_absolute(key);
    if dir.len() == 0 || dir.last() == '/' {
        assert(p =~= dir + file);
    } else {
        assert(p =~= dir + "/"@ + file);
    }
    assert(p.subrange(0, dir.len() as int) =~= dir);
    assert(p.subrange(p.len() - file.len(), p.len() as int) =~= file);
}

/// Different keys of one category never share a file (for keys that do not
/// start with `/`, as the cache's hexadecimal keys never do).
pub proof fn lemma_item_paths_distinct(root: Seq<char>, category: Seq<char>, k1: Seq<char>, k2: Seq<char>)
    requires
        !has_prefix(k1, "/"@),
        !has_prefix(k2, "/"@),
        k1 != k2,
    ensures
        item_path(root, category, k1) != item_path(root, category, k2),
{
    let dir = path_join(root, category);
    let f1 = k1 + ".json"@;
    let f2 = k2 + ".json"@;
    lemma_file_not_absolute(k1);
    lemma_file_not_absolute(k2);
    let pre = if dir.len() == 0 || dir.last() == '/' {
        dir
    } else {
        dir + "/"@
    };
    assert(item_path(root, category, k1) =~= pre + f1);
    assert(item_path(root, category, k2) =~= pre + f2);
    if pre + f1 == pre + f2 {
        assert(f1 =~= (pre + f1).skip(pre.len() as int));
        assert(f2 =~= (pre + f2).skip(pre.len() as int));
        assert(f1 == f2);
        reveal_strlit(".json");
        assert(k1.len() == k2.len());
        assert(k1 =~= f1.take(k1.len() as int));
        assert(k2 =~= f2.take(k2.len() as int));
    }
}

/// A key that does not start with `/` makes a file name that does not.
proof fn lemma_file_not_absolute(key: Seq<char>)
    requires
        !has_prefix(key, "/"@),
    ensures
        !has_prefix(key + ".json"@, "/"@),
{
    let file = key + ".json"@;
    reveal_strlit("/");
    reveal_strlit(".json");
    if has_prefix(file, "/"@) {
        assert(file.take(1)[0] == '/');
        if key.len() == 0 {
            assert(file =~= ".json"@);
            assert(file[0] == '.');
        } else {
            assert(key.take(1) =~= file.take(1));
        }
    }
}

/// Items cached under different keys of a value never share a file: cache
/// keys are hexadecimal, so no key starts with `/`.
pub proof fn lemma_keyed_items_distinct(root: Seq<char>, category: Seq<char>, a: Seq<char>, b: Seq<char>)
    requires
        key_of(a) != key_of(b),
    ensures
        item_path(root, category, key_of(a)) != item_path(root, category, key_of(b)),
{
    lemma_key_not_absolute(a);
    lemma_key_not_absolute(b);
    lemma_item_paths_distinct(root, category, key_of(a), key_of(b));
}

/// No cache key starts with `/`.
proof fn lemma_key_not_absolute(v: Seq<char>)
    ensures
        !has_prefix(key_of(v), "/"@),
{
    lemma_key_is_hex(v);
    reveal_strlit("/");
    if has_prefix(key_of(v), "/"@) {
        assert(key_of(v).take(1)[0] == key_of(v)[0]);
    }
}

// ---------------------------------------------------------------------------
// The cache's files
// ---------------------------------------------------------------------------

/// The cache's files: for each path, the item's content and the second it
/// was written.
pub type CacheFiles = Map<Seq<char>, (Seq<char>, int)>;

/// The files after the item with `key` in `category` is written at `now`.
pub open spec fn put_item(
    files: CacheFiles,
    root: Seq<char>,
    category: Seq<char>,
    key: Seq<char>,
    content: Seq<char>,
    now: int,
) -> CacheFiles {
    files.insert(item_path(root, category, key), (content, now))
}

/// What reading the item with `key` in `category` at `now` gives: its
/// content while it is fresh, nothing when it is missing or expired.
pub open spec fn get_item(
    files: CacheFiles,
    root: Seq<char>,
    category: Seq<char>,
    key: Seq<char>,
    ttl_hours: int,
    now: int,
) -> Option<Seq<char>> {
    let p = item_path(root, category, key);
    if files.contains_key(p) && !expired(now, files[p].1, ttl_hours) {
        Some(files[p].0)
    } else {
        None
    }
}

/// A read gives back what a write wrote, for as long as the item lives.
pub proof fn lemma_read_after_write(
    files: CacheFiles,
    root: Seq<char>,
    category: Seq<char>,
    key: Seq<char>,
    content: Seq<char>,
    written: int,
    now: int,
    ttl_hours: int,
)
    requires
        written <= now,
        now - written <= ttl_hours * 3600,
    ensures
        get_item(put_item(files, root, category, key, content, written), root, category, key, ttl_hours, now)
            == Some(content),
{
}

/// Once an item has expired, reading it gives nothing.
pub proof fn lemma_expired_read_misses(
    files: CacheFiles,
    root: Seq<char>,
    category: Seq<char>,
    key: Seq<char>,
    content: Seq<char>,
    written: int,
    now: int,
    ttl_hours: int,
)
    requires
        now - written > ttl_hours * 3600,
    ensures
        get_item(put_item(files, root, category, key, content, written), root, category, key, ttl_hours, now)
            is None,
{
}

/// Writing an item leaves every other key of the category as it was (for
/// keys that do not start with `/`, as cache keys never do).
pub proof fn lemma_write_leaves_other_keys(
    files: CacheFiles,
    root: Seq<char>,
    category: Seq<char>,
    key: Seq<char>,
    other: Seq<char>,
    content: Seq<char>,
    written: int,
    now: int,
    ttl_hours: int,
)
    requires
        key != other,
        !has_prefix(key, "/"@),
        !has_prefix(other, "/"@),
    ensures
        get_item(put_item(files, root, category, key, content, written), root, category, other, ttl_hours, now)
            == get_item(files, root, category, other, ttl_hours, now),
{
    lemma_item_paths_distinct(root, category, key, other);
}

} // verus!
