//! GitHub repository extraction: recognising repository URLs, choosing which
//! files of a checkout to analyse, and naming the repository's language.
use vstd::prelude::*;
use crate::extractors::{before_first, code_repo_url, handles_code_repo, strip_suffixes, ContentType};
use crate::text::{
    chars_of, contains_str, extend, extend_str, has_prefix, has_substring, lemma_trim_end_at,
    lower, same, slice, starts_with_str, string_of, trim_end_by, unicode_lowercase,
};

verus! {

/// Files larger than this (1 MiB) are never analysed.
pub const MAX_FILE_SIZE: u64 = 1048576;

/// The analysed files together stay within this size (50 MiB).
pub const MAX_TOTAL_SIZE: u64 = 52428800;

/// At most this many files are analysed in basic mode.
pub const MAX_FILES_BASIC: usize = 20;

/// At most this many files are analysed in deep mode.
pub const MAX_FILES_DEEP: usize = 100;

/// Extractor for GitHub repositories.
pub struct CodeRepoExtractor;

/// One entry of a repository walk, as the file system reported it.
#[derive(Debug, Clone)]
pub struct RepoEntry {
    /// The path relative to the repository root.
    pub path: String,
    /// The last component of the path.
    pub file_name: String,
    /// The extension of the file name, if it has one.
    pub extension: Option<String>,
    /// The entry is a regular file.
    pub is_file: bool,
    /// The file's size, when its metadata could be read.
    pub size: Option<u64>,
}

/// Why a file is analysed.
#[derive(Debug, Clone, Copy, PartialEq, Eq, Structural)]
pub enum FileRole {
    /// README, licence, changelog, build manifests.
    Important,
    /// A program's or library's entry point.
    EntryPoint,
    /// Any other source file.
    Source,
}

// ---------------------------------------------------------------------------
// URLs
// ---------------------------------------------------------------------------

/// A character that ends the repository part of a GitHub URL: a path
/// separator, or the start of a query (`?`, `&`) or fragment (`#`), such as
/// the `?deep` hint.
pub open spec fn ends_repo_part(c: char) -> bool {
    c == '/' || c == '?' || c == '#' || c == '&'
}

/// The part of `s` before the first character that ends a repository part
/// (all of `s` when there is none).
pub open spec fn repo_part(s: Seq<char>) -> Seq<char>
    decreases s.len(),
{
    if s.len() == 0 {
        s
    } else if ends_repo_part(s[0]) {
        Seq::empty()
    } else {
        seq![s[0]] + repo_part(s.skip(1))
    }
}

/// The owner and repository named by a GitHub URL (`https://github.com/`
/// followed by owner and repository; trailing slashes, `.git`, and a query
/// or fragment such as `?deep` ignored).
pub open spec fn github_repo(url: Seq<char>) -> Option<(Seq<char>, Seq<char>)> {
    let u = trim_end_by(url, |c: char| c == '/');
    let prefix = "https://github.com/"@;
    if has_prefix(u, prefix) {
        let path = u.skip(prefix.len() as int);
        let owner = before_first(path, '/');
        if owner.len() < path.len() {
            let rest = path.skip(owner.len() as int + 1);
            Some((owner, strip_suffixes(repo_part(rest), ".git"@)))
        } else {
            None
        }
    } else {
        None
    }
}

/// What `repo_part` keeps holds no `/`, `?`, `#` or `&`, and is a prefix.
proof fn lemma_repo_part_clean(s: Seq<char>)
    ensures
        repo_part(s).len() <= s.len(),
        repo_part(s) == s.take(repo_part(s).len() as int),
        forall|i: int|
            0 <= i < repo_part(s).len() ==> {
                let c = #[trigger] repo_part(s)[i];
                c != '/' && c != '?' && c != '#' && c != '&'
            },
    decreases s.len(),
{
    if s.len() > 0 && !ends_repo_part(s[0]) {
        lemma_repo_part_clean(s.skip(1));
        let r = repo_part(s.skip(1));
        assert(repo_part(s) == seq![s[0]] + r);
        assert(s.skip(1).take(r.len() as int) == r);
        assert(repo_part(s) =~= s.take(repo_part(s).len() as int));
        assert forall|i: int| 0 <= i < repo_part(s).len() implies {
            let c = #[trigger] repo_part(s)[i];
            c != '/' && c != '?' && c != '#' && c != '&'
        } by {
            if i > 0 {
                assert(repo_part(s)[i] == r[i - 1]);
            }
        }
    } else if s.len() > 0 {
        assert(repo_part(s) =~= s.take(0));
    }
}

/// Stripping a suffix keeps a prefix.
proof fn lemma_strip_prefix(s: Seq<char>, suffix: Seq<char>)
    ensures
        strip_suffixes(s, suffix).len() <= s.len(),
        strip_suffixes(s, suffix) == s.take(strip_suffixes(s, suffix).len() as int),
    decreases s.len(),
{
    if suffix.len() > 0 && crate::text::has_suffix(s, suffix) {
        let t = s.take(s.len() - suffix.len());
        lemma_strip_prefix(t, suffix);
        let r = strip_suffixes(t, suffix);
        assert(r =~= s.take(r.len() as int));
    } else {
        assert(s =~= s.take(s.len() as int));
    }
}

/// The owner a GitHub URL names holds no `/`; the repository it names
/// holds none of `/`, `?`, `#`, `&` (a query or fragment such as `?deep`
/// is never part of the name).
pub proof fn lemma_github_names_are_clean(url: Seq<char>)
    ensures
        github_repo(url) matches Some((owner, name)) ==> (forall|i: int|
            0 <= i < owner.len() ==> #[trigger] owner[i] != '/') && (forall|i: int|
            0 <= i < name.len() ==> {
                let c = #[trigger] name[i];
                c != '/' && c != '?' && c != '#' && c != '&'
            }),
{
    let u = trim_end_by(url, |c: char| c == '/');
    let prefix = "https://github.com/"@;
    if has_prefix(u, prefix) {
        let path = u.skip(prefix.len() as int);
        let owner = before_first(path, '/');
        lemma_before_first_clean(path, '/');
        if owner.len() < path.len() {
            let rest = path.skip(owner.len() as int + 1);
            let rp = repo_part(rest);
            lemma_repo_part_clean(rest);
            lemma_strip_prefix(rp, ".git"@);
            let name = strip_suffixes(rp, ".git"@);
            assert forall|i: int| 0 <= i < name.len() implies {
                let c = #[trigger] name[i];
                c != '/' && c != '?' && c != '#' && c != '&'
            } by {
                assert(name[i] == rp[i]);
            }
        }
    }
}

/// What `before_first` keeps holds no `c`.
proof fn lemma_before_first_clean(s: Seq<char>, c: char)
    ensures
        forall|i: int| 0 <= i < before_first(s, c).len() ==> #[trigger] before_first(s, c)[i] != c,
    decreases s.len(),
{
    if s.len() > 0 && s[0] != c {
        lemma_before_first_clean(s.skip(1), c);
        let r = before_first(s.skip(1), c);
        assert forall|i: int| 0 <= i < before_first(s, c).len() implies #[trigger] before_first(s, c)[i]
            != c by {
            if i > 0 {
                assert(before_first(s, c)[i] == r[i - 1]);
            }
        }
    }
}

/// The URL asks for deep analysis.
pub open spec fn deep_request(url: Seq<char>) -> bool {
    has_substring(url, "?deep"@) || has_substring(url, "#deep"@) || has_substring(url, "&deep"@)
}

/// A file name that marks an important file (README, licence, manifests).
pub open spec fn important_name(name: Seq<char>) -> bool {
    let l = unicode_lowercase(name);
    ||| has_prefix(l, "readme"@)
    ||| has_prefix(l, "contributing"@)
    ||| has_prefix(l, "license"@)
    ||| has_prefix(l, "changelog"@)
    ||| l == "cargo.toml"@
    ||| l == "package.json"@
    ||| l == "go.mod"@
    ||| l == "requirements.txt"@
    ||| l == "pyproject.toml"@
    ||| l == "pom.xml"@
    ||| l == "build.gradle"@
}

/// A file name that marks an entry point.
pub open spec fn entry_point_name(name: Seq<char>) -> bool {
    let l = unicode_lowercase(name);
    ||| l == "main.rs"@
    ||| l == "lib.rs"@
    ||| l == "index.ts"@
    ||| l == "index.js"@
    ||| l == "main.py"@
    ||| l == "__init__.py"@
    ||| l == "main.go"@
    ||| l == "app.py"@
    ||| l == "server.ts"@
    ||| l == "server.js"@
}

/// The position of the first `c` in `s`, or its length.
fn position_of(s: &Vec<char>, c: char) -> (i: usize)
    ensures
        i <= s.len(),
        s@.take(i as int) == before_first(s@, c),
{
    let mut j: usize = 0;
    assert(s@.skip(0) =~= s@);
    while j < s.len() && s[j] != c
        invariant
            j <= s.len(),
            before_first(s@, c) == s@.take(j as int) + before_first(s@.skip(j as int), c),
        decreases s.len() - j,
    {
        proof {
            let t = s@.skip(j as int);
            assert(t[0] == s@[j as int]);
            assert(t.skip(1) =~= s@.skip(j + 1));
            assert(s@.take(j + 1) =~= s@.take(j as int) + seq![s@[j as int]]);
        }
        j = j + 1;
    }
    proof {
        let t = s@.skip(j as int);
        if j < s.len() {
            assert(t[0] == s@[j as int]);
        }
        assert(s@.take(j as int) + Seq::<char>::empty() =~= s@.take(j as int));
    }
    j
}

/// The length of the repository part at the start of `s`.
fn repo_part_end(s: &Vec<char>) -> (i: usize)
    ensures
        i <= s.len(),
        s@.take(i as int) == repo_part(s@),
{
    let mut j: usize = 0;
    assert(s@.skip(0) =~= s@);
    while j < s.len() && !(s[j] == '/' || s[j] == '?' || s[j] == '#' || s[j] == '&')
        invariant
            j <= s.len(),
            repo_part(s@) == s@.take(j as int) + repo_part(s@.skip(j as int)),
        decreases s.len() - j,
    {
        proof {
            let t = s@.skip(j as int);
            assert(t[0] == s@[j as int]);
            assert(t.skip(1) =~= s@.skip(j + 1));
            assert(s@.take(j + 1) =~= s@.take(j as int) + seq![s@[j as int]]);
        }
        j = j + 1;
    }
    proof {
        let t = s@.skip(j as int);
        if j < s.len() {
            assert(t[0] == s@[j as int]);
        }
        assert(s@.take(j as int) + Seq::<char>::empty() =~= s@.take(j as int));
    }
    j
}

/// `s` without trailing slashes.
fn trim_trailing_slashes(s: &Vec<char>) -> (r: Vec<char>)
    ensures
        r@ == trim_end_by(s@, |c: char| c == '/'),
{
    let ghost p = |c: char| c == '/';
    let mut b: usize = s.len();
    while b > 0 && s[b - 1] == '/'
        invariant
            b <= s.len(),
            p == (|c: char| c == '/'),
            forall|k: int| b <= k < s.len() ==> p(#[trigger] s@[k]),
        decreases b,
    {
        b = b - 1;
    }
    proof {
        lemma_trim_end_at(s@, p, b as int);
        assert(s@.take(b as int) =~= s@.subrange(0, b as int));
    }
    slice(s, 0, b)
}

/// `s` without every trailing `.git`.
fn strip_git(s: &Vec<char>) -> (r: Vec<char>)
    ensures
        r@ == strip_suffixes(s@, ".git"@),
{
    let suffix = chars_of(".git");
    let mut end: usize = s.len();
    assert(s@.take(end as int) =~= s@);
    proof {
        reveal_strlit(".git");
    }
    loop
        invariant
            suffix@ == ".git"@,
            suffix.len() > 0,
            end <= s.len(),
            strip_suffixes(s@, ".git"@) == strip_suffixes(s@.take(end as int), ".git"@),
        decreases end,
    {
        let t = slice(s, 0, end);
        assert(t@ =~= s@.take(end as int));
        if crate::text::ends_with(&t, &suffix) {
            assert(t@.take(t@.len() - suffix@.len()) =~= s@.take(end - suffix@.len()));
            end = end - suffix.len();
        } else {
            return t;
        }
    }
}

/// `a + sep + b`.
fn three(a: &Vec<char>, sep: &str, b: &Vec<char>) -> (r: String)
    ensures
        r@ == a@ + sep@ + b@,
{
    let mut v: Vec<char> = Vec::new();
    extend(&mut v, a);
    extend_str(&mut v, sep);
    extend(&mut v, b);
    string_of(&v)
}

impl CodeRepoExtractor {
    /// The repository extractor.
    pub fn new() -> Self {
        CodeRepoExtractor
    }

    /// Parse a GitHub URL to extract owner and repository.
    pub fn parse_github_url(&self, url: &str) -> (r: Option<(String, String)>)
        ensures
            match r {
                Some((o, n)) => github_repo(url@) == Some((o@, n@)),
                None => github_repo(url@) is None,
            },
    {
        let u = trim_trailing_slashes(&chars_of(url));
        if !starts_with_str(&u, "https://github.com/") {
            return None;
        }
        proof {
            reveal_strlit("https://github.com/");
        }
        let path = slice(&u, 19, u.len());
        assert(path@ =~= u@.skip(19));
        let e = position_of(&path, '/');
        if e == path.len() {
            return None;
        }
        let owner = slice(&path, 0, e);
        assert(owner@ =~= path@.take(e as int));
        let rest = slice(&path, e + 1, path.len());
        assert(rest@ =~= path@.skip(e + 1));
        let f = repo_part_end(&rest);
        let name = slice(&rest, 0, f);
        assert(name@ =~= rest@.take(f as int));
        let repo = strip_git(&name);
        Some((string_of(&owner), string_of(&repo)))
    }

    /// Is the file important (README, licence, changelog, manifests)?
    pub fn is_important_file(&self, file_name: &str) -> (r: bool)
        ensures
            r == important_name(file_name@),
    {
        let l = lower(file_name);
        starts_with_str(&l, "readme") || starts_with_str(&l, "contributing") || starts_with_str(
            &l,
            "license",
        ) || starts_with_str(&l, "changelog") || same(&l, &chars_of("cargo.toml")) || same(
            &l,
            &chars_of("package.json"),
        ) || same(&l, &chars_of("go.mod")) || same(&l, &chars_of("requirements.txt")) || same(
            &l,
            &chars_of("pyproject.toml"),
        ) || same(&l, &chars_of("pom.xml")) || same(&l, &chars_of("build.gradle"))
    }

    /// Is the file likely an entry point?
    pub fn is_entry_point(&self, file_name: &str) -> (r: bool)
        ensures
            r == entry_point_name(file_name@),
    {
        let l = lower(file_name);
        same(&l, &chars_of("main.rs")) || same(&l, &chars_of("lib.rs")) || same(
            &l,
            &chars_of("index.ts"),
        ) || same(&l, &chars_of("index.js")) || same(&l, &chars_of("main.py")) || same(
            &l,
            &chars_of("__init__.py"),
        ) || same(&l, &chars_of("main.go")) || same(&l, &chars_of("app.py")) || same(
            &l,
            &chars_of("server.ts"),
        ) || same(&l, &chars_of("server.js"))
    }

    /// Does this extractor handle the URL (a GitHub repository page)?
    pub fn can_handle(&self, url: &str) -> (r: bool)
        ensures
            r == code_repo_url(url@),
    {
        handles_code_repo(url)
    }

    /// The content type this extractor produces.
    pub fn content_type(&self) -> (t: ContentType)
        ensures
            t == ContentType::CodeRepository,
    {
        ContentType::CodeRepository
    }

    /// Does the URL ask for deep analysis (`?deep`, `#deep` or `&deep`)?
    pub fn wants_deep_analysis(&self, url: &str) -> (r: bool)
        ensures
            r == deep_request(url@),
    {
        let u = chars_of(url);
        contains_str(&u, "?deep") || contains_str(&u, "#deep") || contains_str(&u, "&deep")
    }

    /// The clone URL of a repository.
    pub fn clone_url(&self, owner: &str, repo: &str) -> (u: String)
        ensures
            u@ == "https://github.com/"@ + owner@ + "/"@ + repo@ + ".git"@,
    {
        let mut v = chars_of("https://github.com/");
        extend_str(&mut v, owner);
        extend_str(&mut v, "/");
        extend_str(&mut v, repo);
        extend_str(&mut v, ".git");
        string_of(&v)
    }

    /// The title of a repository: `owner/repo`.
    pub fn repo_title(&self, owner: &str, repo: &str) -> (t: String)
        ensures
            t@ == owner@ + "/"@ + repo@,
    {
        three(&chars_of(owner), "/", &chars_of(repo))
    }
}

/// How a repository URL is extracted.
#[derive(Debug, Clone)]
pub struct RepoPlan {
    pub owner: String,
    pub repo: String,
    /// Where the repository is cloned from.
    pub clone_url: String,
    /// The title of the extracted content: `owner/repo`.
    pub title: String,
    /// Whether the URL asks for deep analysis.
    pub deep: bool,
}

impl CodeRepoExtractor {
    /// Plan the extraction of a repository URL; a URL that names no GitHub
    /// repository is an error.
    pub fn plan_extraction(&self, url: &str) -> (r: Result<RepoPlan, String>)
        ensures
            match r {
                Ok(p) => {
                    &&& github_repo(url@) == Some((p.owner@, p.repo@))
                    &&& p.clone_url@ == "https://github.com/"@ + p.owner@ + "/"@ + p.repo@ + ".git"@
                    &&& p.title@ == p.owner@ + "/"@ + p.repo@
                    &&& p.deep == deep_request(url@)
                },
                Err(m) => github_repo(url@) is None && m@ == "Invalid GitHub URL"@,
            },
    {
        match self.parse_github_url(url) {
            None => Err("Invalid GitHub URL".to_owned()),
            Some((owner, repo)) => {
                let clone_url = self.clone_url(owner.as_str(), repo.as_str());
                let title = self.repo_title(owner.as_str(), repo.as_str());
                let deep = self.wants_deep_analysis(url);
                Ok(RepoPlan { owner, repo, clone_url, title, deep })
            },
        }
    }

    /// A fresh directory, under `tmp_dir`, to clone a repository into.
    pub fn checkout_dir(&self, tmp_dir: &str) -> (d: String)
        ensures
            exists|id: Seq<char>|
                crate::media::uuid_text(id) && d@ == crate::cache::path_join(tmp_dir@, "synth-repo-"@ + id),
    {
        let mut name = "synth-repo-".to_owned();
        let id = crate::media::random_id();
        name.append(id.as_str());
        crate::cache::join_path(tmp_dir, name.as_str())
    }

    /// The name of the analysis mode.
    pub fn analysis_mode(&self, deep: bool) -> (m: String)
        ensures
            m@ == (if deep {
                "deep"@
            } else {
                "basic"@
            }),
    {
        if deep {
            "deep".to_owned()
        } else {
            "basic".to_owned()
        }
    }
}

// ---------------------------------------------------------------------------
// Choosing the files to analyse
// ---------------------------------------------------------------------------

/// An extension (lower-cased) of a file that is not text.
pub open spec fn binary_extension(e: Seq<char>) -> bool {
    ||| e == "png"@
    ||| e == "jpg"@
    ||| e == "jpeg"@
    ||| e == "gif"@
    ||| e == "pdf"@
    ||| e == "zip"@
    ||| e == "tar"@
    ||| e == "gz"@
    ||| e == "bin"@
    ||| e == "so"@
    ||| e == "dylib"@
    ||| e == "dll"@
}

/// Why an entry would be analysed; `None` for entries that never are
/// (directories, files over 1 MiB, binary files, files without extension
/// that are neither important nor entry points).
pub open spec fn role_of(e: RepoEntry) -> Option<FileRole> {
    if !e.is_file {
        None
    } else if e.size matches Some(n) && n > MAX_FILE_SIZE {
        None
    } else if e.extension matches Some(x) && binary_extension(unicode_lowercase(x@)) {
        None
    } else if important_name(e.file_name@) {
        Some(FileRole::Important)
    } else if entry_point_name(e.file_name@) {
        Some(FileRole::EntryPoint)
    } else if e.extension is Some {
        Some(FileRole::Source)
    } else {
        None
    }
}

/// The entries with role `r`, in walk order.
pub open spec fn with_role(es: Seq<RepoEntry>, r: FileRole) -> Seq<RepoEntry>
    decreases es.len(),
{
    if es.len() == 0 {
        seq![]
    } else if role_of(es.last()) == Some(r) {
        with_role(es.drop_last(), r).push(es.last())
    } else {
        with_role(es.drop_last(), r)
    }
}

/// Takes entries in order while the size budget allows (stopping at the first
/// that would exceed it, passing over entries whose size is unknown) and, when
/// `cap` is given, while fewer than `cap` files are chosen in all. `count`
/// and `total` are the files and bytes chosen before; the result is the
/// chosen paths and the new total.
pub open spec fn fill(items: Seq<RepoEntry>, count: nat, total: nat, cap: Option<nat>) -> (Seq<
    Seq<char>,
>, nat)
    decreases items.len(),
{
    if items.len() == 0 {
        (seq![], total)
    } else if cap matches Some(m) && count >= m {
        (seq![], total)
    } else {
        match items[0].size {
            None => fill(items.skip(1), count, total, cap),
            Some(sz) => if total + sz > MAX_TOTAL_SIZE {
                (seq![], total)
            } else {
                let r = fill(items.skip(1), count + 1, (total + sz) as nat, cap);
                (seq![items[0].path@] + r.0, r.1)
            },
        }
    }
}

/// The file budget of a mode.
pub open spec fn max_files(deep: bool) -> nat {
    if deep {
        MAX_FILES_DEEP as nat
    } else {
        MAX_FILES_BASIC as nat
    }
}

/// The important files chosen, with their total size: in walk order, within
/// the size budget and the mode's file budget.
pub open spec fn important_pick(es: Seq<RepoEntry>, deep: bool) -> (Seq<Seq<char>>, nat) {
    fill(with_role(es, FileRole::Important), 0, 0, Some(max_files(deep)))
}

/// The files chosen for analysis: important files first, then entry points
/// (both within the size budget and the file budget), then the first source
/// files that the remaining file budget admits (size budget only).
pub open spec fn selection(es: Seq<RepoEntry>, deep: bool) -> Seq<Seq<char>> {
    let m = max_files(deep);
    let imp = important_pick(es, deep);
    let ent = fill(with_role(es, FileRole::EntryPoint), imp.0.len(), imp.1, Some(m));
    let n = imp.0.len() + ent.0.len();
    let src = with_role(es, FileRole::Source);
    let room = m - n;
    let sample = if room < src.len() {
        room
    } else {
        src.len() as int
    };
    imp.0 + ent.0 + fill(src.take(sample), n, ent.1, None).0
}

/// With a file cap, `fill` never goes beyond the cap.
proof fn lemma_fill_capped(items: Seq<RepoEntry>, count: nat, total: nat, m: nat)
    requires
        count <= m,
    ensures
        count + fill(items, count, total, Some(m)).0.len() <= m,
    decreases items.len(),
{
    if items.len() > 0 && count < m {
        match items[0].size {
            None => lemma_fill_capped(items.skip(1), count, total, m),
            Some(sz) => {
                if total + sz <= MAX_TOTAL_SIZE {
                    lemma_fill_capped(items.skip(1), count + 1, (total + sz) as nat, m);
                }
            },
        }
    }
}

/// Without a file cap, `fill` chooses no more files than it is given.
proof fn lemma_fill_len(items: Seq<RepoEntry>, count: nat, total: nat)
    ensures
        fill(items, count, total, None).0.len() <= items.len(),
    decreases items.len(),
{
    if items.len() > 0 {
        match items[0].size {
            None => lemma_fill_len(items.skip(1), count, total),
            Some(sz) => {
                if total + sz <= MAX_TOTAL_SIZE {
                    lemma_fill_len(items.skip(1), count + 1, (total + sz) as nat);
                }
            },
        }
    }
}

/// The selection never holds more files than the mode's file budget.
pub proof fn lemma_selection_within_budget(es: Seq<RepoEntry>, deep: bool)
    ensures
        selection(es, deep).len() <= max_files(deep),
{
    let m = max_files(deep);
    let imp = important_pick(es, deep);
    lemma_fill_capped(with_role(es, FileRole::Important), 0, 0, m);
    let ent = fill(with_role(es, FileRole::EntryPoint), imp.0.len(), imp.1, Some(m));
    lemma_fill_capped(with_role(es, FileRole::EntryPoint), imp.0.len(), imp.1, m);
    let n = imp.0.len() + ent.0.len();
    let src = with_role(es, FileRole::Source);
    let room = m - n;
    let sample = if room < src.len() {
        room
    } else {
        src.len() as int
    };
    lemma_fill_len(src.take(sample), n, ent.1);
}

/// An entry of the walk that may be analysed: a file of at most 1 MiB
/// whose extension, lower-cased, is none of png, jpg, jpeg, gif, pdf, zip,
/// tar, gz, bin, so, dylib, dll.
pub open spec fn analysable(e: RepoEntry) -> bool {
    &&& e.is_file
    &&& !(e.size matches Some(n) && n > 1048576)
    &&& !(e.extension matches Some(x) && {
        let l = unicode_lowercase(x@);
        ||| l == "png"@
        ||| l == "jpg"@
        ||| l == "jpeg"@
        ||| l == "gif"@
        ||| l == "pdf"@
        ||| l == "zip"@
        ||| l == "tar"@
        ||| l == "gz"@
        ||| l == "bin"@
        ||| l == "so"@
        ||| l == "dylib"@
        ||| l == "dll"@
    })
}

/// A file name (compared lower-cased) of a README, contributing guide,
/// licence or changelog, or of a build manifest (Cargo.toml, package.json,
/// go.mod, requirements.txt, pyproject.toml, pom.xml, build.gradle).
pub open spec fn project_file_name(name: Seq<char>) -> bool {
    let l = unicode_lowercase(name);
    ||| has_prefix(l, "readme"@)
    ||| has_prefix(l, "contributing"@)
    ||| has_prefix(l, "license"@)
    ||| has_prefix(l, "changelog"@)
    ||| set!["cargo.toml"@, "package.json"@, "go.mod"@, "requirements.txt"@, "pyproject.toml"@, "pom.xml"@, "build.gradle"@].contains(l)
}

/// A file name (compared lower-cased) of a program's or library's entry
/// point: main.rs, lib.rs, index.ts, index.js, main.py, __init__.py,
/// main.go, app.py, server.ts, server.js.
pub open spec fn program_entry_name(name: Seq<char>) -> bool {
    set!["main.rs"@, "lib.rs"@, "index.ts"@, "index.js"@, "main.py"@, "__init__.py"@, "main.go"@, "app.py"@, "server.ts"@, "server.js"@].contains(unicode_lowercase(name))
}

/// Why an entry of the walk is analysed: never when it is not an
/// analysable file; else as important when its name is a project file's,
/// as an entry point when its name is an entry point's, as a source file
/// when it has an extension, and not at all otherwise.
pub proof fn lemma_roles_of_entries(e: RepoEntry)
    ensures
        !analysable(e) ==> role_of(e) is None,
        analysable(e) && project_file_name(e.file_name@) ==> role_of(e) == Some(FileRole::Important),
        analysable(e) && !project_file_name(e.file_name@) && program_entry_name(e.file_name@)
            ==> role_of(e) == Some(FileRole::EntryPoint),
        analysable(e) && !project_file_name(e.file_name@) && !program_entry_name(e.file_name@) ==> (
        role_of(e) == if e.extension is Some {
            Some(FileRole::Source)
        } else {
            None
        }),
{
}

/// The entries given a role are entries of the walk that have that role.
proof fn lemma_with_role_members(es: Seq<RepoEntry>, r: FileRole)
    ensures
        forall|i: int|
            0 <= i < with_role(es, r).len() ==> es.contains(#[trigger] with_role(es, r)[i])
                && role_of(with_role(es, r)[i]) == Some(r),
    decreases es.len(),
{
    if es.len() > 0 {
        let front = es.drop_last();
        lemma_with_role_members(front, r);
        assert forall|i: int| 0 <= i < with_role(es, r).len() implies es.contains(
            #[trigger] with_role(es, r)[i],
        ) && role_of(with_role(es, r)[i]) == Some(r) by {
            let w = with_role(es, r);
            if i < with_role(front, r).len() {
                assert(w[i] == with_role(front, r)[i]);
                let k = choose|k: int| 0 <= k < front.len() && front[k] == w[i];
                assert(es[k] == front[k]);
            } else {
                assert(w[i] == es.last());
                assert(es[es.len() - 1] == es.last());
            }
        }
    }
}

/// Every path `fill` chooses is the path of one of the items given.
proof fn lemma_fill_members(items: Seq<RepoEntry>, count: nat, total: nat, cap: Option<nat>)
    ensures
        forall|i: int|
            #![trigger fill(items, count, total, cap).0[i]]
            0 <= i < fill(items, count, total, cap).0.len() ==> exists|j: int|
                0 <= j < items.len() && (#[trigger] items[j]).path@ == fill(
                    items,
                    count,
                    total,
                    cap,
                ).0[i],
    decreases items.len(),
{
    if items.len() > 0 && !(cap matches Some(m) && count >= m) {
        let rest = items.skip(1);
        match items[0].size {
            None => {
                lemma_fill_members(rest, count, total, cap);
                let f = fill(items, count, total, cap).0;
                let r = fill(rest, count, total, cap).0;
                assert(f == r);
                assert forall|i: int| #![trigger f[i]] 0 <= i < f.len() implies exists|j: int|
                    0 <= j < items.len() && (#[trigger] items[j]).path@ == f[i] by {
                    assert(f[i] == r[i]);
                    let j = choose|j: int| 0 <= j < rest.len() && (#[trigger] rest[j]).path@ == r[i];
                    assert(items[j + 1] == rest[j]);
                }
            },
            Some(sz) => {
                if total + sz <= MAX_TOTAL_SIZE {
                    let t2 = (total + sz) as nat;
                    lemma_fill_members(rest, count + 1, t2, cap);
                    let f = fill(items, count, total, cap).0;
                    let r = fill(rest, count + 1, t2, cap).0;
                    assert(f == seq![items[0].path@] + r);
                    assert forall|i: int| #![trigger f[i]] 0 <= i < f.len() implies exists|j: int|
                        0 <= j < items.len() && (#[trigger] items[j]).path@ == f[i] by {
                        if i == 0 {
                            assert(items[0].path@ == f[0]);
                        } else {
                            assert(f[i] == r[i - 1]);
                            let j = choose|j: int|
                                0 <= j < rest.len() && (#[trigger] rest[j]).path@ == r[i - 1];
                            assert(items[j + 1] == rest[j]);
                        }
                    }
                }
            },
        }
    }
}

/// The paths chosen from entries of one role are paths of analysable
/// entries of the walk.
proof fn lemma_role_fill_analysable(
    es: Seq<RepoEntry>,
    r: FileRole,
    limit: int,
    count: nat,
    total: nat,
    cap: Option<nat>,
)
    requires
        0 <= limit <= with_role(es, r).len(),
    ensures
        forall|i: int|
            #![trigger fill(with_role(es, r).take(limit), count, total, cap).0[i]]
            0 <= i < fill(with_role(es, r).take(limit), count, total, cap).0.len() ==> exists|k: int|
                0 <= k < es.len() && (#[trigger] es[k]).path@ == fill(
                    with_role(es, r).take(limit),
                    count,
                    total,
                    cap,
                ).0[i] && analysable(es[k]),
{
    reveal_strlit("png");
    reveal_strlit("jpg");
    reveal_strlit("jpeg");
    reveal_strlit("gif");
    reveal_strlit("pdf");
    reveal_strlit("zip");
    reveal_strlit("tar");
    reveal_strlit("gz");
    reveal_strlit("bin");
    reveal_strlit("so");
    reveal_strlit("dylib");
    reveal_strlit("dll");
    let items = with_role(es, r).take(limit);
    lemma_with_role_members(es, r);
    lemma_fill_members(items, count, total, cap);
    let f = fill(items, count, total, cap).0;
    assert forall|i: int| #![trigger f[i]] 0 <= i < f.len() implies exists|k: int|
        0 <= k < es.len() && (#[trigger] es[k]).path@ == f[i] && analysable(es[k]) by {
        let j = choose|j: int| 0 <= j < items.len() && (#[trigger] items[j]).path@ == f[i];
        let w = with_role(es, r);
        assert(items[j] == w[j]);
        assert(es.contains(w[j]) && role_of(w[j]) == Some(r));
        let k = choose|k: int| 0 <= k < es.len() && es[k] == w[j];
        assert(analysable(es[k]));
    }
}

/// Only analysable files are chosen: every path of the selection is the
/// path of a file of the walk of at most 1 MiB whose extension is not a
/// binary one (png, jpg, jpeg, gif, pdf, zip, tar, gz, bin, so, dylib, dll,
/// in any case).
pub proof fn lemma_selection_only_analysable(es: Seq<RepoEntry>, deep: bool)
    ensures
        forall|i: int|
            #![trigger selection(es, deep)[i]]
            0 <= i < selection(es, deep).len() ==> exists|k: int|
                0 <= k < es.len() && (#[trigger] es[k]).path@ == selection(es, deep)[i]
                    && analysable(es[k]),
{
    let m = max_files(deep);
    let imps = with_role(es, FileRole::Important);
    let ents = with_role(es, FileRole::EntryPoint);
    let src = with_role(es, FileRole::Source);
    let imp = important_pick(es, deep);
    assert(imps.take(imps.len() as int) =~= imps);
    assert(ents.take(ents.len() as int) =~= ents);
    lemma_role_fill_analysable(es, FileRole::Important, imps.len() as int, 0, 0, Some(m));
    let ent = fill(ents, imp.0.len(), imp.1, Some(m));
    lemma_role_fill_analysable(es, FileRole::EntryPoint, ents.len() as int, imp.0.len(), imp.1, Some(m));
    let n = imp.0.len() + ent.0.len();
    let room = m - n;
    let sample = if room < src.len() {
        room
    } else {
        src.len() as int
    };
    lemma_selection_within_budget(es, deep);
    lemma_fill_capped(imps, 0, 0, m);
    lemma_fill_capped(ents, imp.0.len(), imp.1, m);
    lemma_role_fill_analysable(es, FileRole::Source, sample, n, ent.1, None);
    let c = fill(src.take(sample), n, ent.1, None).0;
    let sel = selection(es, deep);
    assert(sel == imp.0 + ent.0 + c);
    assert forall|i: int| #![trigger sel[i]] 0 <= i < sel.len() implies exists|k: int|
        0 <= k < es.len() && (#[trigger] es[k]).path@ == sel[i] && analysable(es[k]) by {
        if i < imp.0.len() {
            assert(sel[i] == imp.0[i]);
        } else if i < imp.0.len() + ent.0.len() {
            assert(sel[i] == ent.0[i - imp.0.len()]);
        } else {
            assert(sel[i] == c[i - imp.0.len() - ent.0.len()]);
        }
    }
}

/// `fill` stays within the size budget.
proof fn lemma_fill_total(items: Seq<RepoEntry>, count: nat, total: nat, cap: Option<nat>)
    requires
        total <= MAX_TOTAL_SIZE,
    ensures
        total <= fill(items, count, total, cap).1 <= MAX_TOTAL_SIZE,
    decreases items.len(),
{
    if items.len() > 0 && !(cap matches Some(m) && count >= m) {
        match items[0].size {
            None => lemma_fill_total(items.skip(1), count, total, cap),
            Some(sz) => {
                if total + sz <= MAX_TOTAL_SIZE {
                    lemma_fill_total(items.skip(1), count + 1, (total + sz) as nat, cap);
                }
            },
        }
    }
}

/// The role of an entry.
fn role(e: &RepoEntry) -> (r: Option<FileRole>)
    ensures
        r == role_of(*e),
{
    let x = CodeRepoExtractor;
    if !e.is_file {
        return None;
    }
    if let Some(n) = e.size {
        if n > MAX_FILE_SIZE {
            return None;
        }
    }
    if let Some(ext) = &e.extension {
        let l = lower(ext.as_str());
        if same(&l, &chars_of("png")) || same(&l, &chars_of("jpg")) || same(&l, &chars_of("jpeg"))
            || same(&l, &chars_of("gif")) || same(&l, &chars_of("pdf")) || same(
            &l,
            &chars_of("zip"),
        ) || same(&l, &chars_of("tar")) || same(&l, &chars_of("gz")) || same(&l, &chars_of("bin"))
            || same(&l, &chars_of("so")) || same(&l, &chars_of("dylib")) || same(
            &l,
            &chars_of("dll"),
        ) {
            return None;
        }
    }
    if x.is_important_file(e.file_name.as_str()) {
        Some(FileRole::Important)
    } else if x.is_entry_point(e.file_name.as_str()) {
        Some(FileRole::EntryPoint)
    } else if e.extension.is_some() {
        Some(FileRole::Source)
    } else {
        None
    }
}

/// A copy of an entry.
fn copy_entry(e: &RepoEntry) -> (c: RepoEntry)
    ensures
        c == *e,
{
    RepoEntry {
        path: e.path.clone(),
        file_name: e.file_name.clone(),
        extension: match &e.extension {
            Some(x) => Some(x.clone()),
            None => None,
        },
        is_file: e.is_file,
        size: e.size,
    }
}

/// The entries with role `r`, in walk order.
fn entries_with_role(es: &Vec<RepoEntry>, r: FileRole) -> (v: Vec<RepoEntry>)
    ensures
        v@ == with_role(es@, r),
{
    let mut v: Vec<RepoEntry> = Vec::new();
    for k in 0..es.len()
        invariant
            v@ == with_role(es@.take(k as int), r),
    {
        proof {
            assert(es@.take(k + 1).drop_last() =~= es@.take(k as int));
            assert(es@.take(k + 1).last() == es@[k as int]);
        }
        if role(&es[k]) == Some(r) {
            v.push(copy_entry(&es[k]));
        }
    }
    assert(es@.take(es.len() as int) =~= es@);
    v
}

/// Runs `fill` over the first `limit` items.
fn fill_exec(items: &Vec<RepoEntry>, limit: usize, count: usize, total: u64, cap: Option<usize>) -> (r: (
    Vec<String>,
    u64,
))
    requires
        limit <= items.len(),
        total <= MAX_TOTAL_SIZE,
    ensures
        r.0@.map_values(|p: String| p@) == fill(
            items@.take(limit as int),
            count as nat,
            total as nat,
            match cap {
                Some(m) => Some(m as nat),
                None => None,
            },
        ).0,
        r.1 == fill(
            items@.take(limit as int),
            count as nat,
            total as nat,
            match cap {
                Some(m) => Some(m as nat),
                None => None,
            },
        ).1,
{
    let ghost gcap = match cap {
        Some(m) => Some(m as nat),
        None => None,
    };
    let ghost all = items@.take(limit as int);
    let ghost goal = fill(all, count as nat, total as nat, gcap);
    let mut chosen: Vec<String> = Vec::new();
    let mut n: u128 = count as u128;
    let mut t: u64 = total;
    let mut i: usize = 0;
    assert(all.skip(0) =~= all);
    while i < limit
        invariant
            limit <= items.len(),
            all == items@.take(limit as int),
            i <= limit,
            t <= MAX_TOTAL_SIZE,
            n == count + chosen.len(),
            goal == fill(all, count as nat, total as nat, gcap),
            gcap == match cap {
                Some(m) => Some(m as nat),
                None => None,
            },
            goal.0 == chosen@.map_values(|p: String| p@) + fill(all.skip(i as int), n as nat, t as nat, gcap).0,
            goal.1 == fill(all.skip(i as int), n as nat, t as nat, gcap).1,
        decreases limit - i,
    {
        let ghost rest = all.skip(i as int);
        proof {
            assert(rest[0] == items@[i as int]);
            assert(rest.skip(1) =~= all.skip(i + 1));
        }
        if let Some(m) = cap {
            if n >= m as u128 {
                assert(chosen@.map_values(|p: String| p@) + Seq::<Seq<char>>::empty() =~= chosen@.map_values(|p: String| p@));
                return (chosen, t);
            }
        }
        match items[i].size {
            None => {},
            Some(sz) => {
                if (t as u128) + (sz as u128) > MAX_TOTAL_SIZE as u128 {
                    assert(chosen@.map_values(|p: String| p@) + Seq::<Seq<char>>::empty() =~= chosen@.map_values(|p: String| p@));
                    return (chosen, t);
                }
                let ghost before = chosen@.map_values(|p: String| p@);
                chosen.push(items[i].path.clone());
                proof {
                    assert(chosen@.map_values(|p: String| p@) =~= before.push(items@[i as int].path@));
                    assert(before.push(items@[i as int].path@) + fill(rest.skip(1), (n + 1) as nat, (t + sz) as nat, gcap).0
                        =~= before + (seq![rest[0].path@] + fill(rest.skip(1), (n + 1) as nat, (t + sz) as nat, gcap).0));
                }
                n = n + 1;
                t = t + sz;
            },
        }
        i = i + 1;
    }
    assert(all.skip(limit as int) =~= Seq::<RepoEntry>::empty());
    assert(chosen@.map_values(|p: String| p@) + Seq::<Seq<char>>::empty() =~= chosen@.map_values(|p: String| p@));
    (chosen, t)
}

/// Appends copies of `src` to `dst`.
pub fn append_strings(dst: &mut Vec<String>, src: &Vec<String>)
    ensures
        final(dst)@.map_values(|p: String| p@) == old(dst)@.map_values(|p: String| p@)
            + src@.map_values(|p: String| p@),
{
    let ghost start = dst@.map_values(|p: String| p@);
    for i in 0..src.len()
        invariant
            dst@.map_values(|p: String| p@) == start + src@.map_values(|p: String| p@).take(i as int),
    {
        let ghost prev = dst@;
        let c = src[i].clone();
        dst.push(c);
        proof {
            assert(dst@ == prev.push(c));
            assert(dst@.map_values(|p: String| p@) =~= prev.map_values(|p: String| p@).push(c@));
            assert(src@.map_values(|p: String| p@).take(i + 1) =~= src@.map_values(|p: String| p@).take(
                i as int,
            ).push(src@[i as int]@));
        }
    }
    assert(src@.map_values(|p: String| p@).take(src.len() as int) =~= src@.map_values(|p: String| p@));
}

impl CodeRepoExtractor {
    /// Select the files to analyse from a repository walk: important files
    /// first, then entry points, then a sample of source files, within the
    /// file budget of the mode (20 files, or 100 in deep mode) and 50 MiB in
    /// all.
    pub fn select_files(&self, entries: &Vec<RepoEntry>, deep: bool) -> (paths: Vec<String>)
        ensures
            paths@.map_values(|p: String| p@) == selection(entries@, deep),
            paths.len() <= max_files(deep),
    {
        let m = if deep {
            MAX_FILES_DEEP
        } else {
            MAX_FILES_BASIC
        };
        let imp = entries_with_role(entries, FileRole::Important);
        let ent = entries_with_role(entries, FileRole::EntryPoint);
        let src = entries_with_role(entries, FileRole::Source);
        assert(imp@.take(imp.len() as int) =~= imp@);
        assert(ent@.take(ent.len() as int) =~= ent@);
        let (a, t1) = fill_exec(&imp, imp.len(), 0, 0, Some(m));
        proof {
            lemma_fill_total(imp@, 0, 0, Some(m as nat));
            lemma_fill_capped(imp@, 0, 0, m as nat);
        }
        let (b, t2) = fill_exec(&ent, ent.len(), a.len(), t1, Some(m));
        proof {
            lemma_fill_capped(ent@, a.len() as nat, t1 as nat, m as nat);
            lemma_fill_total(ent@, a.len() as nat, t1 as nat, Some(m as nat));
        }
        let n = a.len() + b.len();
        let room = m - n;
        let sample = if room < src.len() {
            room
        } else {
            src.len()
        };
        let (c, _t3) = fill_exec(&src, sample, n, t2, None);
        let mut paths: Vec<String> = Vec::new();
        append_strings(&mut paths, &a);
        append_strings(&mut paths, &b);
        append_strings(&mut paths, &c);
        assert(paths@.map_values(|p: String| p@) =~= a@.map_values(|p: String| p@) + b@.map_values(
            |p: String| p@,
        ) + c@.map_values(|p: String| p@));
        proof {
            lemma_selection_within_budget(entries@, deep);
            assert(paths@.map_values(|p: String| p@).len() == paths@.len());
        }
        paths
    }
}

// ---------------------------------------------------------------------------
// The primary language
// ---------------------------------------------------------------------------

/// The number of languages the extension table knows.
pub open spec fn language_total() -> nat {
    15
}

/// The language (by its place in the table) of a lower-cased extension.
pub open spec fn language_index(e: Seq<char>) -> Option<nat> {
    if e == "rs"@ {
        Some(0nat)
    } else if e == "ts"@ {
        Some(1nat)
    } else if e == "tsx"@ {
        Some(1nat)
    } else if e == "js"@ {
        Some(2nat)
    } else if e == "jsx"@ {
        Some(2nat)
    } else if e == "py"@ {
        Some(3nat)
    } else if e == "go"@ {
        Some(4nat)
    } else if e == "java"@ {
        Some(5nat)
    } else if e == "c"@ {
        Some(6nat)
    } else if e == "cpp"@ {
        Some(7nat)
    } else if e == "cc"@ {
        Some(7nat)
    } else if e == "h"@ {
        Some(8nat)
    } else if e == "hpp"@ {
        Some(7nat)
    } else if e == "cs"@ {
        Some(9nat)
    } else if e == "rb"@ {
        Some(10nat)
    } else if e == "php"@ {
        Some(11nat)
    } else if e == "swift"@ {
        Some(12nat)
    } else if e == "kt"@ {
        Some(13nat)
    } else if e == "scala"@ {
        Some(14nat)
    } else {
        None
    }
}

/// The name of the `i`-th language.
pub open spec fn language_name(i: nat) -> Seq<char> {
    if i == 0 {
        "Rust"@
    } else if i == 1 {
        "TypeScript"@
    } else if i == 2 {
        "JavaScript"@
    } else if i == 3 {
        "Python"@
    } else if i == 4 {
        "Go"@
    } else if i == 5 {
        "Java"@
    } else if i == 6 {
        "C"@
    } else if i == 7 {
        "C++"@
    } else if i == 8 {
        "C/C++"@
    } else if i == 9 {
        "C#"@
    } else if i == 10 {
        "Ruby"@
    } else if i == 11 {
        "PHP"@
    } else if i == 12 {
        "Swift"@
    } else if i == 13 {
        "Kotlin"@
    } else if i == 14 {
        "Scala"@
    } else {
        "Unknown"@
    }
}

/// How many of the extensions (compared lower-cased) belong to language `i`.
pub open spec fn language_count(exts: Seq<Seq<char>>, i: nat) -> nat
    decreases exts.len(),
{
    if exts.len() == 0 {
        0
    } else {
        language_count(exts.drop_last(), i) + if language_index(unicode_lowercase(exts.last()))
            == Some(i) {
            1nat
        } else {
            0nat
        }
    }
}

/// `name` is a most frequent language of the extensions, or `Unknown` when
/// none of them belongs to a known language. (Among languages with equal
/// counts, which one is named is not fixed.)
pub open spec fn primary_language(exts: Seq<Seq<char>>, name: Seq<char>) -> bool {
    if forall|i: nat| i < language_total() ==> #[trigger] language_count(exts, i) == 0 {
        name == "Unknown"@
    } else {
        exists|i: nat|
            i < language_total() && name == language_name(i) && language_count(exts, i) > 0
                && forall|j: nat|
                j < language_total() ==> #[trigger] language_count(exts, j) <= language_count(
                    exts,
                    i,
                )
    }
}

/// The file extensions whose language the repository extractor knows, each
/// with the language it counts toward.
pub open spec fn known_extensions() -> Seq<(Seq<char>, Seq<char>)> {
    seq![
        ("rs"@, "Rust"@),
        ("ts"@, "TypeScript"@),
        ("tsx"@, "TypeScript"@),
        ("js"@, "JavaScript"@),
        ("jsx"@, "JavaScript"@),
        ("py"@, "Python"@),
        ("go"@, "Go"@),
        ("java"@, "Java"@),
        ("c"@, "C"@),
        ("cpp"@, "C++"@),
        ("cc"@, "C++"@),
        ("h"@, "C/C++"@),
        ("hpp"@, "C++"@),
        ("cs"@, "C#"@),
        ("rb"@, "Ruby"@),
        ("php"@, "PHP"@),
        ("swift"@, "Swift"@),
        ("kt"@, "Kotlin"@),
        ("scala"@, "Scala"@),
    ]
}

/// The language-table entry of the `k`-th known extension.
proof fn lemma_known_extension(k: int) -> (idx: nat)
    requires
        0 <= k < known_extensions().len(),
    ensures
        idx < language_total(),
        language_index(known_extensions()[k].0) == Some(idx),
        language_name(idx) == known_extensions()[k].1,
{
    reveal_strlit("C");
    reveal_strlit("C#");
    reveal_strlit("C++");
    reveal_strlit("C/C++");
    reveal_strlit("Go");
    reveal_strlit("Java");
    reveal_strlit("JavaScript");
    reveal_strlit("Kotlin");
    reveal_strlit("PHP");
    reveal_strlit("Python");
    reveal_strlit("Ruby");
    reveal_strlit("Rust");
    reveal_strlit("Scala");
    reveal_strlit("Swift");
    reveal_strlit("TypeScript");
    reveal_strlit("Unknown");
    reveal_strlit("c");
    reveal_strlit("cc");
    reveal_strlit("cpp");
    reveal_strlit("cs");
    reveal_strlit("go");
    reveal_strlit("h");
    reveal_strlit("hpp");
    reveal_strlit("java");
    reveal_strlit("js");
    reveal_strlit("jsx");
    reveal_strlit("kt");
    reveal_strlit("php");
    reveal_strlit("py");
    reveal_strlit("rb");
    reveal_strlit("rs");
    reveal_strlit("scala");
    reveal_strlit("swift");
    reveal_strlit("ts");
    reveal_strlit("tsx");
    if k == 0 {
        assert(language_index("rs"@) == Some(0nat));
    } else if k == 1 {
        assert("ts"@[0] != "rs"@[0]);
        assert(language_index("ts"@) == Some(1nat));
    } else if k == 2 {
        assert("tsx"@.len() != "rs"@.len());
        assert("tsx"@.len() != "ts"@.len());
        assert(language_index("tsx"@) == Some(1nat));
    } else if k == 3 {
        assert("js"@[0] != "rs"@[0]);
        assert("js"@[0] != "ts"@[0]);
        assert("js"@.len() != "tsx"@.len());
        assert(language_index("js"@) == Some(2nat));
    } else if k == 4 {
        assert("jsx"@.len() != "rs"@.len());
        assert("jsx"@.len() != "ts"@.len());
        assert("jsx"@[0] != "tsx"@[0]);
        assert("jsx"@.len() != "js"@.len());
        assert(language_index("jsx"@) == Some(2nat));
    } else if k == 5 {
        assert("py"@[0] != "rs"@[0]);
        assert("py"@[0] != "ts"@[0]);
        assert("py"@.len() != "tsx"@.len());
        assert("py"@[0] != "js"@[0]);
        assert("py"@.len() != "jsx"@.len());
        assert(language_index("py"@) == Some(3nat));
    } else if k == 6 {
        assert("go"@[0] != "rs"@[0]);
        assert("go"@[0] != "ts"@[0]);
        assert("go"@.len() != "tsx"@.len());
        assert("go"@[0] != "js"@[0]);
        assert("go"@.len() != "jsx"@.len());
        assert("go"@[0] != "py"@[0]);
        assert(language_index("go"@) == Some(4nat));
    } else if k == 7 {
        assert("java"@.len() != "rs"@.len());
        assert("java"@.len() != "ts"@.len());
        assert("java"@.len() != "tsx"@.len());
        assert("java"@.len() != "js"@.len());
        assert("java"@.len() != "jsx"@.len());
        assert("java"@.len() != "py"@.len());
        assert("java"@.len() != "go"@.len());
        assert(language_index("java"@) == Some(5nat));
    } else if k == 8 {
        assert("c"@.len() != "rs"@.len());
        assert("c"@.len() != "ts"@.len());
        assert("c"@.len() != "tsx"@.len());
        assert("c"@.len() != "js"@.len());
        assert("c"@.len() != "jsx"@.len());
        assert("c"@.len() != "py"@.len());
        assert("c"@.len() != "go"@.len());
        assert("c"@.len() != "java"@.len());
        assert(language_index("c"@) == Some(6nat));
    } else if k == 9 {
        assert("cpp"@.len() != "rs"@.len());
        assert("cpp"@.len() != "ts"@.len());
        assert("cpp"@[0] != "tsx"@[0]);
        assert("cpp"@.len() != "js"@.len());
        assert("cpp"@[0] != "jsx"@[0]);
        assert("cpp"@.len() != "py"@.len());
        assert("cpp"@.len() != "go"@.len());
        assert("cpp"@.len() != "java"@.len());
        assert("cpp"@.len() != "c"@.len());
        assert(language_index("cpp"@) == Some(7nat));
    } else if k == 10 {
        assert("cc"@[0] != "rs"@[0]);
        assert("cc"@[0] != "ts"@[0]);
        assert("cc"@.len() != "tsx"@.len());
        assert("cc"@[0] != "js"@[0]);
        assert("cc"@.len() != "jsx"@.len());
        assert("cc"@[0] != "py"@[0]);
        assert("cc"@[0] != "go"@[0]);
        assert("cc"@.len() != "java"@.len());
        assert("cc"@.len() != "c"@.len());
        assert("cc"@.len() != "cpp"@.len());
        assert(language_index("cc"@) == Some(7nat));
    } else if k == 11 {
        assert("h"@.len() != "rs"@.len());
        assert("h"@.len() != "ts"@.len());
        assert("h"@.len() != "tsx"@.len());
        assert("h"@.len() != "js"@.len());
        assert("h"@.len() != "jsx"@.len());
        assert("h"@.len() != "py"@.len());
        assert("h"@.len() != "go"@.len());
        assert("h"@.len() != "java"@.len());
        assert("h"@[0] != "c"@[0]);
        assert("h"@.len() != "cpp"@.len());
        assert("h"@.len() != "cc"@.len());
        assert(language_index("h"@) == Some(8nat));
    } else if k == 12 {
        assert("hpp"@.len() != "rs"@.len());
        assert("hpp"@.len() != "ts"@.len());
        assert("hpp"@[0] != "tsx"@[0]);
        assert("hpp"@.len() != "js"@.len());
        assert("hpp"@[0] != "jsx"@[0]);
        assert("hpp"@.len() != "py"@.len());
        assert("hpp"@.len() != "go"@.len());
        assert("hpp"@.len() != "java"@.len());
        assert("hpp"@.len() != "c"@.len());
        assert("hpp"@[0] != "cpp"@[0]);
        assert("hpp"@.len() != "cc"@.len());
        assert("hpp"@.len() != "h"@.len());
        assert(language_index("hpp"@) == Some(7nat));
    } else if k == 13 {
        assert("cs"@[0] != "rs"@[0]);
        assert("cs"@[0] != "ts"@[0]);
        assert("cs"@.len() != "tsx"@.len());
        assert("cs"@[0] != "js"@[0]);
        assert("cs"@.len() != "jsx"@.len());
        assert("cs"@[0] != "py"@[0]);
        assert("cs"@[0] != "go"@[0]);
        assert("cs"@.len() != "java"@.len());
        assert("cs"@.len() != "c"@.len());
        assert("cs"@.len() != "cpp"@.len());
        assert("cs"@[1] != "cc"@[1]);
        assert("cs"@.len() != "h"@.len());
        assert("cs"@.len() != "hpp"@.len());
        assert(language_index("cs"@) == Some(9nat));
    } else if k == 14 {
        assert("rb"@[1] != "rs"@[1]);
        assert("rb"@[0] != "ts"@[0]);
        assert("rb"@.len() != "tsx"@.len());
        assert("rb"@[0] != "js"@[0]);
        assert("rb"@.len() != "jsx"@.len());
        assert("rb"@[0] != "py"@[0]);
        assert("rb"@[0] != "go"@[0]);
        assert("rb"@.len() != "java"@.len());
        assert("rb"@.len() != "c"@.len());
        assert("rb"@.len() != "cpp"@.len());
        assert("rb"@[0] != "cc"@[0]);
        assert("rb"@.len() != "h"@.len());
        assert("rb"@.len() != "hpp"@.len());
        assert("rb"@[0] != "cs"@[0]);
        assert(language_index("rb"@) == Some(10nat));
    } else if k == 15 {
        assert("php"@.len() != "rs"@.len());
        assert("php"@.len() != "ts"@.len());
        assert("php"@[0] != "tsx"@[0]);
        assert("php"@.len() != "js"@.len());
        assert("php"@[0] != "jsx"@[0]);
        assert("php"@.len() != "py"@.len());
        assert("php"@.len() != "go"@.len());
        assert("php"@.len() != "java"@.len());
        assert("php"@.len() != "c"@.len());
        assert("php"@[0] != "cpp"@[0]);
        assert("php"@.len() != "cc"@.len());
        assert("php"@.len() != "h"@.len());
        assert("php"@[0] != "hpp"@[0]);
        assert("php"@.len() != "cs"@.len());
        assert("php"@.len() != "rb"@.len());
        assert(language_index("php"@) == Some(11nat));
    } else if k == 16 {
        assert("swift"@.len() != "rs"@.len());
        assert("swift"@.len() != "ts"@.len());
        assert("swift"@.len() != "tsx"@.len());
        assert("swift"@.len() != "js"@.len());
        assert("swift"@.len() != "jsx"@.len());
        assert("swift"@.len() != "py"@.len());
        assert("swift"@.len() != "go"@.len());
        assert("swift"@.len() != "java"@.len());
        assert("swift"@.len() != "c"@.len());
        assert("swift"@.len() != "cpp"@.len());
        assert("swift"@.len() != "cc"@.len());
        assert("swift"@.len() != "h"@.len());
        assert("swift"@.len() != "hpp"@.len());
        assert("swift"@.len() != "cs"@.len());
        assert("swift"@.len() != "rb"@.len());
        assert("swift"@.len() != "php"@.len());
        assert(language_index("swift"@) == Some(12nat));
    } else if k == 17 {
        assert("kt"@[0] != "rs"@[0]);
        assert("kt"@[0] != "ts"@[0]);
        assert("kt"@.len() != "tsx"@.len());
        assert("kt"@[0] != "js"@[0]);
        assert("kt"@.len() != "jsx"@.len());
        assert("kt"@[0] != "py"@[0]);
        assert("kt"@[0] != "go"@[0]);
        assert("kt"@.len() != "java"@.len());
        assert("kt"@.len() != "c"@.len());
        assert("kt"@.len() != "cpp"@.len());
        assert("kt"@[0] != "cc"@[0]);
        assert("kt"@.len() != "h"@.len());
        assert("kt"@.len() != "hpp"@.len());
        assert("kt"@[0] != "cs"@[0]);
        assert("kt"@[0] != "rb"@[0]);
        assert("kt"@.len() != "php"@.len());
        assert("kt"@.len() != "swift"@.len());
        assert(language_index("kt"@) == Some(13nat));
    } else if k == 18 {
        assert("scala"@.len() != "rs"@.len());
        assert("scala"@.len() != "ts"@.len());
        assert("scala"@.len() != "tsx"@.len());
        assert("scala"@.len() != "js"@.len());
        assert("scala"@.len() != "jsx"@.len());
        assert("scala"@.len() != "py"@.len());
        assert("scala"@.len() != "go"@.len());
        assert("scala"@.len() != "java"@.len());
        assert("scala"@.len() != "c"@.len());
        assert("scala"@.len() != "cpp"@.len());
        assert("scala"@.len() != "cc"@.len());
        assert("scala"@.len() != "h"@.len());
        assert("scala"@.len() != "hpp"@.len());
        assert("scala"@.len() != "cs"@.len());
        assert("scala"@.len() != "rb"@.len());
        assert("scala"@.len() != "php"@.len());
        assert("scala"@[1] != "swift"@[1]);
        assert("scala"@.len() != "kt"@.len());
        assert(language_index("scala"@) == Some(14nat));
    }
    language_index(known_extensions()[k].0)->0
}

/// Extensions that all read (lower-cased) as `e` count only toward the
/// language of `e`, each once.
proof fn lemma_uniform_counts(exts: Seq<Seq<char>>, e: Seq<char>, i: nat)
    requires
        forall|j: int| 0 <= j < exts.len() ==> unicode_lowercase(#[trigger] exts[j]) == e,
    ensures
        language_count(exts, i) == if language_index(e) == Some(i) {
            exts.len()
        } else {
            0
        },
    decreases exts.len(),
{
    if exts.len() > 0 {
        let front = exts.drop_last();
        assert forall|j: int| 0 <= j < front.len() implies unicode_lowercase(#[trigger] front[j]) == e by {
            assert(front[j] == exts[j]);
        }
        lemma_uniform_counts(front, e, i);
        assert(unicode_lowercase(exts[exts.len() - 1]) == e);
    }
}

/// Each extension counts toward its own language: when every extension
/// found is one known extension (in any case), the primary language is
/// exactly that extension's language.
pub proof fn lemma_one_extension_language(exts: Seq<Seq<char>>, k: int, name: Seq<char>)
    requires
        0 <= k < known_extensions().len(),
        exts.len() > 0,
        forall|j: int|
            0 <= j < exts.len() ==> unicode_lowercase(#[trigger] exts[j]) == known_extensions()[k].0,
    ensures
        primary_language(exts, name) <==> name == known_extensions()[k].1,
{
    let e = known_extensions()[k].0;
    let idx = lemma_known_extension(k);
    assert forall|i: nat| i < language_total() implies #[trigger] language_count(exts, i) == if i == idx {
        exts.len()
    } else {
        0
    } by {
        lemma_uniform_counts(exts, e, i);
    }
    assert(language_count(exts, idx) > 0);
    if primary_language(exts, name) {
        let i = choose|i: nat|
            i < language_total() && name == language_name(i) && language_count(exts, i) > 0
                && forall|j: nat|
                j < language_total() ==> #[trigger] language_count(exts, j) <= language_count(exts, i);
        assert(language_count(exts, i) > 0);
        assert(i == idx);
    }
    if name == known_extensions()[k].1 {
        assert(forall|j: nat|
            j < language_total() ==> #[trigger] language_count(exts, j) <= language_count(exts, idx));
    }
}

/// The language of a lower-cased extension.
fn language_of(e: &Vec<char>) -> (r: Option<usize>)
    ensures
        match r {
            Some(i) => language_index(e@) == Some(i as nat),
            None => language_index(e@) is None,
        },
{
    if same(e, &chars_of("rs")) {
        Some(0usize)
    } else if same(e, &chars_of("ts")) {
        Some(1usize)
    } else if same(e, &chars_of("tsx")) {
        Some(1usize)
    } else if same(e, &chars_of("js")) {
        Some(2usize)
    } else if same(e, &chars_of("jsx")) {
        Some(2usize)
    } else if same(e, &chars_of("py")) {
        Some(3usize)
    } else if same(e, &chars_of("go")) {
        Some(4usize)
    } else if same(e, &chars_of("java")) {
        Some(5usize)
    } else if same(e, &chars_of("c")) {
        Some(6usize)
    } else if same(e, &chars_of("cpp")) {
        Some(7usize)
    } else if same(e, &chars_of("cc")) {
        Some(7usize)
    } else if same(e, &chars_of("h")) {
        Some(8usize)
    } else if same(e, &chars_of("hpp")) {
        Some(7usize)
    } else if same(e, &chars_of("cs")) {
        Some(9usize)
    } else if same(e, &chars_of("rb")) {
        Some(10usize)
    } else if same(e, &chars_of("php")) {
        Some(11usize)
    } else if same(e, &chars_of("swift")) {
        Some(12usize)
    } else if same(e, &chars_of("kt")) {
        Some(13usize)
    } else if same(e, &chars_of("scala")) {
        Some(14usize)
    } else {
        None
    }
}

/// The name of the `i`-th language.
fn language_name_of(i: usize) -> (s: String)
    ensures
        s@ == language_name(i as nat),
{
    let n = if i == 0 {
        "Rust"
    } else if i == 1 {
        "TypeScript"
    } else if i == 2 {
        "JavaScript"
    } else if i == 3 {
        "Python"
    } else if i == 4 {
        "Go"
    } else if i == 5 {
        "Java"
    } else if i == 6 {
        "C"
    } else if i == 7 {
        "C++"
    } else if i == 8 {
        "C/C++"
    } else if i == 9 {
        "C#"
    } else if i == 10 {
        "Ruby"
    } else if i == 11 {
        "PHP"
    } else if i == 12 {
        "Swift"
    } else if i == 13 {
        "Kotlin"
    } else if i == 14 {
        "Scala"
    } else {
        "Unknown"
    };
    string_of(&chars_of(n))
}

impl CodeRepoExtractor {
    /// Detect the primary language from the file extensions found in the
    /// repository.
    pub fn detect_language(&self, extensions: &Vec<String>) -> (lang: String)
        ensures
            primary_language(extensions@.map_values(|e: String| e@), lang@),
    {
        let ghost exts = extensions@.map_values(|e: String| e@);
        let mut counts: Vec<usize> = Vec::new();
        for j in 0..15usize
            invariant
                counts.len() == j,
                forall|i: int| 0 <= i < j ==> counts@[i] == 0,
        {
            counts.push(0);
        }
        assert(exts.take(0) =~= Seq::<Seq<char>>::empty());
        for k in 0..extensions.len()
            invariant
                exts == extensions@.map_values(|e: String| e@),
                counts.len() == 15,
                forall|i: int|
                    0 <= i < 15 ==> #[trigger] counts@[i] == language_count(
                        exts.take(k as int),
                        i as nat,
                    ) && counts@[i] <= k,
        {
            let ghost pre = exts.take(k as int);
            let ghost cur = exts.take(k + 1);
            proof {
                assert(cur.drop_last() =~= pre);
                assert(cur.last() == extensions@[k as int]@);
            }
            let l = lower(extensions[k].as_str());
            match language_of(&l) {
                Some(i) => {
                    let c = counts[i] + 1;
                    counts.set(i, c);
                },
                None => {},
            }
            proof {
                assert forall|i: int| 0 <= i < 15 implies #[trigger] counts@[i] == language_count(
                    cur,
                    i as nat,
                ) && counts@[i] <= k + 1 by {}
            }
        }
        assert(exts.take(extensions.len() as int) =~= exts);
        let mut best: usize = 0;
        for j in 1..15usize
            invariant
                counts.len() == 15,
                best < j,
                forall|i: int| 0 <= i < j ==> counts@[i] <= counts@[best as int],
        {
            if counts[j] > counts[best] {
                best = j;
            }
        }
        proof {
            assert forall|j: nat| j < language_total() implies #[trigger] language_count(exts, j)
                <= language_count(exts, best as nat) by {
                assert(counts@[j as int] == language_count(exts, j));
            }
        }
        if counts[best] == 0 {
            proof {
                assert forall|i: nat| i < language_total() implies #[trigger] language_count(exts, i)
                    == 0 by {
                    assert(counts@[i as int] == language_count(exts, i));
                }
            }
            string_of(&chars_of("Unknown"))
        } else {
            let name = language_name_of(best);
            proof {
                assert(!(forall|i: nat| i < language_total() ==> #[trigger] language_count(exts, i) == 0))
                    by {
                    assert(language_count(exts, best as nat) > 0);
                }
            }
            name
        }
    }
}

} // verus!
