//! The text a repository extraction produces: the directory tree drawn with
//! box characters (one directory level at a time, as the caller walks the
//! file system), and the files that follow it in fenced blocks.
use vstd::prelude::*;
use crate::query_expansion::string_views;
use crate::text::{
    chars_of, extend_str, has_prefix, join, join_str, lemma_lex_total, lemma_lex_transitive,
    lex_less, lex_lt, string_of, views,
};
use vstd::relations::{sorted_by, total_ordering};

verus! {

/// A directory entry: its name, and whether it is a directory.
pub type EntryText = (Seq<char>, bool);

/// The plain text of entries.
pub open spec fn entries_text(v: Seq<(String, bool)>) -> Seq<EntryText> {
    v.map_values(|e: (String, bool)| (e.0@, e.1))
}

/// The order of entries: by name, and, between two entries of one name, the
/// file before the directory.
pub open spec fn entry_le(a: EntryText, b: EntryText) -> bool {
    lex_lt(a.0, b.0) || (a.0 == b.0 && (!a.1 || b.1))
}

/// Entries in order of name (see `entry_le`).
pub open spec fn by_name(s: Seq<EntryText>) -> bool {
    forall|i: int, j: int| 0 <= i < j < s.len() ==> entry_le(#[trigger] s[i], #[trigger] s[j])
}

/// `t` holds the entries of `s`, each as often.
pub open spec fn same_entries(s: Seq<EntryText>, t: Seq<EntryText>) -> bool {
    s.to_multiset() == t.to_multiset()
}

/// The entry order is transitive.
proof fn lemma_entry_le_transitive(a: EntryText, b: EntryText, c: EntryText)
    requires
        entry_le(a, b),
        entry_le(b, c),
    ensures
        entry_le(a, c),
{
    if lex_lt(a.0, b.0) && lex_lt(b.0, c.0) {
        lemma_lex_transitive(a.0, b.0, c.0);
    }
}

/// Of two entries, one comes at or before the other.
proof fn lemma_entry_le_total(a: EntryText, b: EntryText)
    ensures
        entry_le(a, b) || entry_le(b, a),
{
    if a.0 != b.0 {
        lemma_lex_total(a.0, b.0);
    }
}

/// Two entries each at or before the other are the same entry.
proof fn lemma_entry_le_antisymmetric(a: EntryText, b: EntryText)
    requires
        entry_le(a, b),
        entry_le(b, a),
    ensures
        a == b,
{
    if lex_lt(a.0, b.0) {
        crate::text::lemma_lex_asymmetric(a.0, b.0);
    } else if lex_lt(b.0, a.0) {
        crate::text::lemma_lex_asymmetric(b.0, a.0);
    }
}

/// The entry order is a total order.
proof fn lemma_entry_order_total()
    ensures
        total_ordering(|a: EntryText, b: EntryText| entry_le(a, b)),
{
    let r = |a: EntryText, b: EntryText| entry_le(a, b);
    assert forall|x: EntryText| #[trigger] r(x, x) by {
        crate::text::lemma_lex_irreflexive(x.0);
    }
    assert forall|x: EntryText, y: EntryText| #[trigger] r(x, y) && #[trigger] r(y, x) implies x
        == y by {
        lemma_entry_le_antisymmetric(x, y);
    }
    assert forall|x: EntryText, y: EntryText, z: EntryText| #[trigger] r(x, y) && #[trigger] r(
        y,
        z,
    ) implies r(x, z) by {
        lemma_entry_le_transitive(x, y, z);
    }
    assert forall|x: EntryText, y: EntryText| #[trigger] r(x, y) || #[trigger] r(y, x) by {
        lemma_entry_le_total(x, y);
    }
}

/// Is `a` at or before `b` in the entry order?
fn entry_before(a: &(String, bool), b: &(String, bool)) -> (r: bool)
    ensures
        r == entry_le((a.0@, a.1), (b.0@, b.1)),
{
    let av = chars_of(a.0.as_str());
    let bv = chars_of(b.0.as_str());
    lex_less(&av, &bv) || (crate::text::same(&av, &bv) && (!a.1 || b.1))
}

/// An entry the tree leaves out: hidden, or a dependency or build folder.
pub open spec fn skipped_name(name: Seq<char>) -> bool {
    has_prefix(name, "."@) || name == "node_modules"@ || name == "target"@ || name == "build"@
        || name == "dist"@
}

/// The connector before an entry's name.
pub open spec fn connector(last: bool) -> Seq<char> {
    if last {
        "└── "@
    } else {
        "├── "@
    }
}

/// What goes before the entries of a subdirectory, after the prefix.
pub open spec fn indent(last: bool) -> Seq<char> {
    if last {
        "    "@
    } else {
        "│   "@
    }
}

/// One line of the tree: the line, the entry's name, and the prefix of the
/// subdirectory's lines when the entry is a directory.
pub type StepText = (Seq<char>, Seq<char>, Option<Seq<char>>);

/// The lines of a directory level whose entries, sorted by name, are
/// `sorted`: for the first `n` entries, those not skipped, each with the
/// connector of the last entry when it is the last of all entries.
pub open spec fn level_steps(prefix: Seq<char>, sorted: Seq<EntryText>, n: nat) -> Seq<StepText>
    decreases n,
{
    if n == 0 || n > sorted.len() {
        Seq::empty()
    } else {
        let rest = level_steps(prefix, sorted, (n - 1) as nat);
        let (name, is_dir) = sorted[n - 1];
        let last = n == sorted.len();
        if skipped_name(name) {
            rest
        } else {
            rest.push(
                (
                    prefix + connector(last) + name,
                    name,
                    if is_dir {
                        Some(prefix + indent(last))
                    } else {
                        None
                    },
                ),
            )
        }
    }
}

/// One line of the tree, as the walk uses it.
#[derive(Debug, Clone)]
pub struct TreeStep {
    /// The line.
    pub line: String,
    /// The entry's name.
    pub name: String,
    /// For a directory, the prefix of its entries' lines.
    pub descend: Option<String>,
}

/// The plain text of a step.
pub open spec fn step_text(s: TreeStep) -> StepText {
    (
        s.line@,
        s.name@,
        match s.descend {
            Some(p) => Some(p@),
            None => None,
        },
    )
}

/// Sort directory entries by name (a file before a directory of the same
/// name).
pub fn sort_entries(entries: &Vec<(String, bool)>) -> (sorted: Vec<(String, bool)>)
    ensures
        by_name(entries_text(sorted@)),
        same_entries(entries_text(entries@), entries_text(sorted@)),
{
    let ghost et = entries_text(entries@);
    let mut sorted: Vec<(String, bool)> = Vec::new();
    assert(entries_text(sorted@) =~= et.take(0));
    for k in 0..entries.len()
        invariant
            et == entries_text(entries@),
            by_name(entries_text(sorted@)),
            entries_text(sorted@).to_multiset() == et.take(k as int).to_multiset(),
    {
        let x = (entries[k].0.clone(), entries[k].1);
        let ghost xt = (x.0@, x.1);
        assert(xt == et[k as int]);
        let ghost st = entries_text(sorted@);
        let mut pos: usize = 0;
        while pos < sorted.len() && entry_before(&sorted[pos], &x)
            invariant
                pos <= sorted.len(),
                st == entries_text(sorted@),
                xt == (x.0@, x.1),
                forall|i: int| 0 <= i < pos ==> entry_le(#[trigger] st[i], xt),
            decreases sorted.len() - pos,
        {
            pos = pos + 1;
        }
        proof {
            // Every entry at or after pos comes at or after x.
            assert forall|j: int| pos <= j < st.len() implies entry_le(xt, #[trigger] st[j]) by {
                lemma_entry_le_total(st[pos as int], xt);
                if j > pos {
                    lemma_entry_le_transitive(xt, st[pos as int], st[j]);
                }
            }
        }
        sorted.insert(pos, x);
        proof {
            let nt = entries_text(sorted@);
            assert(nt =~= st.insert(pos as int, xt));
            assert(by_name(nt)) by {
                assert forall|i: int, j: int| 0 <= i < j < nt.len() implies entry_le(
                    #[trigger] nt[i],
                    #[trigger] nt[j],
                ) by {
                    if j < pos {
                        assert(nt[i] == st[i] && nt[j] == st[j]);
                    } else if j == pos {
                        assert(nt[i] == st[i]);
                    } else if i < pos {
                        assert(nt[i] == st[i] && nt[j] == st[j - 1]);
                        lemma_entry_le_transitive(nt[i], xt, nt[j]);
                    } else if i == pos {
                        assert(nt[j] == st[j - 1]);
                    } else {
                        assert(nt[i] == st[i - 1] && nt[j] == st[j - 1]);
                    }
                }
            }
            vstd::seq_lib::to_multiset_insert(st, pos as int, xt);
            assert(et.take(k + 1) =~= et.take(k as int).push(xt));
            vstd::seq_lib::to_multiset_build(et.take(k as int), xt);
            assert(nt.to_multiset() == et.take(k + 1).to_multiset());
        }
    }
    assert(et.take(entries.len() as int) =~= et);
    sorted
}

/// Entries sorted by name are determined by the entries: two sortings of
/// the same entries are the same sequence.
pub proof fn lemma_sorting_unique(s: Seq<EntryText>, a: Seq<EntryText>, b: Seq<EntryText>)
    requires
        by_name(a),
        by_name(b),
        same_entries(s, a),
        same_entries(s, b),
    ensures
        a == b,
{
    let r = |x: EntryText, y: EntryText| entry_le(x, y);
    lemma_entry_order_total();
    assert(sorted_by(a, r)) by {
        assert forall|i: int, j: int| 0 <= i < j < a.len() implies #[trigger] r(a[i], a[j]) by {
            assert(entry_le(a[i], a[j]));
        }
    }
    assert(sorted_by(b, r)) by {
        assert forall|i: int, j: int| 0 <= i < j < b.len() implies #[trigger] r(b[i], b[j]) by {
            assert(entry_le(b[i], b[j]));
        }
    }
    vstd::seq_lib::lemma_sorted_unique(a, b, r);
}

/// A name the tree hides: hidden (starting with `.`), or `node_modules`,
/// `target`, `build`, `dist`.
pub open spec fn hidden_in_tree(name: Seq<char>) -> bool {
    has_prefix(name, "."@) || set!["node_modules"@, "target"@, "build"@, "dist"@].contains(name)
}

/// The lines of a directory level: no line shows a hidden name; each line
/// is the prefix, a branch (`├── `, or `└── `) and the name of one of the
/// entries; and every entry whose name is not hidden has a line.
pub proof fn lemma_level_lines(prefix: Seq<char>, sorted: Seq<EntryText>, n: nat)
    requires
        n <= sorted.len(),
    ensures
        forall|i: int|
            #![trigger level_steps(prefix, sorted, n)[i]]
            0 <= i < level_steps(prefix, sorted, n).len() ==> {
                let st = level_steps(prefix, sorted, n)[i];
                &&& !hidden_in_tree(st.1)
                &&& (st.0 == prefix + "├── "@ + st.1 || st.0 == prefix + "└── "@ + st.1)
                &&& exists|j: int| 0 <= j < n && (#[trigger] sorted[j]).0 == st.1
            },
        forall|j: int|
            0 <= j < n && !hidden_in_tree((#[trigger] sorted[j]).0) ==> exists|i: int|
                0 <= i < level_steps(prefix, sorted, n).len() && (#[trigger] level_steps(
                    prefix,
                    sorted,
                    n,
                )[i]).1 == sorted[j].0,
    decreases n,
{
    if n > 0 {
        let m = (n - 1) as nat;
        lemma_level_lines(prefix, sorted, m);
        let rest = level_steps(prefix, sorted, m);
        let all = level_steps(prefix, sorted, n);
        let (name, is_dir) = sorted[m as int];
        if skipped_name(name) {
            assert(all == rest);
            assert forall|j: int|
                0 <= j < n && !hidden_in_tree((#[trigger] sorted[j]).0) implies exists|i: int|
                0 <= i < all.len() && (#[trigger] all[i]).1 == sorted[j].0 by {
                if j == m {
                    assert(hidden_in_tree(sorted[j].0));
                }
            }
        } else {
            let last = n == sorted.len();
            let step = (
                prefix + connector(last) + name,
                name,
                if is_dir {
                    Some(prefix + indent(last))
                } else {
                    None
                },
            );
            assert(all == rest.push(step));
            assert forall|i: int|
                #![trigger all[i]]
                0 <= i < all.len() implies {
                let st = all[i];
                &&& !hidden_in_tree(st.1)
                &&& (st.0 == prefix + "├── "@ + st.1 || st.0 == prefix + "└── "@ + st.1)
                &&& exists|j: int| 0 <= j < n && (#[trigger] sorted[j]).0 == st.1
            } by {
                if i < rest.len() {
                    assert(all[i] == rest[i]);
                    let st = rest[i];
                    let j = choose|j: int| 0 <= j < m && (#[trigger] sorted[j]).0 == st.1;
                    assert(0 <= j < n && sorted[j].0 == st.1);
                } else {
                    assert(all[i] == step);
                    assert(sorted[m as int].0 == name);
                }
            }
            assert forall|j: int|
                0 <= j < n && !hidden_in_tree((#[trigger] sorted[j]).0) implies exists|i: int|
                0 <= i < all.len() && (#[trigger] all[i]).1 == sorted[j].0 by {
                if j < m {
                    let i = choose|i: int| 0 <= i < rest.len() && (#[trigger] rest[i]).1 == sorted[j].0;
                    assert(all[i] == rest[i]);
                } else {
                    assert(all[rest.len() as int] == step);
                }
            }
        }
    }
}

/// Is the entry one the tree leaves out?
fn is_skipped(name: &str) -> (r: bool)
    ensures
        r == skipped_name(name@),
{
    let v = chars_of(name);
    let n = name.to_owned();
    crate::text::starts_with_str(&v, ".") || n == "node_modules".to_owned() || n
        == "target".to_owned() || n == "build".to_owned() || n == "dist".to_owned()
}

/// The lines of one directory level of the tree, `depth` levels below the
/// top; none below `max_depth`. The entries are sorted by name first.
pub fn tree_level(prefix: &str, depth: usize, max_depth: usize, entries: &Vec<(String, bool)>) -> (steps:
    Vec<TreeStep>)
    ensures
        depth > max_depth ==> steps.len() == 0,
        depth <= max_depth ==> exists|sorted: Seq<EntryText>|
            #![trigger level_steps(prefix@, sorted, sorted.len())]
            by_name(sorted) && same_entries(entries_text(entries@), sorted)
                && steps@.map_values(|s: TreeStep| step_text(s)) == level_steps(
                prefix@,
                sorted,
                sorted.len(),
            ),
{
    let mut steps: Vec<TreeStep> = Vec::new();
    if depth > max_depth {
        return steps;
    }
    let sorted = sort_entries(entries);
    let ghost st = entries_text(sorted@);
    let n = sorted.len();
    for i in 0..n
        invariant
            n == sorted.len(),
            st == entries_text(sorted@),
            steps@.map_values(|s: TreeStep| step_text(s)) == level_steps(prefix@, st, i as nat),
    {
        let last = i == n - 1;
        let name = &sorted[i].0;
        let ghost prev = steps@;
        if !is_skipped(name.as_str()) {
            let mut line = prefix.to_owned();
            if last {
                line.append("└── ");
            } else {
                line.append("├── ");
            }
            line.append(name.as_str());
            let descend = if sorted[i].1 {
                let mut p = prefix.to_owned();
                if last {
                    p.append("    ");
                } else {
                    p.append("│   ");
                }
                Some(p)
            } else {
                None
            };
            let step = TreeStep { line, name: name.clone(), descend };
            steps.push(step);
            proof {
                assert(steps@ =~= prev.push(step));
                assert(steps@.map_values(|s: TreeStep| step_text(s)) =~= prev.map_values(
                    |s: TreeStep| step_text(s),
                ).push(step_text(step)));
            }
        }
        assert(steps@.map_values(|s: TreeStep| step_text(s)) =~= level_steps(
            prefix@,
            st,
            (i + 1) as nat,
        ));
    }
    steps
}

/// The lines of the tree joined by newlines.
pub fn join_lines(lines: &Vec<String>) -> (t: String)
    ensures
        t@ == join(string_views(lines@), "\n"@),
{
    let mut parts: Vec<Vec<char>> = Vec::new();
    for i in 0..lines.len()
        invariant
            parts.len() == i,
            views(parts@) == string_views(lines@).take(i as int),
    {
        let ghost prev = parts@;
        parts.push(chars_of(lines[i].as_str()));
        proof {
            assert(parts@ =~= prev.push(parts@[i as int]));
            assert(views(parts@) =~= views(prev).push(lines@[i as int]@));
            assert(string_views(lines@).take(i + 1) =~= string_views(lines@).take(i as int).push(
                lines@[i as int]@,
            ));
        }
    }
    assert(string_views(lines@).take(lines.len() as int) =~= string_views(lines@));
    string_of(&join_str(&parts, "\n"))
}

/// How many directory levels the tree shows: four for a deep analysis, two
/// otherwise.
pub fn tree_depth(deep: bool) -> (d: usize)
    ensures
        d == (if deep {
            4usize
        } else {
            2usize
        }),
{
    if deep {
        4
    } else {
        2
    }
}

// ---------------------------------------------------------------------------
// The extracted text of a repository
// ---------------------------------------------------------------------------

/// The last component of a path.
pub open spec fn last_component(path: Seq<char>) -> Seq<char>
    decreases path.len(),
{
    if path.len() == 0 {
        Seq::empty()
    } else if path.last() == '/' {
        Seq::empty()
    } else {
        last_component(path.drop_last()).push(path.last())
    }
}

/// The extension of a file name as `Path::extension` reads it: what follows
/// its last dot, when that dot is not its first character.
pub open spec fn name_extension(name: Seq<char>) -> Seq<char>
    decreases name.len(),
{
    if name.len() <= 1 {
        Seq::empty()
    } else if name.last() == '.' {
        Seq::empty()
    } else if exists_dot_after_start(name.drop_last()) {
        name_extension(name.drop_last()).push(name.last())
    } else {
        Seq::empty()
    }
}

/// The name has a dot after its first character.
pub open spec fn exists_dot_after_start(name: Seq<char>) -> bool {
    exists|i: int| 1 <= i < name.len() && name[i] == '.'
}

/// One file of the extraction: its path, and its text when it could be read.
pub type FileText = (Seq<char>, Option<Seq<char>>);

/// The sections of the files that could be read, in order.
pub open spec fn file_sections(files: Seq<FileText>) -> Seq<char>
    decreases files.len(),
{
    if files.len() == 0 {
        Seq::empty()
    } else {
        let (path, text) = files.last();
        file_sections(files.drop_last()) + match text {
            Some(t) => "### "@ + path + "\n\n```"@ + name_extension(last_component(path)) + "\n"@
                + t + "\n```\n\n"@,
            None => Seq::empty(),
        }
    }
}

/// The extracted text of a repository: its tree, then its files.
pub open spec fn repo_text(tree: Seq<char>, files: Seq<FileText>) -> Seq<char> {
    "## Repository Structure\n\n```\n"@ + tree + "\n```\n\n## Files\n\n"@ + file_sections(files)
}

/// The extension of the file at `path`.
fn path_extension(path: &str) -> (e: Vec<char>)
    ensures
        e@ == name_extension(last_component(path@)),
{
    let v = chars_of(path);
    // The last component.
    let mut start: usize = v.len();
    assert(v@.take(v.len() as int) =~= v@);
    assert(v@.skip(v.len() as int) =~= Seq::<char>::empty());
    while start > 0 && v[start - 1] != '/'
        invariant
            start <= v.len(),
            last_component(v@) == last_component(v@.take(start as int)) + v@.skip(start as int),
        decreases start,
    {
        proof {
            assert(v@.take(start as int).drop_last() =~= v@.take(start - 1));
            assert(v@.skip(start - 1) =~= seq![v@[start - 1]] + v@.skip(start as int));
            assert(last_component(v@.take(start as int)) =~= last_component(v@.take(start - 1)).push(
                v@[start - 1],
            ));
        }
        start = start - 1;
    }
    proof {
        if start > 0 {
            assert(last_component(v@.take(start as int)) =~= Seq::<char>::empty());
        } else {
            assert(v@.take(0) =~= Seq::<char>::empty());
        }
    }
    let name = crate::text::slice(&v, start, v.len());
    assert(name@ =~= last_component(v@));
    // The extension: after the last dot, when it is not the first character.
    let mut dot: usize = name.len();
    while dot > 0 && name[dot - 1] != '.'
        invariant
            dot <= name.len(),
            forall|i: int| dot <= i < name.len() ==> name@[i] != '.',
        decreases dot,
    {
        dot = dot - 1;
    }
    proof {
        lemma_extension_at(name@, dot as int);
    }
    if dot >= 2 {
        crate::text::slice(&name, dot, name.len())
    } else {
        Vec::new()
    }
}

/// The extension of a name, given the position just after its last dot (0
/// when it has none).
proof fn lemma_extension_at(name: Seq<char>, dot: int)
    requires
        0 <= dot <= name.len(),
        forall|i: int| dot <= i < name.len() ==> name[i] != '.',
        dot > 0 ==> name[dot - 1] == '.',
    ensures
        name_extension(name) == (if dot >= 2 {
            name.subrange(dot, name.len() as int)
        } else {
            Seq::empty()
        }),
    decreases name.len(),
{
    if name.len() <= 1 {
    } else if name.last() == '.' {
        assert(dot == name.len());
        assert(name.subrange(dot, name.len() as int) =~= Seq::<char>::empty());
    } else {
        let p = name.drop_last();
        if dot >= 2 {
            assert(exists_dot_after_start(p)) by {
                assert(p[dot - 1] == '.');
            }
            lemma_extension_at(p, dot);
            assert(name.subrange(dot, name.len() as int) =~= p.subrange(dot, p.len() as int).push(
                name.last(),
            ));
        } else {
            assert(!exists_dot_after_start(p)) by {
                if exists_dot_after_start(p) {
                    let i = choose|i: int| 1 <= i < p.len() && p[i] == '.';
                    assert(name[i] == '.');
                }
            }
        }
    }
}

/// The extracted text of a repository: the tree (its lines joined), then
/// each file that could be read, headed by its path and fenced with its
/// extension.
pub fn repo_content(tree: &str, files: &Vec<(String, Option<String>)>) -> (text: String)
    ensures
        text@ == repo_text(
            tree@,
            files@.map_values(
                |f: (String, Option<String>)|
                    (
                        f.0@,
                        match f.1 {
                            Some(t) => Some(t@),
                            None => None,
                        },
                    ),
            ),
        ),
{
    let ghost fv = files@.map_values(
        |f: (String, Option<String>)|
            (
                f.0@,
                match f.1 {
                    Some(t) => Some(t@),
                    None => None,
                },
            ),
    );
    let mut v = chars_of("## Repository Structure\n\n```\n");
    extend_str(&mut v, tree);
    extend_str(&mut v, "\n```\n\n## Files\n\n");
    let ghost head = v@;
    for i in 0..files.len()
        invariant
            fv.len() == files.len(),
            forall|k: int| 0 <= k < files.len() ==> #[trigger] fv[k] == (
                files@[k].0@,
                match files@[k].1 {
                    Some(t) => Some(t@),
                    None => None,
                },
            ),
            v@ == head + file_sections(fv.take(i as int)),
    {
        proof {
            assert(fv.take(i + 1).drop_last() =~= fv.take(i as int));
            assert(fv.take(i + 1).last() == fv[i as int]);
        }
        match &files[i].1 {
            Some(t) => {
                extend_str(&mut v, "### ");
                extend_str(&mut v, files[i].0.as_str());
                extend_str(&mut v, "\n\n```");
                crate::text::extend(&mut v, &path_extension(files[i].0.as_str()));
                extend_str(&mut v, "\n");
                extend_str(&mut v, t.as_str());
                extend_str(&mut v, "\n```\n\n");
            },
            None => {},
        }
        assert(v@ =~= head + file_sections(fv.take(i + 1)));
    }
    assert(fv.take(files.len() as int) =~= fv);
    string_of(&v)
}

} // verus!
