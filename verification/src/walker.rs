//! Which entries of a directory walk are candidates for ingestion.
//!
//! The walk itself reads the file system and honours ignore files; this
//! module holds the rules that no ignore file can change: only regular files
//! whose name ends in `.md` are candidates, and nothing below a directory
//! named `node_modules` ever is. Paths use `/` between components and are
//! taken relative to the root of the walk.

use vstd::prelude::*;
use crate::text::{chars_of, eq_chars, split, split_chars};

verus! {

/// What the walk found out about the type of an entry.
#[derive(Clone, Copy, Debug, PartialEq, Eq, Structural)]
pub enum EntryKind {
    File,
    Directory,
    Symlink,
    Other,
}

/// One entry produced by a walk: its path below the root, and its file type
/// where the walk could determine it.
#[derive(Debug)]
pub struct WalkEntry {
    pub path: String,
    pub kind: Option<EntryKind>,
}

/// The name of the directory that is never descended into.
pub open spec fn excluded_dir() -> Seq<char> {
    "node_modules"@
}

/// The suffix that marks a markdown file.
pub open spec fn markdown_suffix() -> Seq<char> {
    ".md"@
}

/// The components of a path.
pub open spec fn components(path: Seq<char>) -> Seq<Seq<char>> {
    split(path, '/')
}

/// Whether `s` ends with `suffix`.
pub open spec fn ends_with(s: Seq<char>, suffix: Seq<char>) -> bool {
    suffix.len() <= s.len() && s.skip(s.len() - suffix.len()) == suffix
}

/// Whether the last component of `path` ends with the markdown suffix.
pub open spec fn is_markdown_path(path: Seq<char>) -> bool {
    ends_with(components(path).last(), markdown_suffix())
}

/// Whether some component of `path` is the excluded directory name.
pub open spec fn is_excluded_path(path: Seq<char>) -> bool {
    components(path).contains(excluded_dir())
}

/// Whether an entry is a candidate: a regular markdown file outside the
/// excluded directory.
pub open spec fn is_candidate(path: Seq<char>, kind: Option<EntryKind>) -> bool {
    kind == Some(EntryKind::File) && is_markdown_path(path) && !is_excluded_path(path)
}

/// The paths and kinds of a sequence of entries.
pub open spec fn entry_views(entries: Seq<WalkEntry>) -> Seq<(Seq<char>, Option<EntryKind>)> {
    entries.map_values(|e: WalkEntry| (e.path@, e.kind))
}

/// The candidate paths among `entries`, in order of first appearance, each
/// once.
pub open spec fn selected(entries: Seq<(Seq<char>, Option<EntryKind>)>) -> Seq<Seq<char>>
    decreases entries.len(),
{
    if entries.len() == 0 {
        seq![]
    } else {
        let before = selected(entries.drop_last());
        let e = entries.last();
        if is_candidate(e.0, e.1) && !before.contains(e.0) {
            before.push(e.0)
        } else {
            before
        }
    }
}

/// Every candidate path among the entries is selected exactly once, nothing
/// else is selected, and no selected path lies below the excluded directory.
pub proof fn lemma_selected_exactly_once(entries: Seq<(Seq<char>, Option<EntryKind>)>)
    ensures
        selected(entries).no_duplicates(),
        forall|p: Seq<char>| #[trigger]
            selected(entries).contains(p) <==> exists|i: int|
                0 <= i < entries.len() && (#[trigger] entries[i]).0 == p && is_candidate(
                    p,
                    entries[i].1,
                ),
        forall|k: int|
            0 <= k < selected(entries).len() ==> is_markdown_path(#[trigger] selected(entries)[k])
                && !is_excluded_path(selected(entries)[k]),
    decreases entries.len(),
{
    if entries.len() > 0 {
        let rest = entries.drop_last();
        let before = selected(rest);
        let e = entries.last();
        lemma_selected_exactly_once(rest);
        let now = selected(entries);
        assert forall|p: Seq<char>| #[trigger] now.contains(p) implies exists|i: int|
            0 <= i < entries.len() && (#[trigger] entries[i]).0 == p && is_candidate(
                p,
                entries[i].1,
            ) by {
            if before.contains(p) {
                let i = choose|i: int|
                    0 <= i < rest.len() && (#[trigger] rest[i]).0 == p && is_candidate(p, rest[i].1);
                assert(entries[i] == rest[i]);
            } else {
                let k = choose|k: int| 0 <= k < now.len() && now[k] == p;
                if k < before.len() {
                    assert(before[k] == p);
                }
                assert(entries[entries.len() - 1].0 == p);
            }
        }
        assert forall|p: Seq<char>|
            (exists|i: int|
                0 <= i < entries.len() && (#[trigger] entries[i]).0 == p && is_candidate(
                    p,
                    entries[i].1,
                )) implies #[trigger] now.contains(p) by {
            let i = choose|i: int|
                0 <= i < entries.len() && (#[trigger] entries[i]).0 == p && is_candidate(
                    p,
                    entries[i].1,
                );
            if i < rest.len() {
                assert(rest[i] == entries[i]);
                assert(before.contains(p));
                let k = choose|k: int| 0 <= k < before.len() && before[k] == p;
                assert(now[k] == p);
            } else if before.contains(p) {
                let k = choose|k: int| 0 <= k < before.len() && before[k] == p;
                assert(now[k] == p);
            } else {
                assert(now[now.len() - 1] == p);
            }
        }
        assert forall|k: int| 0 <= k < now.len() implies is_markdown_path(#[trigger] now[k])
            && !is_excluded_path(now[k]) by {
            if k < before.len() {
                assert(now[k] == before[k]);
            }
        }
    }
}

/// The file name under which a directory may list paths to leave out.
pub fn ignore_file_name() -> (name: &'static str)
    ensures
        name@ == ".ksignore"@,
{
    ".ksignore"
}

/// The directory name that is excluded whatever the ignore files say.
pub fn excluded_dir_name() -> (name: &'static str)
    ensures
        name@ == excluded_dir(),
{
    "node_modules"
}

/// The glob that selects markdown files by name.
pub fn markdown_glob() -> (glob: &'static str)
    ensures
        glob@ == "*"@ + markdown_suffix(),
{
    proof {
        reveal_strlit("*.md");
        reveal_strlit("*");
        reveal_strlit(".md");
        assert("*.md"@ =~= "*"@ + ".md"@);
    }
    "*.md"
}

/// Whether the walk reported a regular file. An entry whose type could not be
/// determined is no regular file.
pub fn is_regular_file(kind: Option<EntryKind>) -> (b: bool)
    ensures
        b == (kind == Some(EntryKind::File)),
{
    match kind {
        Some(EntryKind::File) => true,
        _ => false,
    }
}

/// Whether `s` ends with `suffix`.
pub(crate) fn chars_end_with(s: &Vec<char>, suffix: &Vec<char>) -> (b: bool)
    ensures
        b == ends_with(s@, suffix@),
{
    if suffix.len() > s.len() {
        return false;
    }
    let off: usize = s.len() - suffix.len();
    let mut i: usize = 0;
    while i < suffix.len()
        invariant
            off + suffix.len() == s.len(),
            i <= suffix.len(),
            forall|j: int| 0 <= j < i ==> s@[off + j] == suffix@[j],
        decreases suffix.len() - i,
    {
        if s[off + i] != suffix[i] {
            assert(s@.skip(off as int)[i as int] != suffix@[i as int]);
            return false;
        }
        i += 1;
    }
    assert(s@.skip(off as int) =~= suffix@);
    true
}

/// Whether the path names a markdown file outside the excluded directory.
pub fn path_is_eligible(path: &str) -> (b: bool)
    ensures
        b == (is_markdown_path(path@) && !is_excluded_path(path@)),
{
    let chars = chars_of(path);
    let parts = split_chars(&chars, '/');
    let excluded = chars_of("node_modules");
    let suffix = chars_of(".md");
    let ghost comps = components(path@);
    assert(comps.len() == parts.len() && comps.len() >= 1);
    let mut i: usize = 0;
    while i < parts.len()
        invariant
            i <= parts.len(),
            crate::text::views(parts@) == comps,
            comps.len() == parts.len(),
            comps == components(path@),
            excluded@ == excluded_dir(),
            forall|j: int| 0 <= j < i ==> comps[j] != excluded_dir(),
        decreases parts.len() - i,
    {
        if eq_chars(&parts[i], &excluded) {
            assert(comps[i as int] == excluded_dir());
            assert(comps.contains(excluded_dir()));
            return false;
        }
        assert(comps[i as int] == parts@[i as int]@);
        i += 1;
    }
    let last = &parts[parts.len() - 1];
    assert(last@ == comps.last());
    chars_end_with(last, &suffix)
}

/// Whether `entry` is a candidate for ingestion.
pub fn accepts(entry: &WalkEntry) -> (b: bool)
    ensures
        b == is_candidate(entry.path@, entry.kind),
{
    is_regular_file(entry.kind) && path_is_eligible(entry.path.as_str())
}

/// The candidate paths among `entries`: every regular markdown file outside
/// the excluded directory, once, in order of first appearance.
pub fn select_candidates(entries: &Vec<WalkEntry>) -> (paths: Vec<String>)
    ensures
        crate::text::string_views(paths@) == selected(entry_views(entries@)),
        crate::text::string_views(paths@).no_duplicates(),
        forall|k: int|
            0 <= k < paths.len() ==> is_markdown_path(#[trigger] paths[k]@) && !is_excluded_path(
                paths[k]@,
            ),
{
    let mut paths: Vec<String> = Vec::new();
    let ghost all = entry_views(entries@);
    let mut i: usize = 0;
    assert(all.take(0) =~= seq![]);
    assert(crate::text::string_views(paths@) =~= seq![]);
    while i < entries.len()
        invariant
            i <= entries.len(),
            all == entry_views(entries@),
            crate::text::string_views(paths@) == selected(all.take(i as int)),
        decreases entries.len() - i,
    {
        let entry = &entries[i];
        proof {
            assert(all.take(i + 1).drop_last() == all.take(i as int));
            assert(all.take(i + 1).last() == (entry.path@, entry.kind));
        }
        if accepts(entry) {
            let mut seen = false;
            let mut j: usize = 0;
            while j < paths.len() && !seen
                invariant
                    j <= paths.len(),
                    seen ==> crate::text::string_views(paths@).contains(entry.path@),
                    !seen ==> forall|k: int| 0 <= k < j ==> paths[k]@ != entry.path@,
                decreases paths.len() - j + if seen { 0int } else { 1int },
            {
                if paths[j] == entry.path {
                    seen = true;
                    assert(crate::text::string_views(paths@)[j as int] == entry.path@);
                } else {
                    j += 1;
                }
            }
            if !seen {
                assert(!crate::text::string_views(paths@).contains(entry.path@)) by {
                    if crate::text::string_views(paths@).contains(entry.path@) {
                        let k = choose|k: int|
                            0 <= k < paths.len() && crate::text::string_views(paths@)[k]
                                == entry.path@;
                        assert(paths[k]@ == entry.path@);
                    }
                }
                let ghost old_paths = paths@;
                paths.push(entry.path.clone());
                assert(crate::text::string_views(paths@) =~= crate::text::string_views(
                    old_paths,
                ).push(entry.path@));
            }
        }
        i += 1;
    }
    proof {
        assert(all.take(entries.len() as int) == all);
        lemma_selected_exactly_once(all);
        assert forall|k: int| 0 <= k < paths.len() implies is_markdown_path(#[trigger] paths[k]@)
            && !is_excluded_path(paths[k]@) by {
            assert(crate::text::string_views(paths@)[k] == paths[k]@);
        }
    }
    paths
}

} // verus!
