use vstd::prelude::*;

use crate::text::{chars_of, contains_piece, has_piece, has_prefix_at, starts_with};
use std::path::{Path, PathBuf};

verus! {

#[verifier::external_type_specification]
#[verifier::external_body]
pub struct ExPathBuf(std::path::PathBuf);

/// The arguments of a strip run: the input directory, the output directory,
/// and the exclusion patterns (relative to the input directory when they
/// start with `/`, otherwise matched anywhere in a path).
pub struct StripArgs {
    pub input: PathBuf,
    pub output: PathBuf,
    pub exclude: Vec<String>,
}

/// The character sequences held by a list of strings.
pub open spec fn texts(v: Seq<String>) -> Seq<Seq<char>> {
    v.map_values(|s: String| s@)
}

/// The character sequence of an optional string.
pub open spec fn opt_text(o: Option<String>) -> Option<Seq<char>> {
    match o {
        Some(s) => Some(s@),
        None => None,
    }
}

/// The components of the path written `path`, each as text, as
/// `std::path::Path::components` yields them.
pub uninterp spec fn path_components(path: Seq<char>) -> Seq<Seq<char>>;

/// The path `path` with the leading components `base` removed, as text, as
/// `std::path::Path::strip_prefix` gives it; `None` when `base` is not a
/// prefix of `path`.
pub uninterp spec fn path_strip_prefix(path: Seq<char>, base: Seq<char>) -> Option<Seq<char>>;

/// The extension of the path written `path`, as `std::path::Path::extension`
/// gives it.
pub uninterp spec fn path_extension(path: Seq<char>) -> Option<Seq<char>>;

/// The path `rel` adjoined to `base`, as text, as `std::path::Path::join`
/// gives it.
pub uninterp spec fn path_join(base: Seq<char>, rel: Seq<char>) -> Seq<char>;

/// Calls `std::path::Path::join` and writes the result as text. The contract
/// names the result `path_join(base, rel)`.
#[verifier::external_body]
fn join_path(base: &str, rel: &str) -> (r: String)
    ensures
        r@ == path_join(base@, rel@),
{
    Path::new(base).join(rel).to_string_lossy().into_owned()
}

/// Calls `std::path::Path::components` on `path` and writes each component as
/// text. The contract names the result `path_components(path)`, a function of
/// the text alone; nothing more is claimed of it.
#[verifier::external_body]
fn components_of(path: &str) -> (r: Vec<String>)
    ensures
        texts(r@) == path_components(path@),
{
    Path::new(path).components().map(|c| c.as_os_str().to_string_lossy().into_owned()).collect()
}

/// Calls `std::path::Path::strip_prefix` and writes the remaining path as
/// text. The contract names the result `path_strip_prefix(path, base)`.
#[verifier::external_body]
fn strip_path_prefix(path: &str, base: &str) -> (r: Option<String>)
    ensures
        opt_text(r) == path_strip_prefix(path@, base@),
{
    Path::new(path).strip_prefix(base).ok().map(|p| p.to_string_lossy().into_owned())
}

/// Calls `std::path::Path::extension` and writes the extension as text. The
/// contract names the result `path_extension(path)`.
#[verifier::external_body]
fn extension_of(path: &str) -> (r: Option<String>)
    ensures
        opt_text(r) == path_extension(path@),
{
    Path::new(path).extension().map(|e| e.to_string_lossy().into_owned())
}

pub open spec fn git_dir() -> Seq<char> {
    seq!['.', 'g', 'i', 't']
}

/// Whether the exclusion pattern `ex` excludes the entry whose path relative
/// to the input directory is `rel`. A pattern `/p` excludes `p` and
/// everything below it (`rel` is `p` or starts with `p/`); any other pattern
/// excludes every entry whose relative path contains it.
pub open spec fn excluded_by(rel: Seq<char>, ex: Seq<char>) -> bool {
    if ex.len() > 0 && ex[0] == '/' {
        let p = ex.drop_first();
        rel == p || starts_with(rel, p.push('/'))
    } else {
        contains_piece(rel, ex)
    }
}

/// Whether an entry is kept: none of its path components is `.git`, and no
/// exclusion pattern excludes it.
pub open spec fn include_decision(
    components: Seq<Seq<char>>,
    rel: Seq<char>,
    excludes: Seq<Seq<char>>,
) -> bool {
    &&& forall|i: int| 0 <= i < components.len() ==> #[trigger] components[i] != git_dir()
    &&& forall|j: int| 0 <= j < excludes.len() ==> !excluded_by(rel, #[trigger] excludes[j])
}

/// The path of `entry` relative to `input_dir`, or `entry` itself when
/// `input_dir` is not a prefix of it.
pub open spec fn relative_text(entry: Seq<char>, input_dir: Seq<char>) -> Seq<char> {
    match path_strip_prefix(entry, input_dir) {
        Some(r) => r,
        None => entry,
    }
}

/// Whether the entry at path `entry`, found under `input_dir`, is kept.
pub open spec fn entry_included(
    entry: Seq<char>,
    input_dir: Seq<char>,
    excludes: Seq<Seq<char>>,
) -> bool {
    include_decision(
        path_components(entry),
        relative_text(entry, input_dir),
        excludes,
    )
}

fn is_git_dir(c: &String) -> (b: bool)
    ensures
        b == (c@ == git_dir()),
{
    let g = vec!['.', 'g', 'i', 't'];
    assert(g@ =~= git_dir());
    crate::model::text_is(c.as_str(), g.as_slice())
}

fn excludes_entry(rel: &[char], ex: &String) -> (b: bool)
    ensures
        b == excluded_by(rel@, ex@),
{
    let ex = chars_of(ex.as_str());
    if ex.len() > 0 && ex[0] == '/' {
        let mut pattern: Vec<char> = Vec::new();
        let mut k: usize = 1;
        while k < ex.len()
            invariant
                1 <= k <= ex@.len(),
                pattern@ == ex@.subrange(1, k as int),
            decreases ex@.len() - k,
        {
            pattern.push(ex[k]);
            proof {
                assert(ex@.subrange(1, k + 1) =~= ex@.subrange(1, k as int).push(ex@[k as int]));
            }
            k += 1;
        }
        assert(pattern@ =~= ex@.drop_first());
        let same = pattern.len() == rel.len() && has_prefix_at(rel, 0, pattern.as_slice());
        proof {
            assert(rel@.skip(0) =~= rel@);
            if pattern@.len() == rel@.len() && starts_with(rel@, pattern@) {
                assert(rel@ =~= pattern@);
            }
        }
        pattern.push('/');
        let below = has_prefix_at(rel, 0, pattern.as_slice());
        same || below
    } else {
        has_piece(rel, ex.as_slice())
    }
}

/// Whether an entry is kept (see `include_decision`), given the components of
/// its path and its path relative to the input directory.
pub fn include_entry(components: &[String], relative: &str, excludes: &[String]) -> (b: bool)
    ensures
        b == include_decision(texts(components@), relative@, texts(excludes@)),
{
    let mut i: usize = 0;
    while i < components.len()
        invariant
            i <= components@.len(),
            forall|t: int| 0 <= t < i ==> #[trigger] texts(components@)[t] != git_dir(),
        decreases components@.len() - i,
    {
        if is_git_dir(&components[i]) {
            assert(texts(components@)[i as int] == git_dir());
            return false;
        }
        i += 1;
    }
    let rel = chars_of(relative);
    let mut j: usize = 0;
    while j < excludes.len()
        invariant
            j <= excludes@.len(),
            rel@ == relative@,
            forall|t: int| 0 <= t < components@.len() ==> #[trigger] texts(components@)[t] != git_dir(),
            forall|t: int|
                0 <= t < j ==> !excluded_by(relative@, #[trigger] texts(excludes@)[t]),
        decreases excludes@.len() - j,
    {
        if excludes_entry(rel.as_slice(), &excludes[j]) {
            assert(excluded_by(relative@, texts(excludes@)[j as int]));
            return false;
        }
        j += 1;
    }
    true
}

/// Whether the walk keeps the entry at path `entry`, found under `input_dir`:
/// an entry with a `.git` component is never kept, nor one that an exclusion
/// pattern excludes (see `excluded_by`).
pub fn should_include_entry(entry: &str, input_dir: &str, excludes: &[String]) -> (b: bool)
    ensures
        b == entry_included(entry@, input_dir@, texts(excludes@)),
{
    let components = components_of(entry);
    let relative = match strip_path_prefix(entry, input_dir) {
        Some(r) => r,
        None => entry.to_owned(),
    };
    include_entry(components.as_slice(), relative.as_str(), excludes)
}

/// Where the entry at `path`, found under `input_dir`, is written: its path
/// relative to `input_dir` adjoined to `output_dir`; `None` when `input_dir`
/// is not a prefix of `path`.
pub fn output_path_for(path: &str, input_dir: &str, output_dir: &str) -> (r: Option<String>)
    ensures
        opt_text(r) == match path_strip_prefix(path@, input_dir@) {
            Some(rel) => Some(path_join(output_dir@, rel)),
            None => None,
        },
{
    match strip_path_prefix(path, input_dir) {
        Some(rel) => Some(join_path(output_dir, rel.as_str())),
        None => None,
    }
}

/// What to do with one walked entry.
#[derive(Clone, Copy, Debug, PartialEq, Eq)]
pub enum EntryAction {
    /// Create the matching directory in the output.
    CreateDir,
    /// Write the file to the output with its test code stripped.
    StripTests,
    /// Copy the file to the output unchanged.
    CopyFile,
}

/// What the walk does with the entry at `path`: a directory is created; a
/// file with the extension `rs` is stripped of its tests; any other file is
/// copied.
pub fn plan_entry(path: &str, is_dir: bool) -> (a: EntryAction)
    ensures
        a == (if is_dir {
            EntryAction::CreateDir
        } else if path_extension(path@) == Some(seq!['r', 's']) {
            EntryAction::StripTests
        } else {
            EntryAction::CopyFile
        }),
{
    if is_dir {
        return EntryAction::CreateDir;
    }
    let rs = vec!['r', 's'];
    assert(rs@ =~= seq!['r', 's']);
    match extension_of(path) {
        Some(ext) => {
            if crate::model::text_is(ext.as_str(), rs.as_slice()) {
                EntryAction::StripTests
            } else {
                EntryAction::CopyFile
            }
        },
        None => EntryAction::CopyFile,
    }
}

/// An entry with a `.git` path component is never kept, whatever the
/// exclusion patterns.
pub proof fn law_git_never_included(entry: Seq<char>, input_dir: Seq<char>, excludes: Seq<Seq<char>>)
    requires
        exists|i: int|
            0 <= i < path_components(entry).len() && #[trigger] path_components(entry)[i]
                == git_dir(),
    ensures
        !entry_included(entry, input_dir, excludes),
{
}

/// A pattern `/p` excludes the entry at `p` (relative to the input directory)
/// and every entry below it.
pub proof fn law_anchored_pattern_excludes_subtree(
    entry: Seq<char>,
    input_dir: Seq<char>,
    excludes: Seq<Seq<char>>,
    j: int,
    p: Seq<char>,
)
    requires
        0 <= j < excludes.len(),
        excludes[j] == seq!['/'] + p,
        relative_text(entry, input_dir) == p || starts_with(
            relative_text(entry, input_dir),
            p.push('/'),
        ),
    ensures
        !entry_included(entry, input_dir, excludes),
{
    assert(excludes[j].drop_first() =~= p);
    assert(excluded_by(relative_text(entry, input_dir), excludes[j]));
}

/// A pattern that does not start with `/` excludes every entry whose path
/// relative to the input directory contains it.
pub proof fn law_plain_pattern_excludes_containing_paths(
    entry: Seq<char>,
    input_dir: Seq<char>,
    excludes: Seq<Seq<char>>,
    j: int,
)
    requires
        0 <= j < excludes.len(),
        !(excludes[j].len() > 0 && excludes[j][0] == '/'),
        contains_piece(relative_text(entry, input_dir), excludes[j]),
    ensures
        !entry_included(entry, input_dir, excludes),
{
    assert(excluded_by(relative_text(entry, input_dir), excludes[j]));
}

/// More exclusion patterns never keep more entries: an entry kept under the
/// patterns `more` added to `base` is kept under `base`.
pub proof fn law_more_patterns_keep_less(
    entry: Seq<char>,
    input_dir: Seq<char>,
    base: Seq<Seq<char>>,
    more: Seq<Seq<char>>,
)
    ensures
        entry_included(entry, input_dir, base + more) ==> entry_included(entry, input_dir, base),
{
    if entry_included(entry, input_dir, base + more) {
        assert forall|j: int| 0 <= j < base.len() implies !excluded_by(
            relative_text(entry, input_dir),
            #[trigger] base[j],
        ) by {
            assert((base + more)[j] == base[j]);
        }
    }
}

/// With no exclusion patterns, an entry is kept exactly when none of its path
/// components is `.git`.
pub proof fn law_no_patterns_keep_all_but_git(entry: Seq<char>, input_dir: Seq<char>)
    ensures
        entry_included(entry, input_dir, seq![]) <==> forall|i: int|
            0 <= i < path_components(entry).len() ==> #[trigger] path_components(entry)[i]
                != git_dir(),
{
}

/// The path relative to the input directory of the entry named `c` inside
/// the entry whose relative path is `rel` (the input directory itself when
/// `rel` is empty).
pub open spec fn child_relative(rel: Seq<char>, c: Seq<char>) -> Seq<char> {
    if rel.len() == 0 {
        c
    } else {
        rel + seq!['/'] + c
    }
}

/// What is not kept stays not kept below it: when an entry is not kept,
/// neither is any entry directly inside it, so the walk loses no kept entry
/// by not descending into an entry it does not keep. Patterns `/p` are taken
/// with `p` non-empty (the pattern `/` alone excludes only the input
/// directory itself).
pub proof fn law_not_kept_stays_not_kept_below(
    components: Seq<Seq<char>>,
    rel: Seq<char>,
    excludes: Seq<Seq<char>>,
    c: Seq<char>,
)
    requires
        !include_decision(components, rel, excludes),
        forall|j: int|
            0 <= j < excludes.len() && excludes[j].len() > 0 && excludes[j][0] == '/' ==> (
            #[trigger] excludes[j]).len() > 1,
    ensures
        !include_decision(components.push(c), child_relative(rel, c), excludes),
{
    let child = child_relative(rel, c);
    if exists|i: int| 0 <= i < components.len() && #[trigger] components[i] == git_dir() {
        let i = choose|i: int| 0 <= i < components.len() && #[trigger] components[i] == git_dir();
        assert(components.push(c)[i] == git_dir());
    } else {
        let j = choose|j: int| 0 <= j < excludes.len() && excluded_by(rel, #[trigger] excludes[j]);
        let ex = excludes[j];
        if ex.len() > 0 && ex[0] == '/' {
            let p = ex.drop_first();
            let pp = p.push('/');
            if rel.len() == 0 {
                assert(p.len() > 0);
                assert(!starts_with(rel, pp));
                assert(false);
            } else {
                assert(starts_with(child, pp)) by {
                    if rel == p {
                        assert(child.take(pp.len() as int) =~= pp);
                    } else {
                        assert(rel.take(pp.len() as int) == pp);
                        assert(child.take(pp.len() as int) =~= rel.take(pp.len() as int));
                    }
                }
            }
        } else {
            let i = choose|i: int|
                0 <= i <= rel.len() - ex.len() && #[trigger] rel.subrange(i, i + ex.len()) == ex;
            if rel.len() == 0 {
                assert(ex.len() == 0);
                assert(child.subrange(0, 0) =~= ex);
            } else {
                assert(child.subrange(i, i + ex.len()) =~= rel.subrange(i, i + ex.len()));
            }
        }
        assert(excluded_by(child, excludes[j]));
    }
}

/// An anchored pattern `/p` excludes nothing but `p` and what lies below it:
/// an entry whose relative path is neither `p` nor starts with `p/` is not
/// excluded by it (so `/a/b/c` leaves the rest of `a` alone).
pub proof fn law_anchored_pattern_excludes_only_its_subtree(rel: Seq<char>, p: Seq<char>)
    ensures
        excluded_by(rel, seq!['/'] + p) ==> (rel == p || starts_with(rel, p.push('/'))),
{
    assert((seq!['/'] + p).drop_first() =~= p);
}

/// With anchored patterns only, an entry without a `.git` component is kept
/// when its relative path is none of the patterns' paths and lies below none
/// of them.
pub proof fn law_anchored_patterns_keep_what_lies_outside(
    entry: Seq<char>,
    input_dir: Seq<char>,
    excludes: Seq<Seq<char>>,
    ps: Seq<Seq<char>>,
)
    requires
        excludes.len() == ps.len(),
        forall|j: int| 0 <= j < excludes.len() ==> #[trigger] excludes[j] == seq!['/'] + ps[j],
        forall|j: int|
            0 <= j < ps.len() ==> relative_text(entry, input_dir) != #[trigger] ps[j] && !starts_with(
                relative_text(entry, input_dir),
                ps[j].push('/'),
            ),
        forall|i: int|
            0 <= i < path_components(entry).len() ==> #[trigger] path_components(entry)[i]
                != git_dir(),
    ensures
        entry_included(entry, input_dir, excludes),
{
    let rel = relative_text(entry, input_dir);
    assert forall|j: int| 0 <= j < excludes.len() implies !excluded_by(rel, #[trigger] excludes[j]) by {
        law_anchored_pattern_excludes_only_its_subtree(rel, ps[j]);
        assert(rel != ps[j]);
    }
}

} // verus!
