//! Names for extracted chunks: the paths an extraction refuses, the plain
//! form of a path, the directories a set of paths names, and the `.ltk`
//! suffix a chunk takes when a directory holds its name.
//!
//! `/` and `\` both separate components, whatever the host.

use vstd::prelude::*;

use crate::text::chars_of;
use super::builder::{lowercase_utf8, to_lowercase_bytes};
use super::codec::{xxh64, xxh64_of};
use super::recovery::{file_stem_of, hex_chunk_hash, stem_hash};

verus! {

broadcast use vstd::string::group_string_axioms;

/// Whether an extraction's names can be read back as the paths they came
/// from.
#[derive(Debug, Clone, Copy, PartialEq, Eq, Hash, Structural)]
#[non_exhaustive]
pub enum NamingPolicy {
    /// Names say what a file holds, at the price of dropping a duplicate.
    Descriptive,
    /// Every chunk lands, under a name its resolved path can be read out of.
    Lossless,
}

impl Default for NamingPolicy {
    fn default() -> (r: Self)
        ensures
            r == NamingPolicy::Descriptive,
    {
        NamingPolicy::Descriptive
    }
}

/// Where each extracted chunk lands under the output directory.
#[derive(Debug, Clone, Copy, PartialEq, Eq, Hash, Structural)]
#[non_exhaustive]
pub enum ExtractLayout {
    /// At its resolved path, with every directory of that path.
    Paths,
    /// In the output directory itself, by its file name alone.
    Flat,
}

impl Default for ExtractLayout {
    fn default() -> (r: Self)
        ensures
            r == ExtractLayout::Paths,
    {
        ExtractLayout::Paths
    }
}

/// What to do with a chunk whose file exists already.
#[derive(Debug, Clone, Copy, PartialEq, Eq, Hash, Structural)]
#[non_exhaustive]
pub enum ExistingFilePolicy {
    /// Write over it.
    Overwrite,
    /// Leave it.
    Skip,
}

impl Default for ExistingFilePolicy {
    fn default() -> (r: Self)
        ensures
            r == ExistingFilePolicy::Overwrite,
    {
        ExistingFilePolicy::Overwrite
    }
}

/// What became of one chunk.
#[derive(Debug, Clone, Copy, PartialEq, Eq, Hash, Structural)]
#[non_exhaustive]
pub enum ExtractResult {
    /// Written to disk.
    Extracted,
    /// Left out by the type filter.
    SkippedByType,
    /// Left out by the path filter.
    SkippedByPath,
    /// Its file existed already, and the policy was to skip it.
    SkippedExisting,
    /// Its resolved path was one the extraction will not write.
    SkippedUnwritablePath,
    /// Another chunk of the extraction claimed its path first.
    SkippedDuplicatePath,
}

/// Why a chunk did not land at the path its resolver gave.
#[derive(Debug, Clone, Copy, PartialEq, Eq, Hash, Structural)]
#[non_exhaustive]
pub enum PathIssue {
    /// The path was one the extraction will not write.
    Unwritable,
    /// Another chunk claimed the path first.
    Duplicate,
    /// The path could not name a file, so the chunk took another name.
    Refused,
}

/// Whether `c` separates path components.
pub open spec fn is_sep(c: char) -> bool {
    c == '/' || c == '\\'
}

/// The components of `s`, split at every separator; a separator at either
/// end, or two in a row, give an empty one.
pub open spec fn split_components(s: Seq<char>) -> Seq<Seq<char>>
    decreases s.len(),
{
    if s.len() == 0 {
        seq![Seq::empty()]
    } else {
        let prev = split_components(s.drop_last());
        if is_sep(s.last()) {
            prev.push(Seq::empty())
        } else {
            prev.update(prev.len() - 1, prev.last().push(s.last()))
        }
    }
}

/// Whether a join steps over component `c`: empty, or `.`.
pub open spec fn is_skipped(c: Seq<char>) -> bool {
    c.len() == 0 || c == seq!['.']
}

/// Whether component `c` is one an extraction refuses: `..`, one with a
/// `:`, or one ending in a dot or a space.
pub open spec fn is_refused(c: Seq<char>) -> bool {
    c == seq!['.', '.'] || c.contains(':') || (c.len() > 0 && (c.last() == '.' || c.last()
        == ' '))
}

/// Whether `path` is one an extraction must refuse to write: it starts at a
/// root, a component it does not step over is refused, or it names no file
/// at all.
pub open spec fn evil_path(path: Seq<char>) -> bool {
    let comps = split_components(path);
    ||| path.len() > 0 && is_sep(path[0])
    ||| exists|i: int| 0 <= i < comps.len() && !is_skipped(comps[i]) && #[trigger] is_refused(comps[i])
    ||| forall|i: int| 0 <= i < comps.len() ==> #[trigger] is_skipped(comps[i])
}

proof fn lemma_split_push(s: Seq<char>, c: char)
    ensures
        split_components(s.push(c)) == (if is_sep(c) {
            split_components(s).push(Seq::empty())
        } else {
            split_components(s).update(
                split_components(s).len() - 1,
                split_components(s).last().push(c),
            )
        }),
        split_components(s).len() >= 1,
    decreases s.len(),
{
    assert(s.push(c).drop_last() =~= s);
    lemma_split_len(s);
}

proof fn lemma_split_len(s: Seq<char>)
    ensures
        split_components(s).len() >= 1,
    decreases s.len(),
{
    if s.len() > 0 {
        lemma_split_len(s.drop_last());
    }
}

/// The verdict on one finished component.
fn component_refused(chars: &Vec<char>, start: usize, end: usize) -> (r: bool)
    requires
        start <= end <= chars@.len(),
    ensures
        r == is_refused(chars@.subrange(start as int, end as int)),
{
    let ghost c = chars@.subrange(start as int, end as int);
    if end - start == 2 && chars[start] == '.' && chars[start + 1] == '.' {
        proof {
            assert(c =~= seq!['.', '.']);
        }
        return true;
    }
    let mut k = start;
    while k < end
        invariant
            start <= k <= end <= chars@.len(),
            c == chars@.subrange(start as int, end as int),
            forall|j: int| start <= j < k ==> chars@[j] != ':',
        decreases end - k,
    {
        if chars[k] == ':' {
            proof {
                assert(c[k - start] == ':');
            }
            return true;
        }
        k = k + 1;
    }
    proof {
        assert(!c.contains(':'));
        if c =~= seq!['.', '.'] {
            assert(end - start == 2);
        }
    }
    end > start && (chars[end - 1] == '.' || chars[end - 1] == ' ')
}

/// Whether `path` is one an extraction must refuse to write: joining it onto
/// the output directory would not give a plain file plainly under it.
///
/// The check is lexical: it starts at a root; a component (other than an
/// empty one or `.`) is `..`, holds a `:`, or ends in a dot or a space; or no
/// component names a file.
pub fn is_evil(path: &str) -> (r: bool)
    ensures
        r == evil_path(path@),
{
    let chars = chars_of(path);
    let n = chars.len();
    if n > 0 && (chars[0] == '/' || chars[0] == '\\') {
        return true;
    }
    let ghost mut done: Seq<Seq<char>> = Seq::empty();
    let mut names_a_file = false;
    let mut start: usize = 0;
    let mut i: usize = 0;
    proof {
        assert(chars@.subrange(0, 0) =~= Seq::<char>::empty());
        assert(split_components(Seq::<char>::empty()) =~= seq![Seq::<char>::empty()]);
        assert(done.push(chars@.subrange(0, 0)) =~= seq![Seq::<char>::empty()]);
    }
    while i < n
        invariant
            i <= n,
            n == chars@.len(),
            chars@ == path@,
            start <= i,
            split_components(chars@.subrange(0, i as int)) == done.push(
                chars@.subrange(start as int, i as int),
            ),
            forall|j: int| 0 <= j < done.len() ==> !(!is_skipped(done[j]) && #[trigger] is_refused(done[j])),
            names_a_file == exists|j: int| 0 <= j < done.len() && !#[trigger] is_skipped(done[j]),
        decreases n - i,
    {
        proof {
            lemma_split_push(chars@.subrange(0, i as int), chars@[i as int]);
            assert(chars@.subrange(0, i + 1) =~= chars@.subrange(0, i as int).push(chars@[i as int]));
        }
        if chars[i] == '/' || chars[i] == '\\' {
            let ghost comp = chars@.subrange(start as int, i as int);
            let (skipped, refused) = component_verdict(&chars, start, i);
            if !skipped && refused {
                proof {
                    lemma_components_prefix(chars@, i as int);
                    assert(split_components(chars@)[done.len() as int] == comp);
                    assert(!is_skipped(split_components(chars@)[done.len() as int]));
                }
                return true;
            }
            proof {
                let ghost old_done = done;
                done = done.push(comp);
                lemma_done_push(old_done, comp, names_a_file);
                assert(chars@.subrange(i + 1, i + 1) =~= Seq::<char>::empty());
            }
            if !skipped {
                names_a_file = true;
            }
            start = i + 1;
        } else {
            proof {
                assert(chars@.subrange(start as int, i + 1) =~= chars@.subrange(
                    start as int,
                    i as int,
                ).push(chars@[i as int]));
                assert(done.push(chars@.subrange(start as int, i as int)).update(
                    done.len() as int,
                    chars@.subrange(start as int, i as int).push(chars@[i as int]),
                ) =~= done.push(chars@.subrange(start as int, i + 1)));
            }
        }
        i = i + 1;
    }
    proof {
        assert(chars@.subrange(0, n as int) =~= chars@);
    }
    let ghost comp = chars@.subrange(start as int, n as int);
    let (skipped, refused) = component_verdict(&chars, start, n);
    if !skipped && refused {
        proof {
            assert(split_components(path@)[done.len() as int] == comp);
        }
        return true;
    }
    proof {
        let ghost old_done = done;
        done = done.push(comp);
        lemma_done_push(old_done, comp, names_a_file);
    }
    if !skipped {
        names_a_file = true;
    }
    proof {
        let comps = split_components(path@);
        assert(comps == done);
        if !names_a_file {
            assert forall|j: int| 0 <= j < comps.len() implies #[trigger] is_skipped(comps[j]) by {
                if !is_skipped(comps[j]) {
                    assert(!is_skipped(done[j]));
                }
            }
        } else {
            let w = choose|j: int| 0 <= j < done.len() && !#[trigger] is_skipped(done[j]);
            assert(!is_skipped(comps[w]));
        }
    }
    !names_a_file
}

/// Whether component `chars[start..end]` is stepped over, and whether it is
/// refused.
fn component_verdict(chars: &Vec<char>, start: usize, end: usize) -> (r: (bool, bool))
    requires
        start <= end <= chars@.len(),
    ensures
        r.0 == is_skipped(chars@.subrange(start as int, end as int)),
        r.1 == is_refused(chars@.subrange(start as int, end as int)),
{
    let ghost comp = chars@.subrange(start as int, end as int);
    let len = end - start;
    let skipped = len == 0 || (len == 1 && chars[start] == '.');
    proof {
        assert(comp.len() == len);
        if len == 1 && chars@[start as int] == '.' {
            assert(comp =~= seq!['.']);
        }
        if comp == seq!['.'] {
            assert(comp[0] == chars@[start as int]);
        }
    }
    (skipped, component_refused(chars, start, end))
}

/// The facts the scan keeps of the finished components, kept across one more.
proof fn lemma_done_push(done: Seq<Seq<char>>, comp: Seq<char>, names_a_file: bool)
    requires
        forall|j: int| 0 <= j < done.len() ==> !(!is_skipped(done[j]) && #[trigger] is_refused(done[j])),
        names_a_file == exists|j: int| 0 <= j < done.len() && !#[trigger] is_skipped(done[j]),
        !(!is_skipped(comp) && is_refused(comp)),
    ensures
        forall|j: int|
            0 <= j < done.push(comp).len() ==> !(!is_skipped(done.push(comp)[j])
                && #[trigger] is_refused(done.push(comp)[j])),
        (names_a_file || !is_skipped(comp)) == exists|j: int|
            0 <= j < done.push(comp).len() && !#[trigger] is_skipped(done.push(comp)[j]),
{
    let nd = done.push(comp);
    assert forall|j: int| 0 <= j < nd.len() implies !(!is_skipped(nd[j]) && #[trigger] is_refused(nd[j])) by {
        if j < done.len() {
            assert(nd[j] == done[j]);
        }
    }
    if names_a_file {
        let w = choose|j: int| 0 <= j < done.len() && !#[trigger] is_skipped(done[j]);
        assert(nd[w] == done[w]);
    } else if !is_skipped(comp) {
        assert(!is_skipped(nd[done.len() as int]));
    } else {
        assert forall|j: int| 0 <= j < nd.len() implies #[trigger] is_skipped(nd[j]) by {
            if j < done.len() {
                assert(nd[j] == done[j]);
            }
        }
    }
}

/// The components of a prefix are those of the whole, up to the last one,
/// which the rest of the whole may still extend.
proof fn lemma_components_prefix(s: Seq<char>, i: int)
    requires
        0 <= i <= s.len(),
    ensures
        split_components(s.subrange(0, i)).len() <= split_components(s).len(),
        forall|j: int|
            0 <= j < split_components(s.subrange(0, i)).len() - 1 ==> #[trigger] split_components(
                s,
            )[j] == split_components(s.subrange(0, i))[j],
        i < s.len() && is_sep(s[i]) ==> split_components(s)[split_components(s.subrange(0, i)).len()
            - 1] == split_components(s.subrange(0, i)).last(),
        i == s.len() ==> split_components(s.subrange(0, i)) == split_components(s),
    decreases s.len() - i,
{
    lemma_split_len(s.subrange(0, i));
    if i == s.len() {
        assert(s.subrange(0, i) =~= s);
    } else {
        lemma_components_prefix(s, i + 1);
        lemma_split_push(s.subrange(0, i), s[i]);
        assert(s.subrange(0, i + 1) =~= s.subrange(0, i).push(s[i]));
        let a = split_components(s.subrange(0, i));
        let b = split_components(s.subrange(0, i + 1));
        if is_sep(s[i]) {
            assert(b.len() == a.len() + 1);
            assert(b[a.len() - 1] == a.last());
            lemma_components_grow(s, i + 1, a.len() - 1);
        }
    }
}

/// A component that a separator has closed stays as it is in every longer
/// prefix.
proof fn lemma_components_grow(s: Seq<char>, i: int, j: int)
    requires
        0 <= i <= s.len(),
        0 <= j < split_components(s.subrange(0, i)).len() - 1,
    ensures
        split_components(s)[j] == split_components(s.subrange(0, i))[j],
    decreases s.len() - i,
{
    if i == s.len() {
        assert(s.subrange(0, i) =~= s);
    } else {
        lemma_split_push(s.subrange(0, i), s[i]);
        assert(s.subrange(0, i + 1) =~= s.subrange(0, i).push(s[i]));
        lemma_components_grow(s, i + 1, j);
    }
}

/// The components a join steps onto: all but the empty ones and `.`.
pub open spec fn kept_components(comps: Seq<Seq<char>>) -> Seq<Seq<char>>
    decreases comps.len(),
{
    if comps.len() == 0 {
        Seq::empty()
    } else if is_skipped(comps.last()) {
        kept_components(comps.drop_last())
    } else {
        kept_components(comps.drop_last()).push(comps.last())
    }
}

/// The parts with one `/` between each two.
pub open spec fn join_slash(parts: Seq<Seq<char>>) -> Seq<char>
    decreases parts.len(),
{
    if parts.len() == 0 {
        Seq::empty()
    } else if parts.len() == 1 {
        parts[0]
    } else {
        join_slash(parts.drop_last()) + seq!['/'] + parts.last()
    }
}

/// `path` with one `/` between its components and nothing else: empty
/// components and `.` dropped, `\` read as `/`.
pub open spec fn plain_of(path: Seq<char>) -> Seq<char> {
    join_slash(kept_components(split_components(path)))
}

proof fn lemma_kept_push(comps: Seq<Seq<char>>, c: Seq<char>)
    ensures
        kept_components(comps.push(c)) == (if is_skipped(c) {
            kept_components(comps)
        } else {
            kept_components(comps).push(c)
        }),
{
    assert(comps.push(c).drop_last() =~= comps);
}

proof fn lemma_join_push(parts: Seq<Seq<char>>, c: Seq<char>)
    ensures
        join_slash(parts.push(c)) == (if parts.len() == 0 {
            c
        } else {
            join_slash(parts) + seq!['/'] + c
        }),
{
    assert(parts.push(c).drop_last() =~= parts);
}

/// `out` after one more component, `chars[start..end]` of `path`.
fn add_component(
    out: &mut String,
    path: &str,
    chars: &Vec<char>,
    start: usize,
    end: usize,
    Ghost(done): Ghost<Seq<Seq<char>>>,
)
    requires
        start <= end <= chars@.len(),
        chars@ == path@,
        old(out)@ == join_slash(kept_components(done)),
    ensures
        final(out)@ == join_slash(kept_components(done.push(chars@.subrange(start as int, end as int)))),
{
    let ghost comp = chars@.subrange(start as int, end as int);
    let (skipped, _) = component_verdict(chars, start, end);
    proof {
        lemma_kept_push(done, comp);
    }
    if !skipped {
        proof {
            lemma_join_push(kept_components(done), comp);
            lemma_kept_not_skipped(done);
            lemma_join_empty(kept_components(done));
            reveal_strlit("/");
        }
        if !out.as_str().is_empty() {
            out.append("/");
        }
        out.append(path.substring_char(start, end));
    }
}

/// A join is empty exactly when there is nothing to join, or one empty part:
/// never for kept components, which are not empty.
proof fn lemma_join_empty(parts: Seq<Seq<char>>)
    requires
        forall|j: int| 0 <= j < parts.len() ==> !#[trigger] is_skipped(parts[j]),
    ensures
        (join_slash(parts).len() == 0) == (parts.len() == 0),
    decreases parts.len(),
{
    if parts.len() > 1 {
        lemma_join_empty(parts.drop_last());
    } else if parts.len() == 1 {
        assert(!is_skipped(parts[0]));
    }
}

/// No kept component is stepped over.
proof fn lemma_kept_not_skipped(comps: Seq<Seq<char>>)
    ensures
        forall|j: int|
            0 <= j < kept_components(comps).len() ==> !#[trigger] is_skipped(kept_components(comps)[j]),
    decreases comps.len(),
{
    if comps.len() > 0 {
        lemma_kept_not_skipped(comps.drop_last());
        let prev = kept_components(comps.drop_last());
        if !is_skipped(comps.last()) {
            assert forall|j: int|
                0 <= j < prev.push(comps.last()).len() implies !#[trigger] is_skipped(
                prev.push(comps.last())[j],
            ) by {
                if j < prev.len() {
                    assert(prev.push(comps.last())[j] == prev[j]);
                }
            }
        }
    }
}

/// `path` with one `/` between its components and nothing else.
///
/// An empty component (from `a//b` or a trailing separator) is dropped, as
/// is a `.`, and `\` separates as `/` does, whatever the host.
pub fn plain_path(path: &str) -> (r: String)
    ensures
        r@ == plain_of(path@),
{
    let chars = chars_of(path);
    let n = chars.len();
    let ghost mut done: Seq<Seq<char>> = Seq::empty();
    let mut out = String::new();
    let mut start: usize = 0;
    let mut i: usize = 0;
    proof {
        assert(chars@.subrange(0, 0) =~= Seq::<char>::empty());
        assert(split_components(Seq::<char>::empty()) =~= seq![Seq::<char>::empty()]);
        assert(done.push(chars@.subrange(0, 0)) =~= seq![Seq::<char>::empty()]);
    }
    while i < n
        invariant
            i <= n,
            n == chars@.len(),
            chars@ == path@,
            start <= i,
            split_components(chars@.subrange(0, i as int)) == done.push(
                chars@.subrange(start as int, i as int),
            ),
            out@ == join_slash(kept_components(done)),
        decreases n - i,
    {
        proof {
            lemma_split_push(chars@.subrange(0, i as int), chars@[i as int]);
            assert(chars@.subrange(0, i + 1) =~= chars@.subrange(0, i as int).push(chars@[i as int]));
            lemma_kept_not_skipped(done);
        }
        if chars[i] == '/' || chars[i] == '\\' {
            add_component(&mut out, path, &chars, start, i, Ghost(done));
            proof {
                done = done.push(chars@.subrange(start as int, i as int));
                assert(chars@.subrange(i + 1, i + 1) =~= Seq::<char>::empty());
            }
            start = i + 1;
        } else {
            proof {
                assert(chars@.subrange(start as int, i + 1) =~= chars@.subrange(
                    start as int,
                    i as int,
                ).push(chars@[i as int]));
                assert(done.push(chars@.subrange(start as int, i as int)).update(
                    done.len() as int,
                    chars@.subrange(start as int, i as int).push(chars@[i as int]),
                ) =~= done.push(chars@.subrange(start as int, i + 1)));
            }
        }
        i = i + 1;
    }
    proof {
        assert(chars@.subrange(0, n as int) =~= chars@);
    }
    add_component(&mut out, path, &chars, start, n, Ghost(done));
    out
}

/// Whether `d` is a directory of `path`: the plain path up to one of its
/// `/`.
pub open spec fn is_directory_of(path: Seq<char>, d: Seq<char>) -> bool {
    exists|j: int|
        0 <= j < plain_of(path).len() && plain_of(path)[j] == '/' && d == #[trigger] plain_of(
            path,
        ).subrange(0, j)
}

/// Whether `d` is one of the strings of `v`.
pub open spec fn listed(v: Seq<String>, d: Seq<char>) -> bool {
    exists|i: int| 0 <= i < v.len() && #[trigger] v[i]@ == d
}

/// Whether one of the first `k` paths has `d` as a directory.
pub open spec fn named_by(paths: Seq<String>, k: int, d: Seq<char>) -> bool {
    exists|kk: int| 0 <= kk < k && #[trigger] is_directory_of(paths[kk]@, d)
}

/// Whether `d` is the plain form of `p` up to one of its first `j`
/// characters, a `/`.
pub open spec fn prefix_directory(p: Seq<char>, j: int, d: Seq<char>) -> bool {
    exists|jj: int| 0 <= jj < j && plain_of(p)[jj] == '/' && d == #[trigger] plain_of(p).subrange(0, jj)
}

/// The directories a set of paths names, each a path in its own right.
///
/// A WAD can hold both `x` and `x/y`; a file system holds one or the other,
/// so one of the two has to move. Which one is settled against this, built
/// over every path of an extraction before any is written.
#[derive(Debug)]
pub struct DirectoryPaths {
    /// Each directory once.
    directories: Vec<String>,
}

impl DirectoryPaths {
    /// Whether `d` is one of the directories.
    pub closed spec fn holds_spec(&self, d: Seq<char>) -> bool {
        listed(self.directories@, d)
    }

    /// Whether `d` is one of the strings of `v`.
    fn holds_in(v: &Vec<String>, d: &String) -> (r: bool)
        ensures
            r == listed(v@, d@),
    {
        let mut i: usize = 0;
        while i < v.len()
            invariant
                i <= v@.len(),
                forall|k: int| 0 <= k < i ==> #[trigger] v@[k]@ != d@,
            decreases v@.len() - i,
        {
            if v[i] == *d {
                return true;
            }
            i = i + 1;
        }
        false
    }

    /// The directories `paths` names.
    pub fn of(paths: &[String]) -> (r: Self)
        ensures
            forall|d: Seq<char>| #[trigger] r.holds_spec(d) <==> named_by(paths@, paths@.len() as int, d),
    {
        let mut directories: Vec<String> = Vec::new();
        let mut k: usize = 0;
        while k < paths.len()
            invariant
                k <= paths@.len(),
                forall|d: Seq<char>| #[trigger] listed(directories@, d) <==> named_by(paths@, k as int, d),
            decreases paths@.len() - k,
        {
            let plain = plain_path(paths[k].as_str());
            let chars = chars_of(plain.as_str());
            let ghost p = paths@[k as int]@;
            let mut j: usize = 0;
            while j < chars.len()
                invariant
                    k < paths@.len(),
                    j <= chars@.len(),
                    chars@ == plain@,
                    plain@ == plain_of(p),
                    p == paths@[k as int]@,
                    forall|d: Seq<char>|
                        #[trigger] listed(directories@, d) <==> (named_by(paths@, k as int, d)
                            || prefix_directory(p, j as int, d)),
                decreases chars@.len() - j,
            {
                if chars[j] == '/' {
                    let directory = String::from_str(plain.as_str().substring_char(0, j));
                    let ghost before = directories@;
                    let present = Self::holds_in(&directories, &directory);
                    if !present {
                        directories.push(directory);
                    }
                    proof {
                        let dd = plain_of(p).subrange(0, j as int);
                        assert(directory@ == dd);
                        assert forall|d: Seq<char>|
                            #[trigger] listed(directories@, d) <==> (named_by(paths@, k as int, d)
                                || prefix_directory(p, j + 1, d)) by {
                            if !present {
                                if listed(directories@, d) {
                                    let i = choose|i: int| 0 <= i < directories@.len() && #[trigger] directories@[i]@ == d;
                                    if i < before.len() {
                                        assert(before[i]@ == d);
                                        assert(listed(before, d));
                                    }
                                }
                                if listed(before, d) {
                                    let i = choose|i: int| 0 <= i < before.len() && #[trigger] before[i]@ == d;
                                    assert(directories@[i]@ == d);
                                }
                                if d == dd {
                                    assert(directories@[before.len() as int]@ == d);
                                }
                            }
                            if d == dd {
                                assert(plain_of(p)[j as int] == '/');
                            }
                            if prefix_directory(p, j + 1, d) {
                                let jj = choose|jj: int| 0 <= jj < j + 1 && plain_of(p)[jj] == '/' && d == #[trigger] plain_of(p).subrange(0, jj);
                                if jj < j {
                                    assert(prefix_directory(p, j as int, d));
                                }
                            }
                            if prefix_directory(p, j as int, d) {
                                let jj = choose|jj: int| 0 <= jj < j && plain_of(p)[jj] == '/' && d == #[trigger] plain_of(p).subrange(0, jj);
                                assert(prefix_directory(p, j + 1, d));
                            }
                        }
                    }
                } else {
                    proof {
                        assert forall|d: Seq<char>|
                            #[trigger] listed(directories@, d) <==> (named_by(paths@, k as int, d)
                                || prefix_directory(p, j + 1, d)) by {
                            if prefix_directory(p, j + 1, d) {
                                let jj = choose|jj: int| 0 <= jj < j + 1 && plain_of(p)[jj] == '/' && d == #[trigger] plain_of(p).subrange(0, jj);
                                assert(jj != j);
                                assert(prefix_directory(p, j as int, d));
                            }
                            if prefix_directory(p, j as int, d) {
                                let jj = choose|jj: int| 0 <= jj < j && plain_of(p)[jj] == '/' && d == #[trigger] plain_of(p).subrange(0, jj);
                                assert(prefix_directory(p, j + 1, d));
                            }
                        }
                    }
                }
                j = j + 1;
            }
            proof {
                assert forall|d: Seq<char>|
                    #[trigger] listed(directories@, d) <==> named_by(paths@, k + 1, d) by {
                    if is_directory_of(p, d) {
                        let jj = choose|jj: int|
                            0 <= jj < plain_of(p).len() && plain_of(p)[jj] == '/' && d == #[trigger] plain_of(p).subrange(0, jj);
                        assert(prefix_directory(p, j as int, d));
                    }
                    if prefix_directory(p, j as int, d) {
                        let jj = choose|jj: int| 0 <= jj < j && plain_of(p)[jj] == '/' && d == #[trigger] plain_of(p).subrange(0, jj);
                        assert(is_directory_of(paths@[k as int]@, d));
                    }
                    if named_by(paths@, k + 1, d) {
                        let kk = choose|kk: int| 0 <= kk < k + 1 && #[trigger] is_directory_of(paths@[kk]@, d);
                        if kk < k {
                            assert(named_by(paths@, k as int, d));
                        }
                    }
                    if named_by(paths@, k as int, d) {
                        let kk = choose|kk: int| 0 <= kk < k && #[trigger] is_directory_of(paths@[kk]@, d);
                        assert(named_by(paths@, k + 1, d));
                    }
                }
            }
            k = k + 1;
        }
        DirectoryPaths { directories }
    }

    /// Whether a path of the same set needs `path` to be a directory.
    pub fn holds(&self, path: &str) -> (r: bool)
        ensures
            r == self.holds_spec(plain_of(path@)),
    {
        let plain = plain_path(path);
        Self::holds_in(&self.directories, &plain)
    }
}

impl Default for DirectoryPaths {
    fn default() -> (r: Self)
        ensures
            forall|d: Seq<char>| !#[trigger] r.holds_spec(d),
    {
        DirectoryPaths { directories: Vec::new() }
    }
}

/// `.ltk` appended to `name`.
pub open spec fn ltk_name_of(name: Seq<char>) -> Seq<char> {
    name + seq!['.', 'l', 't', 'k']
}

/// `<name>.ltk`, the name a chunk takes when a directory holds its own.
///
/// The suffix is added and never substituted, so stripping a trailing
/// `.ltk` gives back the name.
pub fn ltk_name(file_name: &str) -> (r: String)
    ensures
        r@ == ltk_name_of(file_name@),
{
    let mut out = String::from_str(file_name);
    let suffix = ".ltk";
    proof {
        reveal_strlit(".ltk");
        assert(suffix@ =~= seq!['.', 'l', 't', 'k']);
    }
    out.append(suffix);
    out
}

/// `name` without a trailing `.ltk`, if it has one.
pub open spec fn stripped_of(name: Seq<char>) -> Seq<char> {
    if name.len() >= 4 && name.subrange(name.len() - 4, name.len() as int) == seq![
        '.',
        'l',
        't',
        'k',
    ] {
        name.subrange(0, name.len() - 4)
    } else {
        name
    }
}

/// `path` without the `.ltk` suffix an extraction adds, if it has one.
pub fn strip_ltk_suffix(path: &str) -> (r: &str)
    ensures
        r@ == stripped_of(path@),
{
    let chars = chars_of(path);
    let n = chars.len();
    if n >= 4 && chars[n - 4] == '.' && chars[n - 3] == 'l' && chars[n - 2] == 't' && chars[n
        - 1] == 'k' {
        proof {
            assert(path@.subrange(n - 4, n as int) =~= seq!['.', 'l', 't', 'k']);
        }
        path.substring_char(0, n - 4)
    } else {
        proof {
            if n >= 4 && path@.subrange(n - 4, n as int) == seq!['.', 'l', 't', 'k'] {
                assert(path@.subrange(n - 4, n as int)[0] == '.');
                assert(path@.subrange(n - 4, n as int)[1] == 'l');
                assert(path@.subrange(n - 4, n as int)[2] == 't');
                assert(path@.subrange(n - 4, n as int)[3] == 'k');
            }
        }
        path
    }
}

/// Stripping the suffix gives back exactly the name it was added to,
/// whatever that name held.
pub proof fn lemma_strip_ltk_name(name: Seq<char>)
    ensures
        stripped_of(ltk_name_of(name)) == name,
{
    let full = ltk_name_of(name);
    assert(full.subrange(full.len() - 4, full.len() as int) =~= seq!['.', 'l', 't', 'k']);
    assert(full.subrange(0, full.len() - 4) =~= name);
}

/// Which directories a set of paths names does not depend on the order of
/// the paths: two lists of the same paths name the same directories.
pub proof fn lemma_directories_ignore_order(a: Seq<String>, b: Seq<String>)
    requires
        forall|x: String| a.contains(x) <==> b.contains(x),
    ensures
        forall|d: Seq<char>| named_by(a, a.len() as int, d) <==> named_by(b, b.len() as int, d),
{
    assert forall|d: Seq<char>| named_by(a, a.len() as int, d) implies named_by(b, b.len() as int, d) by {
        let k = choose|k: int| 0 <= k < a.len() && #[trigger] is_directory_of(a[k]@, d);
        assert(a.contains(a[k]));
        let j = choose|j: int| 0 <= j < b.len() && b[j] == a[k];
        assert(is_directory_of(b[j]@, d));
    }
    assert forall|d: Seq<char>| named_by(b, b.len() as int, d) implies named_by(a, a.len() as int, d) by {
        let k = choose|k: int| 0 <= k < b.len() && #[trigger] is_directory_of(b[k]@, d);
        assert(b.contains(b[k]));
        let j = choose|j: int| 0 <= j < a.len() && a[j] == b[k];
        assert(is_directory_of(a[j]@, d));
    }
}

/// A renamed path reads back as the path it was renamed from: the `.ltk`
/// suffix on a name that did not end in it leaves the chunk it names
/// unchanged.
pub proof fn lemma_suffix_reads_back(name: Seq<char>)
    requires
        stripped_of(name) == name,
    ensures
        chunk_hash_spec(ltk_name_of(name)) == chunk_hash_spec(name),
{
    lemma_strip_ltk_name(name);
}

/// The chunk an extracted file at `path` was written for: the `.ltk` suffix
/// off, a hash name read as itself, any other path hashed as the archive
/// keys it.
pub open spec fn chunk_hash_spec(path: Seq<char>) -> u64 {
    let named = stripped_of(path);
    match stem_hash(file_stem_of(named)) {
        Some(h) => h,
        None => xxh64_of(lowercase_utf8(plain_of(named)), 0),
    }
}

/// The chunk an extracted file was written for.
///
/// Reads the extraction's naming back: the `.ltk` suffix comes off, a hash
/// name parses as itself, and anything else is the path a resolver gave,
/// hashed as the archive keys it. Both naming policies read back the same
/// way, so this takes none.
pub fn chunk_hash_of(path: &str) -> (r: u64)
    ensures
        r == chunk_hash_spec(path@),
{
    let named = strip_ltk_suffix(path);
    match hex_chunk_hash(named) {
        Some(hash) => hash,
        None => {
            let plain = plain_path(named);
            let bytes = to_lowercase_bytes(plain.as_str());
            xxh64(bytes.as_slice(), 0)
        },
    }
}

} // verus!
