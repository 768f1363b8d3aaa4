//! The names an extraction writes its chunks under, settled before any
//! chunk is written: a nameless chunk's hash name, the `.ltk` suffix a name
//! takes when a directory of the same extraction holds it, and the claim
//! each chunk lays on its file so that no two chunks land in one.

use vstd::prelude::*;

use super::naming::{
    lemma_strip_ltk_name, ltk_name, ltk_name_of, plain_of, plain_path, stripped_of, DirectoryPaths,
    NamingPolicy,
};
use super::recovery::{
    file_stem, file_stem_of, hex_digit, hex_name, hex_name_of, no_backslash, no_colon, no_dot,
    no_slash, one_component,
};

verus! {

broadcast use vstd::string::group_string_axioms;

/// Whether `ext` can be a file extension: it names no directory.
pub open spec fn valid_extension(ext: Seq<char>) -> bool {
    no_slash(ext) && no_backslash(ext)
}

/// What camino's `Utf8PathBuf::set_extension` makes of `path` with `ext`.
pub uninterp spec fn set_extension_of(path: Seq<char>, ext: Seq<char>) -> Seq<char>;

/// camino's `Utf8PathBuf::set_extension`.
///
/// Claims: the result is the named one; and, as its documentation gives,
/// a file name of one component with no extension gains `.` and `ext` when
/// `ext` is not empty. One component means no `/`, `\` or `:`, so that no
/// host splits it or reads it as a drive prefix with no file name. What it
/// makes of other paths is left unsaid.
#[verifier::external_body]
fn set_extension(path: &str, ext: &str) -> (r: String)
    requires
        valid_extension(ext@),
    ensures
        r@ == set_extension_of(path@, ext@),
        path@.len() > 0 && one_component(path@) && no_dot(path@) && ext@.len() > 0 ==> r@ == path@
            + seq!['.'] + ext@,
{
    let mut p = camino::Utf8PathBuf::from(path);
    p.set_extension(ext);
    p.into_string()
}

/// The file name camino's `Utf8Path::file_name` gives for `path`: its last
/// component, or `None` when it ends in `..` or names no file.
pub uninterp spec fn file_name_of(path: Seq<char>) -> Option<Seq<char>>;

/// camino's `Utf8Path::file_name`, the name copied out.
///
/// Claims: the result is the named file name.
#[verifier::external_body]
fn file_name(path: &str) -> (r: Option<String>)
    ensures
        r is Some <==> file_name_of(path@) is Some,
        r matches Some(x) ==> file_name_of(path@) == Some(x@),
{
    camino::Utf8Path::new(path).file_name().map(|s| s.to_string())
}

/// The extension camino's `Utf8Path::extension` gives for `path`: what
/// follows the last `.` of its file name, when the name has a stem before
/// it.
pub uninterp spec fn extension_of(path: Seq<char>) -> Option<Seq<char>>;

/// camino's `Utf8Path::extension`, the extension copied out.
///
/// Claims: the result is the named extension.
#[verifier::external_body]
fn extension(path: &str) -> (r: Option<String>)
    ensures
        r is Some <==> extension_of(path@) is Some,
        r matches Some(x) ==> extension_of(path@) == Some(x@),
{
    camino::Utf8Path::new(path).extension().map(|s| s.to_string())
}

/// The text of an optional string.
pub open spec fn text_of(s: Option<&str>) -> Option<Seq<char>> {
    match s {
        Some(t) => Some(t@),
        None => None,
    }
}

/// Whether the extension, if any, is a valid one.
pub open spec fn extension_ok(extension: Option<&str>) -> bool {
    match extension {
        Some(e) => valid_extension(e@),
        None => true,
    }
}

/// `name` with `.ext` after it, unless `ext` is empty.
pub open spec fn with_extension(name: Seq<char>, ext: Seq<char>) -> Seq<char> {
    if ext.len() == 0 {
        name
    } else {
        name + seq!['.'] + ext
    }
}

/// The name of a chunk under its hash: `<hash>.<ext>` under
/// [`NamingPolicy::Descriptive`] when the chunk's kind has an extension,
/// the bare hash otherwise.
pub open spec fn hashed_name_of(
    path_hash: u64,
    naming: NamingPolicy,
    extension: Option<Seq<char>>,
) -> Seq<char> {
    match extension {
        Some(ext) => if naming == NamingPolicy::Descriptive {
            with_extension(hex_name_of(path_hash), ext)
        } else {
            hex_name_of(path_hash)
        },
        None => hex_name_of(path_hash),
    }
}

/// A hash name is one component of sixteen hex digits: no `/`, `\` or `.`.
proof fn lemma_hex_name_plain(path_hash: u64)
    ensures
        hex_name_of(path_hash).len() == 16,
        no_slash(hex_name_of(path_hash)),
        no_backslash(hex_name_of(path_hash)),
        no_colon(hex_name_of(path_hash)),
        no_dot(hex_name_of(path_hash)),
{
    let s = hex_name_of(path_hash);
    assert forall|i: int| 0 <= i < s.len() implies s[i] != '/' && s[i] != '\\' && s[i] != '.' && s[i]
        != ':' by {
        let d = ((path_hash as nat / vstd::arithmetic::power2::pow2((4 * (15 - i)) as nat))
            % 16) as nat;
        assert(s[i] == hex_digit(d));
        assert(d < 16);
    }
}

/// The name a chunk takes when the file system refuses its own, or when a
/// duplicate finds both its path and the suffixed one taken.
pub fn hashed_name(path_hash: u64, naming: NamingPolicy, extension: Option<&str>) -> (r: String)
    requires
        extension_ok(extension),
    ensures
        r@ == hashed_name_of(path_hash, naming, text_of(extension)),
{
    let hex = hex_name(path_hash);
    proof {
        lemma_hex_name_plain(path_hash);
    }
    match extension {
        Some(ext) => {
            if naming == NamingPolicy::Descriptive && ext.unicode_len() > 0 {
                set_extension(hex.as_str(), ext)
            } else {
                hex
            }
        },
        None => hex,
    }
}

/// The name a chunk is written under before anything else is settled: the
/// path its resolver gave, or, for a nameless chunk, its hash name.
pub open spec fn base_name_of(
    path_hash: u64,
    resolved: Option<Seq<char>>,
    naming: NamingPolicy,
    extension: Option<Seq<char>>,
) -> Seq<char> {
    match resolved {
        Some(path) => path,
        None => hashed_name_of(path_hash, naming, extension),
    }
}

/// The name a chunk is written under before anything else is settled.
///
/// A resolved path stays as it is. A nameless chunk lands under its hash,
/// with the extension its bytes identify as under
/// [`NamingPolicy::Descriptive`] and bare under [`NamingPolicy::Lossless`].
pub fn base_name(path_hash: u64, resolved: Option<&str>, naming: NamingPolicy, extension: Option<&str>) -> (r: String)
    requires
        extension_ok(extension),
    ensures
        r@ == base_name_of(path_hash, text_of(resolved), naming, text_of(extension)),
{
    match resolved {
        Some(path) => String::from_str(path),
        None => hashed_name(path_hash, naming, extension),
    }
}

/// The name a chunk lands under once the directories are known, and whether
/// that differs from its base name.
///
/// A name the extraction's own paths need as a directory, or one a
/// directory already occupies on disk, takes the `.ltk` suffix; when the
/// suffixed name is a directory too, the chunk takes its hash name.
pub open spec fn settled_name_of(
    base: Seq<char>,
    path_hash: u64,
    naming: NamingPolicy,
    extension: Option<Seq<char>>,
    directories: DirectoryPaths,
    occupied: bool,
) -> (Seq<char>, bool) {
    if !directories.holds_spec(plain_of(base)) && !occupied {
        (base, false)
    } else if directories.holds_spec(plain_of(ltk_name_of(base))) {
        (hashed_name_of(path_hash, naming, extension), true)
    } else {
        (ltk_name_of(base), true)
    }
}

/// The name a chunk lands under, and whether it is one its path did not
/// give. `occupied` says whether a directory stands at `base` on disk
/// already.
pub fn settle_name(
    base: &str,
    path_hash: u64,
    naming: NamingPolicy,
    extension: Option<&str>,
    directories: &DirectoryPaths,
    occupied: bool,
) -> (r: (String, bool))
    requires
        extension_ok(extension),
    ensures
        (r.0@, r.1) == settled_name_of(
            base@,
            path_hash,
            naming,
            text_of(extension),
            *directories,
            occupied,
        ),
{
    if !directories.holds(base) && !occupied {
        return (String::from_str(base), false);
    }
    let renamed = ltk_name(base);
    if directories.holds(renamed.as_str()) {
        (hashed_name(path_hash, naming, extension), true)
    } else {
        (renamed, true)
    }
}

/// A settled name stands: it is the base name when nothing needs that as
/// a directory; otherwise the suffixed base, which no path of the
/// extraction needs as a directory and which strips back to the base; and
/// only when the suffixed name is needed as a directory too, the hash name.
pub proof fn lemma_settled_name_stands(
    base: Seq<char>,
    path_hash: u64,
    naming: NamingPolicy,
    extension: Option<Seq<char>>,
    directories: DirectoryPaths,
    occupied: bool,
)
    ensures
        ({
            let (name, renamed) = settled_name_of(base, path_hash, naming, extension, directories, occupied);
            &&& !renamed <==> (!directories.holds_spec(plain_of(base)) && !occupied)
            &&& !renamed ==> name == base && !directories.holds_spec(plain_of(name))
            &&& renamed && !directories.holds_spec(plain_of(ltk_name_of(base))) ==> name
                == ltk_name_of(base) && stripped_of(name) == base
            &&& renamed && directories.holds_spec(plain_of(ltk_name_of(base))) ==> name
                == hashed_name_of(path_hash, naming, extension)
        }),
{
    lemma_strip_ltk_name(base);
}

/// The name a chunk takes under the flat layout: the file name of its
/// path, or nothing when the path names no file.
pub open spec fn flat_name_of(path: Seq<char>) -> Seq<char> {
    match file_name_of(path) {
        Some(name) => name,
        None => Seq::empty(),
    }
}

/// The file name of `path` alone, for the flat layout.
pub fn flat_name(path: &str) -> (r: String)
    ensures
        r@ == flat_name_of(path@),
{
    match file_name(path) {
        Some(name) => name,
        None => String::new(),
    }
}

/// `name` with the hash of its chunk worked in, for a second chunk of one
/// name under the flat layout: `stem.<hash>.ext`, or `name.<hash>` when
/// the name has no extension.
pub open spec fn flat_suffixed_of(name: Seq<char>, path_hash: u64) -> Seq<char> {
    match extension_of(name) {
        Some(ext) => {
            let stem = match file_stem_of(name) {
                Some(s) => s,
                None => Seq::empty(),
            };
            stem + seq!['.'] + hex_name_of(path_hash) + seq!['.'] + ext
        },
        None => name + seq!['.'] + hex_name_of(path_hash),
    }
}

/// `name` with the hash of its chunk worked in.
pub fn flat_suffixed(name: &str, path_hash: u64) -> (r: String)
    ensures
        r@ == flat_suffixed_of(name@, path_hash),
{
    let hex = hex_name(path_hash);
    let dot = ".";
    proof {
        reveal_strlit(".");
    }
    match extension(name) {
        Some(ext) => {
            let mut out = match file_stem(name) {
                Some(stem) => stem,
                None => String::new(),
            };
            out.append(dot);
            out.append(hex.as_str());
            out.append(dot);
            out.append(ext.as_str());
            out
        },
        None => {
            let mut out = String::from_str(name);
            out.append(dot);
            out.append(hex.as_str());
            out
        },
    }
}

/// The files an extraction has handed out so far, each by its plain form.
#[derive(Debug)]
pub struct ClaimedPaths {
    paths: Vec<String>,
}

impl ClaimedPaths {
    /// The plain forms of the files handed out.
    pub closed spec fn claimed(&self) -> Set<Seq<char>> {
        Set::new(|p: Seq<char>| exists|i: int| 0 <= i < self.paths@.len() && #[trigger] self.paths@[i]@ == p)
    }

    /// Nothing handed out yet.
    pub fn new() -> (r: Self)
        ensures
            r.claimed() == Set::<Seq<char>>::empty(),
    {
        let r = ClaimedPaths { paths: Vec::new() };
        assert(r.claimed() =~= Set::<Seq<char>>::empty());
        r
    }

    /// Whether the file `path` names is handed out.
    pub fn contains(&self, path: &str) -> (r: bool)
        ensures
            r == self.claimed().contains(plain_of(path@)),
    {
        let plain = plain_path(path);
        let mut i: usize = 0;
        while i < self.paths.len()
            invariant
                i <= self.paths@.len(),
                plain@ == plain_of(path@),
                forall|k: int| 0 <= k < i ==> #[trigger] self.paths@[k]@ != plain@,
            decreases self.paths@.len() - i,
        {
            if self.paths[i] == plain {
                return true;
            }
            i = i + 1;
        }
        false
    }

    /// Hands out the file `path` names; says whether it was free.
    pub fn insert(&mut self, path: &str) -> (r: bool)
        ensures
            r == !old(self).claimed().contains(plain_of(path@)),
            final(self).claimed() == old(self).claimed().insert(plain_of(path@)),
    {
        let present = self.contains(path);
        if !present {
            let plain = plain_path(path);
            let ghost before = self.paths@;
            self.paths.push(plain);
            proof {
                assert forall|p: Seq<char>| #[trigger] self.claimed().contains(p) == old(self).claimed().insert(
                    plain_of(path@),
                ).contains(p) by {
                    if exists|i: int| 0 <= i < self.paths@.len() && #[trigger] self.paths@[i]@ == p {
                        let i = choose|i: int| 0 <= i < self.paths@.len() && #[trigger] self.paths@[i]@ == p;
                        if i < before.len() {
                            assert(before[i]@ == p);
                        }
                    }
                    if old(self).claimed().contains(p) {
                        let i = choose|i: int| 0 <= i < before.len() && #[trigger] before[i]@ == p;
                        assert(self.paths@[i]@ == p);
                    }
                    if p == plain_of(path@) {
                        assert(self.paths@[before.len() as int]@ == p);
                    }
                }
                assert(self.claimed() =~= old(self).claimed().insert(plain_of(path@)));
            }
        } else {
            proof {
                assert(old(self).claimed().insert(plain_of(path@)) =~= old(self).claimed());
            }
        }
        !present
    }

    /// The name a chunk keeps under the paths layout, or `None` when another
    /// chunk holds it and the policy leaves this one unwritten.
    ///
    /// Under [`NamingPolicy::Descriptive`] the first chunk on a path keeps it
    /// and a second is dropped. Under [`NamingPolicy::Lossless`] a second
    /// takes the `.ltk` suffix, and a third its hash name.
    pub fn claim_path(
        &mut self,
        path: String,
        renamed: bool,
        path_hash: u64,
        naming: NamingPolicy,
        extension: Option<&str>,
    ) -> (r: Option<(String, bool)>)
        requires
            extension_ok(extension),
        ensures
            r is None <==> (old(self).claimed().contains(plain_of(path@)) && naming
                != NamingPolicy::Lossless),
            r is None ==> final(self).claimed() == old(self).claimed(),
            r matches Some((p, ren)) ==> final(self).claimed() == old(self).claimed().insert(
                plain_of(p@),
            ) && (!old(self).claimed().contains(plain_of(path@)) ==> p@ == path@ && ren
                == renamed) && (old(self).claimed().contains(plain_of(path@)) ==> ren && (
            if !old(self).claimed().contains(plain_of(ltk_name_of(path@))) {
                p@ == ltk_name_of(path@)
            } else {
                p@ == hashed_name_of(path_hash, naming, text_of(extension))
            })),
    {
        if self.insert(path.as_str()) {
            return Some((path, renamed));
        }
        if naming != NamingPolicy::Lossless {
            return None;
        }
        let suffixed = ltk_name(path.as_str());
        if self.insert(suffixed.as_str()) {
            return Some((suffixed, true));
        }
        let hashed = hashed_name(path_hash, naming, extension);
        self.insert(hashed.as_str());
        Some((hashed, true))
    }

    /// The name a chunk keeps under the flat layout. The first chunk of a
    /// name keeps it; a later one takes its hash before the extension, as
    /// `name.<hash>.ext`, or after the name when it has no extension.
    pub fn claim_flat(&mut self, name: String, renamed: bool, path_hash: u64) -> (r: (String, bool))
        ensures
            r.1 == renamed,
            final(self).claimed() == old(self).claimed().insert(plain_of(r.0@)),
            !old(self).claimed().contains(plain_of(name@)) ==> r.0@ == name@,
            old(self).claimed().contains(plain_of(name@)) ==> r.0@ == flat_suffixed_of(
                name@,
                path_hash,
            ),
    {
        if self.insert(name.as_str()) {
            return (name, renamed);
        }
        let suffixed = flat_suffixed(name.as_str(), path_hash);
        self.insert(suffixed.as_str());
        (suffixed, renamed)
    }
}

} // verus!
