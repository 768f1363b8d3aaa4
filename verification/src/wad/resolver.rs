//! What a chunk's path hash names.

use std::collections::HashMap;

use vstd::prelude::*;

verus! {

/// An answer of a resolver, by the text of its path.
pub open spec fn answer_view(answer: Option<String>) -> Option<Seq<char>> {
    match answer {
        Some(s) => Some(s@),
        None => None,
    }
}

/// Names chunks by their path hashes: a hash table, names recovered from an
/// archive, or nothing at all.
///
/// A resolver answers `None` for a hash it has no name for; the extraction
/// writes such a chunk under its hash as sixteen hex digits. Its three
/// methods agree: whether a hash is known, and what a batch answers, follow
/// from what the resolver names each hash by.
pub trait PathResolver {
    /// The path the resolver names `path_hash` by, if any.
    spec fn names(&self, path_hash: u64) -> Option<Seq<char>>;

    /// The path of `path_hash`, or `None` when the resolver has no name for it.
    fn resolve(&self, path_hash: u64) -> (r: Option<String>)
        ensures
            answer_view(r) == self.names(path_hash),
    ;

    /// Whether the resolver names `path_hash`.
    fn is_known(&self, path_hash: u64) -> (r: bool)
        ensures
            r == self.names(path_hash) is Some,
    {
        self.resolve(path_hash).is_some()
    }

    /// The paths of `path_hashes`, one answer per hash, in the order given.
    ///
    /// A resolver reading a compressed store may answer the batch in one
    /// pass; an override still names each hash as `resolve` does.
    fn resolve_all(&self, path_hashes: &[u64]) -> (r: Vec<Option<String>>)
        ensures
            r@.len() == path_hashes@.len(),
            forall|i: int|
                0 <= i < r@.len() ==> answer_view(#[trigger] r@[i]) == self.names(path_hashes@[i]),
    {
        let mut out: Vec<Option<String>> = Vec::new();
        let mut i: usize = 0;
        while i < path_hashes.len()
            invariant
                i <= path_hashes@.len(),
                out@.len() == i,
                forall|j: int|
                    0 <= j < i ==> answer_view(#[trigger] out@[j]) == self.names(path_hashes@[j]),
            decreases path_hashes@.len() - i,
        {
            let answer = self.resolve(path_hashes[i]);
            out.push(answer);
            i = i + 1;
        }
        out
    }
}

/// A reference to a resolver resolves as the resolver does.
impl<'a, R: PathResolver + ?Sized> PathResolver for &'a R {
    open spec fn names(&self, path_hash: u64) -> Option<Seq<char>> {
        (**self).names(path_hash)
    }

    fn resolve(&self, path_hash: u64) -> (r: Option<String>) {
        (**self).resolve(path_hash)
    }

    fn is_known(&self, path_hash: u64) -> (r: bool) {
        (**self).is_known(path_hash)
    }

    fn resolve_all(&self, path_hashes: &[u64]) -> (r: Vec<Option<String>>) {
        (**self).resolve_all(path_hashes)
    }
}

/// A boxed resolver resolves as the resolver does.
impl<R: PathResolver + ?Sized> PathResolver for Box<R> {
    open spec fn names(&self, path_hash: u64) -> Option<Seq<char>> {
        (**self).names(path_hash)
    }

    fn resolve(&self, path_hash: u64) -> (r: Option<String>) {
        (**self).resolve(path_hash)
    }

    fn is_known(&self, path_hash: u64) -> (r: bool) {
        (**self).is_known(path_hash)
    }

    fn resolve_all(&self, path_hashes: &[u64]) -> (r: Vec<Option<String>>) {
        (**self).resolve_all(path_hashes)
    }
}

/// A shared resolver resolves as the resolver does.
impl<R: PathResolver + ?Sized> PathResolver for std::sync::Arc<R> {
    open spec fn names(&self, path_hash: u64) -> Option<Seq<char>> {
        (**self).names(path_hash)
    }

    fn resolve(&self, path_hash: u64) -> (r: Option<String>) {
        (**self).resolve(path_hash)
    }

    fn is_known(&self, path_hash: u64) -> (r: bool) {
        (**self).is_known(path_hash)
    }

    fn resolve_all(&self, path_hashes: &[u64]) -> (r: Vec<Option<String>>) {
        (**self).resolve_all(path_hashes)
    }
}

/// A resolver that names nothing: every chunk is written under its hash.
#[derive(Debug, Clone, Copy, Default)]
pub struct NoResolver;

impl PathResolver for NoResolver {
    open spec fn names(&self, path_hash: u64) -> Option<Seq<char>> {
        None
    }

    fn resolve(&self, path_hash: u64) -> (r: Option<String>) {
        None
    }

    fn is_known(&self, path_hash: u64) -> (r: bool) {
        false
    }
}

/// A hash table is a resolver: it names each hash it holds by its path.
impl PathResolver for HashMap<u64, String> {
    open spec fn names(&self, path_hash: u64) -> Option<Seq<char>> {
        if self@.contains_key(path_hash) {
            Some(self@[path_hash]@)
        } else {
            None
        }
    }

    fn resolve(&self, path_hash: u64) -> (r: Option<String>) {
        broadcast use vstd::std_specs::hash::group_hash_axioms;

        match self.get(&path_hash) {
            Some(path) => Some(path.clone()),
            None => None,
        }
    }

    fn is_known(&self, path_hash: u64) -> (r: bool) {
        broadcast use vstd::std_specs::hash::group_hash_axioms;

        self.contains_key(&path_hash)
    }
}

} // verus!
