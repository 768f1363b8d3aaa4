//! A WAD's chunks, ordered by path hash.

use vstd::prelude::*;
use vstd::multiset::Multiset;

use super::chunk::WadChunk;

verus! {

broadcast use vstd::seq_lib::group_to_multiset_ensures;

/// Whether `s` is ordered by path hash.
pub open spec fn sorted_by_hash(s: Seq<WadChunk>) -> bool {
    forall|i: int, j: int| 0 <= i <= j < s.len() ==> s[i].path_hash <= s[j].path_hash
}

/// Whether `s[i]` is the last chunk of `s` with `path_hash`.
pub open spec fn is_last_with_hash(s: Seq<WadChunk>, i: int, path_hash: u64) -> bool {
    &&& 0 <= i < s.len()
    &&& s[i].path_hash == path_hash
    &&& forall|j: int| i < j < s.len() ==> #[trigger] s[j].path_hash != path_hash
}

/// An ordered collection of WAD chunks, sorted by path hash.
#[derive(Debug, Clone)]
pub struct WadChunks {
    /// Chunks sorted by `path_hash`.
    chunks: Vec<WadChunk>,
}

impl View for WadChunks {
    type V = Seq<WadChunk>;

    closed spec fn view(&self) -> Seq<WadChunk> {
        self.chunks@
    }
}

impl WadChunks {
    /// Whether the chunks are in path-hash order, which every `WadChunks` is.
    pub open spec fn wf(&self) -> bool {
        sorted_by_hash(self@)
    }

    /// Creates a `WadChunks` from chunks in any order; they are sorted by
    /// `path_hash` internally.
    pub fn from_iter(chunks: Vec<WadChunk>) -> (r: Self)
        ensures
            r.wf(),
            r@.to_multiset() == chunks@.to_multiset(),
    {
        let sorted = sort_by_hash(chunks);
        WadChunks { chunks: sorted }
    }

    /// Returns the number of chunks.
    pub fn len(&self) -> (r: usize)
        ensures
            r == self@.len(),
    {
        self.chunks.len()
    }

    /// Returns `true` if there are no chunks.
    pub fn is_empty(&self) -> (r: bool)
        ensures
            r == (self@.len() == 0),
    {
        self.chunks.len() == 0
    }

    /// Look up a chunk by its path hash.
    ///
    /// When several chunks share the hash, the last of them in path-hash order.
    pub fn get(&self, path_hash: u64) -> (r: Option<&WadChunk>)
        requires
            self.wf(),
        ensures
            match r {
                Some(c) => exists|i: int| is_last_with_hash(self@, i, path_hash) && self@[i] == *c,
                None => forall|i: int|
                    0 <= i < self@.len() ==> #[trigger] self@[i].path_hash != path_hash,
            },
    {
        match self.last_index_of(path_hash) {
            Some(i) => {
                let c = &self.chunks[i];
                assert(is_last_with_hash(self@, i as int, path_hash) && self@[i as int] == *c);
                Some(c)
            },
            None => None,
        }
    }

    /// Index of the last chunk with `path_hash`, by binary search.
    fn last_index_of(&self, path_hash: u64) -> (r: Option<usize>)
        requires
            self.wf(),
        ensures
            match r {
                Some(i) => is_last_with_hash(self@, i as int, path_hash),
                None => forall|i: int|
                    0 <= i < self@.len() ==> #[trigger] self@[i].path_hash != path_hash,
            },
    {
        // First index whose hash is greater than `path_hash`.
        let mut lo: usize = 0;
        let mut hi: usize = self.chunks.len();
        while lo < hi
            invariant
                self.wf(),
                lo <= hi <= self@.len(),
                forall|j: int| 0 <= j < lo ==> #[trigger] self@[j].path_hash <= path_hash,
                forall|j: int| hi <= j < self@.len() ==> #[trigger] self@[j].path_hash > path_hash,
            decreases hi - lo,
        {
            let mid = lo + (hi - lo) / 2;
            if self.chunks[mid].path_hash <= path_hash {
                lo = mid + 1;
            } else {
                hi = mid;
            }
        }
        if lo > 0 && self.chunks[lo - 1].path_hash == path_hash {
            Some(lo - 1)
        } else {
            proof {
                assert forall|i: int| 0 <= i < self@.len() implies #[trigger] self@[i].path_hash
                    != path_hash by {
                    if i < lo {
                        assert(self@[i].path_hash <= self@[lo - 1].path_hash);
                    }
                }
            }
            None
        }
    }

    /// Iterate over all chunks in path hash order.
    pub fn iter(&self) -> (r: std::slice::Iter<'_, WadChunk>)
        ensures
            vstd::std_specs::slice::into_iter_elts(r) == self@,
    {
        broadcast use vstd::std_specs::slice::axiom_spec_slice_iter;

        self.chunks.as_slice().iter()
    }

    /// Returns a slice of all chunks in path hash order.
    pub fn as_slice(&self) -> (r: &[WadChunk])
        ensures
            r@ == self@,
    {
        self.chunks.as_slice()
    }

    /// Returns `true` if a chunk with the given path hash exists.
    pub fn contains(&self, path_hash: u64) -> (r: bool)
        requires
            self.wf(),
        ensures
            r == exists|i: int| 0 <= i < self@.len() && #[trigger] self@[i].path_hash == path_hash,
    {
        match self.last_index_of(path_hash) {
            Some(i) => true,
            None => false,
        }
    }

    /// The chunks, in path hash order.
    pub fn into_vec(self) -> (r: Vec<WadChunk>)
        ensures
            r@ == self@,
    {
        self.chunks
    }
}

/// `v`, ordered by path hash (a merge sort).
pub fn sort_by_hash(v: Vec<WadChunk>) -> (r: Vec<WadChunk>)
    ensures
        sorted_by_hash(r@),
        r@.to_multiset() == v@.to_multiset(),
    decreases v@.len(),
{
    let n = v.len();
    if n <= 1 {
        return v;
    }
    let ghost whole = v@;
    let mut left = v;
    let right = left.split_off(n / 2);
    proof {
        assert(whole =~= left@ + right@);
        vstd::seq_lib::lemma_multiset_commutative(left@, right@);
    }
    let left = sort_by_hash(left);
    let right = sort_by_hash(right);
    merge_by_hash(left, right)
}

/// The two ordered runs merged into one.
fn merge_by_hash(left: Vec<WadChunk>, right: Vec<WadChunk>) -> (r: Vec<WadChunk>)
    requires
        sorted_by_hash(left@),
        sorted_by_hash(right@),
    ensures
        sorted_by_hash(r@),
        r@.to_multiset() == left@.to_multiset().add(right@.to_multiset()),
{
    let mut out: Vec<WadChunk> = Vec::new();
    let mut i: usize = 0;
    let mut j: usize = 0;
    while i < left.len() || j < right.len()
        invariant
            sorted_by_hash(left@),
            sorted_by_hash(right@),
            i <= left@.len(),
            j <= right@.len(),
            sorted_by_hash(out@),
            out@.to_multiset() == left@.subrange(0, i as int).to_multiset().add(
                right@.subrange(0, j as int).to_multiset(),
            ),
            out@.len() > 0 && i < left@.len() ==> out@.last().path_hash <= left@[i as int].path_hash,
            out@.len() > 0 && j < right@.len() ==> out@.last().path_hash
                <= right@[j as int].path_hash,
        decreases left@.len() + right@.len() - i - j,
    {
        let take_left = j >= right.len() || (i < left.len() && left[i].path_hash
            <= right[j].path_hash);
        if take_left {
            let c = left[i];
            proof {
                assert(left@.subrange(0, i + 1) =~= left@.subrange(0, i as int).push(c));
            }
            out.push(c);
            i = i + 1;
        } else {
            let c = right[j];
            proof {
                assert(right@.subrange(0, j + 1) =~= right@.subrange(0, j as int).push(c));
            }
            out.push(c);
            j = j + 1;
        }
    }
    proof {
        assert(left@.subrange(0, i as int) =~= left@);
        assert(right@.subrange(0, j as int) =~= right@);
    }
    out
}

} // verus!
