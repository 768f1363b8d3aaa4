//! The entries of a TOC map in the order a TOC stores them: by ascending
//! path hash.

use std::collections::BTreeMap;

use vstd::prelude::*;
use vstd::std_specs::cmp::OrdSpec;
use vstd::std_specs::iter::IteratorSpec;

use super::chunk::WadChunk;

verus! {

/// Whether `s` lists the entries of `m` by ascending key, each once.
pub open spec fn in_key_order(s: Seq<(u64, WadChunk)>, m: Map<u64, WadChunk>) -> bool {
    &&& forall|i: int, j: int| 0 <= i < j < s.len() ==> #[trigger] s[i].0 < #[trigger] s[j].0
    &&& forall|i: int| 0 <= i < s.len() ==> m.contains_key(#[trigger] s[i].0) && m[s[i].0] == s[i].1
    &&& forall|k: u64| #[trigger] m.contains_key(k) ==> exists|i: int| 0 <= i < s.len() && s[i].0 == k
}

/// The entries of `m`, by ascending key.
pub fn entries_in_order(m: &BTreeMap<u64, WadChunk>) -> (r: Vec<(u64, WadChunk)>)
    ensures
        in_key_order(r@, m@),
{
    broadcast use vstd::std_specs::btree::group_btree_axioms;
    broadcast use vstd::laws_cmp::group_laws_cmp;

    let ghost s = vstd::std_specs::btree::spec_btree_map_iter(m).remaining();
    let ghost keys = s.map_values(|kv: (&u64, &WadChunk)| *kv.0);
    let mut out: Vec<(u64, WadChunk)> = Vec::new();
    for kv in it: m.iter()
        invariant
            it.seq() == s,
            out@.len() == it.index(),
            forall|i: int| 0 <= i < it.index() ==> #[trigger] out@[i] == (*s[i].0, *s[i].1),
    {
        out.push((*kv.0, *kv.1));
    }
    proof {
        assert(out@.len() == s.len());
        assert(vstd::std_specs::btree::increasing_seq(keys));
        assert forall|i: int, j: int| 0 <= i < j < out@.len() implies #[trigger] out@[i].0 < #[trigger] out@[j].0 by {
            assert(keys[i] == out@[i].0);
            assert(keys[j] == out@[j].0);
            assert(keys[i].cmp_spec(&keys[j]) is Less);
        }
        assert forall|i: int| 0 <= i < out@.len() implies m@.contains_key(#[trigger] out@[i].0) && m@[out@[i].0] == out@[i].1 by {
            assert(out@[i] == (*s[i].0, *s[i].1));
        }
        assert forall|k: u64| #[trigger] m@.contains_key(k) implies exists|i: int| 0 <= i < out@.len() && out@[i].0 == k by {
            assert(s.contains((&k, &m@[k])));
            let i = choose|i: int| 0 <= i < s.len() && s[i] == (&k, &m@[k]);
            assert(out@[i] == (*s[i].0, *s[i].1));
        }
    }
    out
}

/// A map's entries have one listing by ascending key: two listings of the
/// same map are the same.
pub proof fn lemma_key_order_unique(a: Seq<(u64, WadChunk)>, b: Seq<(u64, WadChunk)>, m: Map<u64, WadChunk>)
    requires
        in_key_order(a, m),
        in_key_order(b, m),
    ensures
        a == b,
    decreases a.len(),
{
    if a.len() == 0 {
        if b.len() > 0 {
            assert(m.contains_key(b[0].0));
        }
        assert(a =~= b);
    } else {
        if b.len() == 0 {
            assert(m.contains_key(a[0].0));
        }
        let ka = a[0].0;
        let kb = b[0].0;
        assert(m.contains_key(ka));
        assert(m.contains_key(kb));
        let j = choose|j: int| 0 <= j < b.len() && b[j].0 == ka;
        let i = choose|i: int| 0 <= i < a.len() && a[i].0 == kb;
        if j > 0 {
            assert(b[0].0 < b[j].0);
        }
        if i > 0 {
            assert(a[0].0 < a[i].0);
        }
        assert(ka == kb);
        let rest = m.remove(ka);
        let ta = a.drop_first();
        let tb = b.drop_first();
        lemma_key_order_tail(a, m);
        lemma_key_order_tail(b, m);
        lemma_key_order_unique(ta, tb, rest);
        assert(a =~= seq![a[0]] + ta);
        assert(b =~= seq![b[0]] + tb);
    }
}

/// Past its first entry, a listing lists the map without that entry's key.
proof fn lemma_key_order_tail(a: Seq<(u64, WadChunk)>, m: Map<u64, WadChunk>)
    requires
        in_key_order(a, m),
        a.len() > 0,
    ensures
        in_key_order(a.drop_first(), m.remove(a[0].0)),
{
    let t = a.drop_first();
    let k = a[0].0;
    let r = m.remove(k);
    assert forall|i: int, j: int| 0 <= i < j < t.len() implies #[trigger] t[i].0 < #[trigger] t[j].0 by {
        assert(t[i] == a[i + 1]);
        assert(t[j] == a[j + 1]);
    }
    assert forall|i: int| 0 <= i < t.len() implies r.contains_key(#[trigger] t[i].0) && r[t[i].0] == t[i].1 by {
        assert(t[i] == a[i + 1]);
        assert(a[0].0 < a[i + 1].0);
    }
    assert forall|key: u64| #[trigger] r.contains_key(key) implies exists|i: int| 0 <= i < t.len() && t[i].0 == key by {
        assert(m.contains_key(key));
        let i = choose|i: int| 0 <= i < a.len() && a[i].0 == key;
        assert(i != 0);
        assert(t[i - 1] == a[i]);
    }
}

} // verus!
