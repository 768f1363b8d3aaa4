//! Raw records resolved into named sections with the property dictionary.

use std::collections::HashMap;
use std::collections::HashSet;

use vstd::prelude::*;

use super::binary::{records_view, RawRecord, RawRecordView, RawValue};
use super::dictionary::{
    dictionary_entries, first_occurrences, group_names_of, holds_name, insert_firsts, map_view,
    resolve_entries,
};
use super::hash::strings_view;

verus! {

/// A record resolved to a field name.
#[derive(Debug, Clone, PartialEq, Eq)]
pub struct RawProperty {
    /// The field name the record's hash resolved to.
    pub name: String,
    /// The record.
    pub record: RawRecord,
}

/// A section of resolved records, such as `System` or an emitter's name.
#[derive(Debug, Clone, PartialEq, Eq)]
pub struct RawSection {
    /// The section name.
    pub name: String,
    /// Its properties, in the order the records came.
    pub properties: Vec<RawProperty>,
}

/// A section as its name and its properties' field names and records.
pub open spec fn section_view(s: RawSection) -> (Seq<char>, Seq<(Seq<char>, RawRecordView)>) {
    (s.name@, s.properties@.map_values(|p: RawProperty| (p.name@, p.record@)))
}

/// The views of `v`'s sections.
pub open spec fn sections_view(v: Seq<RawSection>) -> Seq<(Seq<char>, Seq<(Seq<char>, RawRecordView)>)> {
    v.map_values(|s: RawSection| section_view(s))
}

/// Whether a record before `i` of `raw` has the hash of record `i`.
pub open spec fn seen_before(raw: Seq<RawRecordView>, i: int) -> bool {
    exists|j: int| 0 <= j < i && raw[j].hash == raw[i].hash
}

/// The records of `raw[..n]` that the map resolves, each the first of its
/// hash, with the section and field name the map gives.
pub open spec fn resolved(raw: Seq<RawRecordView>, m: Map<u32, (Seq<char>, Seq<char>)>, n: nat) -> Seq<
    (Seq<char>, Seq<char>, RawRecordView),
>
    decreases n,
{
    if n == 0 {
        Seq::empty()
    } else {
        let prev = resolved(raw, m, (n - 1) as nat);
        let r = raw[n - 1];
        if m.contains_key(r.hash) && !seen_before(raw, n - 1) {
            prev.push((m[r.hash].0, m[r.hash].1, r))
        } else {
            prev
        }
    }
}

/// The records of `raw[..n]` the map does not resolve, each the first of
/// its hash.
pub open spec fn unresolved(raw: Seq<RawRecordView>, m: Map<u32, (Seq<char>, Seq<char>)>, n: nat) -> Seq<
    RawRecordView,
>
    decreases n,
{
    if n == 0 {
        Seq::empty()
    } else {
        let prev = unresolved(raw, m, (n - 1) as nat);
        let r = raw[n - 1];
        if !m.contains_key(r.hash) && !seen_before(raw, n - 1) {
            prev.push(r)
        } else {
            prev
        }
    }
}

/// The properties of `props` in section `name`, in order.
pub open spec fn in_section(props: Seq<(Seq<char>, Seq<char>, RawRecordView)>, name: Seq<char>) -> Seq<
    (Seq<char>, RawRecordView),
>
    decreases props.len(),
{
    if props.len() == 0 {
        Seq::empty()
    } else {
        let prev = in_section(props.drop_last(), name);
        let p = props.last();
        if p.0 == name {
            prev.push((p.1, p.2))
        } else {
            prev
        }
    }
}

/// `props` grouped into sections, in the order each section first turns
/// up, each holding its properties in order.
pub open spec fn grouped_sections(props: Seq<(Seq<char>, Seq<char>, RawRecordView)>) -> Seq<
    (Seq<char>, Seq<(Seq<char>, RawRecordView)>),
> {
    let names = first_occurrences(props.map_values(|p: (Seq<char>, Seq<char>, RawRecordView)| p.0));
    names.map_values(|n: Seq<char>| (n, in_section(props, n)))
}

/// The resolution map of `raw`.
pub open spec fn resolution_of(raw: Seq<RawRecordView>) -> Map<u32, (Seq<char>, Seq<char>)> {
    insert_firsts(Map::empty(), dictionary_entries(group_names_of(raw)))
}

/// A copy of `r`.
fn copy_record(r: &RawRecord) -> (c: RawRecord)
    ensures
        c@ == r@,
{
    let value = match &r.value {
        RawValue::Components(cs) => {
            let mut out: Vec<u32> = Vec::new();
            let mut i: usize = 0;
            while i < cs.len()
                invariant
                    i <= cs@.len(),
                    out@ == cs@.subrange(0, i as int),
                decreases cs@.len() - i,
            {
                out.push(cs[i]);
                proof {
                    assert(out@ =~= cs@.subrange(0, i + 1));
                }
                i = i + 1;
            }
            proof {
                assert(cs@.subrange(0, cs@.len() as int) =~= cs@);
            }
            RawValue::Components(out)
        },
        RawValue::Flag(b) => RawValue::Flag(*b),
        RawValue::Text(t) => RawValue::Text(crate::wad::decoder::copy_range(t.as_slice(), 0, t.len())),
    };
    proof {
        match &r.value {
            RawValue::Text(t) => {
                assert(t@.subrange(0, t@.len() as int) =~= t@);
            },
            _ => {},
        }
    }
    RawRecord { hash: r.hash, storage: r.storage, value }
}

/// Resolve raw records into named sections using the hash dictionary.
///
/// Each hash is resolved once, at its first record: a record whose hash the
/// dictionary knows becomes a property of its section, sections coming in
/// the order they first turn up; a record whose hash it does not know is
/// returned among the unknown records.
pub fn resolve_sections(raw: &[RawRecord]) -> (r: (Vec<RawSection>, Vec<RawRecord>))
    ensures
        sections_view(r.0@) == grouped_sections(
            resolved(records_view(raw@), resolution_of(records_view(raw@)), raw@.len()),
        ),
        records_view(r.1@) == unresolved(
            records_view(raw@),
            resolution_of(records_view(raw@)),
            raw@.len(),
        ),
{
    broadcast use vstd::std_specs::hash::group_hash_axioms;

    let ghost rv = records_view(raw@);
    let map = resolve_entries(raw);
    let ghost m = map_view(map@);
    let mut found: HashSet<u32> = HashSet::new();
    let mut props: Vec<(String, String, RawRecord)> = Vec::new();
    let mut unknown: Vec<RawRecord> = Vec::new();
    let mut i: usize = 0;
    while i < raw.len()
        invariant
            rv == records_view(raw@),
            m == map_view(map@),
            i <= raw@.len(),
            forall|h: u32| found@.contains(h) <==> exists|j: int| 0 <= j < i && #[trigger] rv[j].hash == h,
            props_view(props@) == resolved(rv, m, i as nat),
            records_view(unknown@) == unresolved(rv, m, i as nat),
        decreases raw@.len() - i,
    {
        let entry = &raw[i];
        let hash = entry.hash;
        proof {
            assert(rv[i as int] == entry@);
            assert(found@.contains(hash) == seen_before(rv, i as int));
        }
        if !found.contains(&hash) {
            match map.get(&hash) {
                Some(pair) => {
                    let ghost prev = props@;
                    props.push((pair.0.clone(), pair.1.clone(), copy_record(entry)));
                    proof {
                        assert(m.contains_key(hash));
                        assert(props_view(props@) =~= resolved(rv, m, (i + 1) as nat));
                        assert(records_view(unknown@) == unresolved(rv, m, (i + 1) as nat));
                    }
                },
                None => {
                    let ghost prev = unknown@;
                    unknown.push(copy_record(entry));
                    proof {
                        assert(!m.contains_key(hash));
                        assert(records_view(unknown@) =~= unresolved(rv, m, (i + 1) as nat));
                        assert(props_view(props@) == resolved(rv, m, (i + 1) as nat));
                    }
                },
            }
            found.insert(hash);
        } else {
            proof {
                assert(props_view(props@) == resolved(rv, m, (i + 1) as nat));
                assert(records_view(unknown@) == unresolved(rv, m, (i + 1) as nat));
            }
        }
        proof {
            assert forall|h: u32| found@.contains(h) <==> exists|j: int|
                0 <= j < i + 1 && #[trigger] rv[j].hash == h by {
                if h == hash {
                    assert(rv[i as int].hash == h);
                }
            }
        }
        i = i + 1;
    }
    let sections = group_into_sections(props);
    (sections, unknown)
}

/// The views of resolved properties.
pub open spec fn props_view(v: Seq<(String, String, RawRecord)>) -> Seq<(Seq<char>, Seq<char>, RawRecordView)> {
    v.map_values(|p: (String, String, RawRecord)| (p.0@, p.1@, p.2@))
}

/// Groups resolved properties into sections, in the order each section
/// first turns up.
fn group_into_sections(props: Vec<(String, String, RawRecord)>) -> (r: Vec<RawSection>)
    ensures
        sections_view(r@) == grouped_sections(props_view(props@)),
{
    let ghost pv = props_view(props@);
    let ghost section_names = pv.map_values(|p: (Seq<char>, Seq<char>, RawRecordView)| p.0);
    let mut names: Vec<String> = Vec::new();
    let mut i: usize = 0;
    while i < props.len()
        invariant
            pv == props_view(props@),
            section_names == pv.map_values(|p: (Seq<char>, Seq<char>, RawRecordView)| p.0),
            i <= props@.len(),
            strings_view(names@) == first_occurrences(section_names.subrange(0, i as int)),
        decreases props@.len() - i,
    {
        let name = &props[i].0;
        proof {
            assert(section_names.subrange(0, i + 1).drop_last() =~= section_names.subrange(0, i as int));
            assert(section_names.subrange(0, i + 1).last() == name@);
        }
        if !holds_name(&names, name) {
            let ghost prev = names@;
            names.push(name.clone());
            proof {
                assert(strings_view(names@) =~= strings_view(prev).push(name@));
            }
        }
        i = i + 1;
    }
    proof {
        assert(section_names.subrange(0, props@.len() as int) =~= section_names);
    }
    let ghost nv = strings_view(names@);
    let mut sections: Vec<RawSection> = Vec::new();
    let mut k: usize = 0;
    while k < names.len()
        invariant
            pv == props_view(props@),
            nv == strings_view(names@),
            k <= names@.len(),
            sections_view(sections@) == nv.subrange(0, k as int).map_values(
                |n: Seq<char>| (n, in_section(pv, n)),
            ),
        decreases names@.len() - k,
    {
        let name = &names[k];
        let mut properties: Vec<RawProperty> = Vec::new();
        let mut j: usize = 0;
        while j < props.len()
            invariant
                pv == props_view(props@),
                j <= props@.len(),
                properties@.map_values(|p: RawProperty| (p.name@, p.record@)) == in_section(
                    pv.subrange(0, j as int),
                    name@,
                ),
            decreases props@.len() - j,
        {
            proof {
                assert(pv.subrange(0, j + 1).drop_last() =~= pv.subrange(0, j as int));
                assert(pv.subrange(0, j + 1).last() == pv[j as int]);
            }
            if props[j].0 == *name {
                let ghost prev = properties@;
                properties.push(RawProperty { name: props[j].1.clone(), record: copy_record(&props[j].2) });
                proof {
                    assert(properties@.map_values(|p: RawProperty| (p.name@, p.record@)) =~= prev.map_values(
                        |p: RawProperty| (p.name@, p.record@),
                    ).push((pv[j as int].1, pv[j as int].2)));
                }
            }
            j = j + 1;
        }
        proof {
            assert(pv.subrange(0, props@.len() as int) =~= pv);
        }
        let ghost prev = sections@;
        sections.push(RawSection { name: name.clone(), properties });
        proof {
            assert(sections_view(sections@) =~= sections_view(prev).push(
                (name@, in_section(pv, name@)),
            ));
            assert(nv.subrange(0, k + 1).map_values(|n: Seq<char>| (n, in_section(pv, n))) =~= nv.subrange(
                0,
                k as int,
            ).map_values(|n: Seq<char>| (n, in_section(pv, n))).push((name@, in_section(pv, name@))));
        }
        k = k + 1;
    }
    proof {
        assert(nv.subrange(0, names@.len() as int) =~= nv);
    }
    sections
}

} // verus!
