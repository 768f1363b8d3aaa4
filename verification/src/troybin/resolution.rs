//! What the hash map of the dictionary holds, whatever the group names.

use vstd::prelude::*;

use super::dictionary::{
    dictionary_entries, expand_item, field_and_fluid_entries, field_property_names,
    fluid_property_names, generated, group_base, group_part_sections, group_property_names,
    has_marker, insert_firsts, lemma_insert_firsts_concat, lemma_single_section, marker_at, part_field_names, system_property_names, system_section,
};
use super::hash::{hash_entries_of, section_entries_of, section_field_hash_of};

verus! {

/// Each triple carries the hash of its own section and name.
pub open spec fn hashes_its_pair(entries: Seq<(Seq<char>, Seq<char>, u32)>) -> bool {
    forall|i: int|
        #![trigger entries[i]]
        0 <= i < entries.len() ==> entries[i].2 == section_field_hash_of(entries[i].0, entries[i].1)
}

/// Each hash that `m` holds is the hash of the section and name it maps to.
pub open spec fn keyed_by_hash(m: Map<u32, (Seq<char>, Seq<char>)>) -> bool {
    forall|h: u32| #[trigger] m.contains_key(h) ==> h == section_field_hash_of(m[h].0, m[h].1)
}

/// A triple of `a`, or of `b`, is a triple of `a + b`; and both carrying
/// their pairs' hashes, so does `a + b`.
proof fn lemma_concat(a: Seq<(Seq<char>, Seq<char>, u32)>, b: Seq<(Seq<char>, Seq<char>, u32)>)
    ensures
        forall|x: (Seq<char>, Seq<char>, u32)| a.contains(x) ==> #[trigger] (a + b).contains(x),
        forall|x: (Seq<char>, Seq<char>, u32)| b.contains(x) ==> #[trigger] (a + b).contains(x),
        hashes_its_pair(a) && hashes_its_pair(b) ==> hashes_its_pair(a + b),
{
    assert forall|x: (Seq<char>, Seq<char>, u32)| a.contains(x) implies #[trigger] (a + b).contains(x) by {
        let k = choose|k: int| 0 <= k < a.len() && a[k] == x;
        assert((a + b)[k] == x);
    }
    assert forall|x: (Seq<char>, Seq<char>, u32)| b.contains(x) implies #[trigger] (a + b).contains(x) by {
        let k = choose|k: int| 0 <= k < b.len() && b[k] == x;
        assert((a + b)[a.len() + k] == x);
    }
    if hashes_its_pair(a) && hashes_its_pair(b) {
        assert forall|i: int| 0 <= i < (a + b).len() implies (#[trigger] (a + b)[i]).2
            == section_field_hash_of((a + b)[i].0, (a + b)[i].1) by {
            if i < a.len() {
                assert((a + b)[i] == a[i]);
            } else {
                assert((a + b)[i] == b[i - a.len()]);
            }
        }
    }
}

/// The triples of one section carry their hashes, and each name of `names`
/// has its triple among them.
proof fn lemma_section_entries(section: Seq<char>, names: Seq<Seq<char>>)
    ensures
        hashes_its_pair(section_entries_of(section, names)),
        forall|i: int|
            0 <= i < section_entries_of(section, names).len() ==> (#[trigger] section_entries_of(
                section,
                names,
            )[i]).0 == section,
        forall|n: Seq<char>|
            names.contains(n) ==> #[trigger] section_entries_of(section, names).contains(
                (section, n, section_field_hash_of(section, n)),
            ),
    decreases names.len(),
{
    if names.len() > 0 {
        let rest = names.drop_last();
        let name = names.last();
        let commented = seq!['\''] + name;
        let tail = seq![
            (section, name, section_field_hash_of(section, name)),
            (section, commented, section_field_hash_of(section, commented)),
        ];
        lemma_section_entries(section, rest);
        lemma_concat(section_entries_of(section, rest), tail);
        assert(tail[0] == (section, name, section_field_hash_of(section, name)));
        assert(hashes_its_pair(tail));
        let before = section_entries_of(section, rest);
        assert forall|i: int| 0 <= i < (before + tail).len() implies (#[trigger] (before + tail)[i]).0
            == section by {
            if i < before.len() {
                assert((before + tail)[i] == before[i]);
            } else {
                assert((before + tail)[i] == tail[i - before.len()]);
            }
        }
        assert forall|n: Seq<char>| names.contains(n) implies #[trigger] section_entries_of(
            section,
            names,
        ).contains((section, n, section_field_hash_of(section, n))) by {
            let k = choose|k: int| 0 <= k < names.len() && names[k] == n;
            if k < names.len() - 1 {
                assert(rest[k] == n);
                assert(rest.contains(n));
            } else {
                assert(tail.contains((section, n, section_field_hash_of(section, n))));
            }
        }
    }
}

/// The triples of every section carry their hashes, and each section of
/// `sections` with each name of `names` has its triple among them.
proof fn lemma_hash_entries(sections: Seq<Seq<char>>, names: Seq<Seq<char>>)
    ensures
        hashes_its_pair(hash_entries_of(sections, names)),
        forall|g: Seq<char>, n: Seq<char>|
            sections.contains(g) && names.contains(n) ==> #[trigger] hash_entries_of(
                sections,
                names,
            ).contains((g, n, section_field_hash_of(g, n))),
    decreases sections.len(),
{
    if sections.len() > 0 {
        let rest = sections.drop_last();
        let last = sections.last();
        lemma_hash_entries(rest, names);
        lemma_section_entries(last, names);
        lemma_concat(hash_entries_of(rest, names), section_entries_of(last, names));
        assert forall|g: Seq<char>, n: Seq<char>|
            sections.contains(g) && names.contains(n) implies #[trigger] hash_entries_of(
            sections,
            names,
        ).contains((g, n, section_field_hash_of(g, n))) by {
            let k = choose|k: int| 0 <= k < sections.len() && sections[k] == g;
            if k < sections.len() - 1 {
                assert(rest[k] == g);
                assert(rest.contains(g));
                assert(hash_entries_of(rest, names).contains((g, n, section_field_hash_of(g, n))));
            } else {
                assert(section_entries_of(last, names).contains((g, n, section_field_hash_of(g, n))));
            }
        }
    }
}

/// The field and fluid triples of the groups carry their hashes, and each
/// group with each field name, and with each fluid name, has its triple
/// among them.
proof fn lemma_field_and_fluid_entries(
    groups: Seq<Seq<char>>,
    fields: Seq<Seq<char>>,
    fluids: Seq<Seq<char>>,
)
    ensures
        hashes_its_pair(field_and_fluid_entries(groups, fields, fluids)),
        forall|g: Seq<char>, n: Seq<char>|
            groups.contains(g) && (fields.contains(n) || fluids.contains(n))
                ==> #[trigger] field_and_fluid_entries(groups, fields, fluids).contains(
                (g, n, section_field_hash_of(g, n)),
            ),
    decreases groups.len(),
{
    if groups.len() > 0 {
        let rest = groups.drop_last();
        let last = groups.last();
        let before = field_and_fluid_entries(rest, fields, fluids);
        let a = section_entries_of(last, fields);
        let b = section_entries_of(last, fluids);
        lemma_field_and_fluid_entries(rest, fields, fluids);
        lemma_section_entries(last, fields);
        lemma_section_entries(last, fluids);
        lemma_concat(before, a);
        lemma_concat(before + a, b);
        assert forall|g: Seq<char>, n: Seq<char>|
            groups.contains(g) && (fields.contains(n) || fluids.contains(n))
                implies #[trigger] field_and_fluid_entries(groups, fields, fluids).contains(
            (g, n, section_field_hash_of(g, n)),
        ) by {
            let x = (g, n, section_field_hash_of(g, n));
            let k = choose|k: int| 0 <= k < groups.len() && groups[k] == g;
            if k < groups.len() - 1 {
                assert(rest[k] == g);
                assert(rest.contains(g));
                assert(before.contains(x));
                assert((before + a).contains(x));
            } else if fields.contains(n) {
                assert(a.contains(x));
                assert((before + a).contains(x));
            } else {
                assert(b.contains(x));
            }
        }
    }
}

/// Inserting the first of each hash maps each hash of `entries`, and, the
/// triples carrying their pairs' hashes, keeps each hash the hash of the
/// pair it maps to.
proof fn lemma_insert_firsts(m: Map<u32, (Seq<char>, Seq<char>)>, entries: Seq<(Seq<char>, Seq<char>, u32)>)
    ensures
        forall|x: (Seq<char>, Seq<char>, u32)|
            entries.contains(x) ==> insert_firsts(m, entries).contains_key(#[trigger] x.2),
        keyed_by_hash(m) && hashes_its_pair(entries) ==> keyed_by_hash(insert_firsts(m, entries)),
    decreases entries.len(),
{
    if entries.len() > 0 {
        let rest = entries.drop_last();
        let e = entries.last();
        let before = insert_firsts(m, rest);
        lemma_insert_firsts(m, rest);
        assert forall|x: (Seq<char>, Seq<char>, u32)| entries.contains(x) implies insert_firsts(
            m,
            entries,
        ).contains_key(#[trigger] x.2) by {
            let k = choose|k: int| 0 <= k < entries.len() && entries[k] == x;
            if k < entries.len() - 1 {
                assert(rest[k] == x);
                assert(rest.contains(x));
                assert(before.contains_key(x.2));
            }
        }
        if keyed_by_hash(m) && hashes_its_pair(entries) {
            assert forall|i: int| 0 <= i < rest.len() implies (#[trigger] rest[i]).2
                == section_field_hash_of(rest[i].0, rest[i].1) by {
                assert(rest[i] == entries[i]);
            }
            assert(entries[entries.len() - 1] == e);
        }
    }
}

/// Inserting triples all of section `s` into a map whose pairs are all of
/// section `s` gives a map whose pairs are all of section `s`.
proof fn lemma_insert_firsts_section(
    m: Map<u32, (Seq<char>, Seq<char>)>,
    entries: Seq<(Seq<char>, Seq<char>, u32)>,
    s: Seq<char>,
)
    requires
        forall|h: u32| #[trigger] m.contains_key(h) ==> m[h].0 == s,
        forall|i: int| 0 <= i < entries.len() ==> (#[trigger] entries[i]).0 == s,
    ensures
        forall|h: u32| #[trigger] insert_firsts(m, entries).contains_key(h) ==> insert_firsts(
            m,
            entries,
        )[h].0 == s,
    decreases entries.len(),
{
    if entries.len() > 0 {
        let rest = entries.drop_last();
        let e = entries.last();
        assert forall|i: int| 0 <= i < rest.len() implies (#[trigger] rest[i]).0 == s by {
            assert(rest[i] == entries[i]);
        }
        lemma_insert_firsts_section(m, rest, s);
        assert(entries[entries.len() - 1] == e);
        let before = insert_firsts(m, rest);
        assert forall|h: u32| #[trigger] insert_firsts(m, entries).contains_key(h) implies insert_firsts(
            m,
            entries,
        )[h].0 == s by {
            if !before.contains_key(e.2) && h == e.2 {
                assert(insert_firsts(m, entries) == before.insert(e.2, (e.0, e.1)));
            }
        }
    }
}

/// The triples of the System section, first in the dictionary.
spec fn system_entries() -> Seq<(Seq<char>, Seq<char>, u32)> {
    hash_entries_of(seq![system_section()], system_property_names())
}

/// The System triples are those of its one section.
proof fn lemma_system_entries()
    ensures
        system_entries() == section_entries_of(system_section(), system_property_names()),
{
    lemma_single_section(system_section(), system_property_names());
}

/// Each System triple is of the System section, and each System property
/// has its triple among them.
proof fn lemma_system_triples(n: Seq<char>)
    requires
        system_property_names().contains(n),
    ensures
        system_entries().contains((system_section(), n, section_field_hash_of(system_section(), n))),
        forall|i: int| 0 <= i < system_entries().len() ==> (#[trigger] system_entries()[i]).0 == system_section(),
{
    lemma_system_entries();
    lemma_section_entries(system_section(), system_property_names());
}

/// Inserting the System triples maps the hash of each System property to a
/// System property.
proof fn lemma_system_first(n: Seq<char>)
    requires
        system_property_names().contains(n),
    ensures
        insert_firsts(Map::empty(), system_entries()).contains_key(section_field_hash_of(system_section(), n)),
        insert_firsts(Map::empty(), system_entries())[section_field_hash_of(system_section(), n)].0
            == system_section(),
{
    let sys = system_entries();
    let empty = Map::<u32, (Seq<char>, Seq<char>)>::empty();
    let h = section_field_hash_of(system_section(), n);
    lemma_system_triples(n);
    lemma_insert_firsts_has(empty, sys, (system_section(), n, h));
    lemma_insert_firsts_section(empty, sys, system_section());
}

/// The hash of each triple inserted is mapped afterwards.
proof fn lemma_insert_firsts_has(
    m: Map<u32, (Seq<char>, Seq<char>)>,
    entries: Seq<(Seq<char>, Seq<char>, u32)>,
    x: (Seq<char>, Seq<char>, u32),
)
    requires
        entries.contains(x),
    ensures
        insert_firsts(m, entries).contains_key(x.2),
    decreases entries.len(),
{
    let rest = entries.drop_last();
    let k = choose|k: int| 0 <= k < entries.len() && entries[k] == x;
    if k < entries.len() - 1 {
        assert(rest[k] == x);
        lemma_insert_firsts_has(m, rest, x);
    }
}

/// A hash the System triples map keeps its pair through the rest of the
/// dictionary.
proof fn lemma_system_kept(groups: Seq<Seq<char>>, h: u32)
    requires
        insert_firsts(Map::empty(), system_entries()).contains_key(h),
    ensures
        insert_firsts(Map::empty(), dictionary_entries(groups))[h] == insert_firsts(
            Map::empty(),
            system_entries(),
        )[h],
{
    let sys = system_entries();
    let e2 = hash_entries_of(groups, group_property_names());
    let e3 = hash_entries_of(group_part_sections(), group_property_names());
    let e4 = hash_entries_of(groups, generated(part_field_names(), 1, 10));
    let e5 = hash_entries_of(group_part_sections(), field_property_names());
    let e6 = hash_entries_of(group_part_sections(), fluid_property_names());
    let e7 = field_and_fluid_entries(groups, field_property_names(), fluid_property_names());
    let empty = Map::<u32, (Seq<char>, Seq<char>)>::empty();
    lemma_insert_firsts_concat(empty, sys, e2);
    lemma_keeps_key(insert_firsts(empty, sys), e2, h);
    lemma_insert_firsts_concat(empty, sys + e2, e3);
    lemma_keeps_key(insert_firsts(empty, sys + e2), e3, h);
    lemma_insert_firsts_concat(empty, sys + e2 + e3, e4);
    lemma_keeps_key(insert_firsts(empty, sys + e2 + e3), e4, h);
    lemma_insert_firsts_concat(empty, sys + e2 + e3 + e4, e5);
    lemma_keeps_key(insert_firsts(empty, sys + e2 + e3 + e4), e5, h);
    lemma_insert_firsts_concat(empty, sys + e2 + e3 + e4 + e5, e6);
    lemma_keeps_key(insert_firsts(empty, sys + e2 + e3 + e4 + e5), e6, h);
    lemma_insert_firsts_concat(empty, sys + e2 + e3 + e4 + e5 + e6, e7);
    lemma_keeps_key(insert_firsts(empty, sys + e2 + e3 + e4 + e5 + e6), e7, h);
    assert(dictionary_entries(groups) == sys + e2 + e3 + e4 + e5 + e6 + e7);
}

/// The hash of each System property resolves, in the map
/// [`build_hash_map`](super::dictionary::build_hash_map) builds from
/// `groups`, to a System property: no group takes a hash from the System
/// section.
pub proof fn lemma_system_names_stay_in_system(groups: Seq<Seq<char>>)
    ensures
        forall|n: Seq<char>|
            system_property_names().contains(n) ==> #[trigger] insert_firsts(
                Map::empty(),
                dictionary_entries(groups),
            )[section_field_hash_of(system_section(), n)].0 == system_section(),
{
    assert forall|n: Seq<char>| system_property_names().contains(n) implies #[trigger] insert_firsts(
        Map::empty(),
        dictionary_entries(groups),
    )[section_field_hash_of(system_section(), n)].0 == system_section() by {
        lemma_system_first(n);
        lemma_system_kept(groups, section_field_hash_of(system_section(), n));
    }
}

/// A hash mapped before inserting is mapped as it was after.
proof fn lemma_keeps_key(
    m: Map<u32, (Seq<char>, Seq<char>)>,
    entries: Seq<(Seq<char>, Seq<char>, u32)>,
    h: u32,
)
    requires
        m.contains_key(h),
    ensures
        insert_firsts(m, entries).contains_key(h),
        insert_firsts(m, entries)[h] == m[h],
    decreases entries.len(),
{
    if entries.len() > 0 {
        lemma_keeps_key(m, entries.drop_last(), h);
    }
}

/// Each item of `base` without a marker is among its expansion.
proof fn lemma_generated_contains(base: Seq<Seq<char>>, start: nat, end: nat, i: int)
    requires
        0 <= i < base.len(),
        !has_marker(base[i]),
    ensures
        generated(base, start, end).contains(base[i]),
    decreases base.len(),
{
    let rest = base.drop_last();
    let before = generated(rest, start, end);
    let tail = expand_item(base.last(), start, end);
    if i == base.len() - 1 {
        assert(tail == seq![base[i]]);
        assert((before + tail)[before.len() as int] == base[i]);
    } else {
        assert(rest[i] == base[i]);
        lemma_generated_contains(rest, start, end, i);
        let k = choose|k: int| 0 <= k < before.len() && before[k] == base[i];
        assert((before + tail)[k] == base[i]);
    }
}

/// The map [`build_hash_map`](super::dictionary::build_hash_map) builds
/// from `groups`: each hash it holds is the hash of the section and field
/// it resolves to; and it holds the hash of each System property, of each
/// group property under each group of `groups` and under each of
/// `GroupPart0` to `GroupPart49`, of each field and fluid property under
/// each of these, and of each field sub-group name under each group of
/// `groups`.
pub proof fn lemma_hash_map_keys(groups: Seq<Seq<char>>)
    ensures
        keyed_by_hash(insert_firsts(Map::empty(), dictionary_entries(groups))),
        forall|n: Seq<char>|
            system_property_names().contains(n) ==> #[trigger] insert_firsts(
                Map::empty(),
                dictionary_entries(groups),
            ).contains_key(section_field_hash_of(system_section(), n)),
        forall|g: Seq<char>, n: Seq<char>|
            (groups.contains(g) || group_part_sections().contains(g)) && (
            group_property_names().contains(n) || field_property_names().contains(n)
                || fluid_property_names().contains(n)) ==> #[trigger] insert_firsts(
                Map::empty(),
                dictionary_entries(groups),
            ).contains_key(section_field_hash_of(g, n)),
        forall|g: Seq<char>, n: Seq<char>|
            groups.contains(g) && generated(part_field_names(), 1, 10).contains(n)
                ==> #[trigger] insert_firsts(Map::empty(), dictionary_entries(groups)).contains_key(
                section_field_hash_of(g, n),
            ),
{
    let sys = hash_entries_of(seq![system_section()], system_property_names());
    let e2 = hash_entries_of(groups, group_property_names());
    let e3 = hash_entries_of(group_part_sections(), group_property_names());
    let e4 = hash_entries_of(groups, generated(part_field_names(), 1, 10));
    let e5 = hash_entries_of(group_part_sections(), field_property_names());
    let e6 = hash_entries_of(group_part_sections(), fluid_property_names());
    let e7 = field_and_fluid_entries(groups, field_property_names(), fluid_property_names());
    let all = dictionary_entries(groups);
    assert(all == sys + e2 + e3 + e4 + e5 + e6 + e7);
    lemma_hash_entries(seq![system_section()], system_property_names());
    lemma_hash_entries(groups, group_property_names());
    lemma_hash_entries(group_part_sections(), group_property_names());
    lemma_hash_entries(groups, generated(part_field_names(), 1, 10));
    lemma_hash_entries(group_part_sections(), field_property_names());
    lemma_hash_entries(group_part_sections(), fluid_property_names());
    lemma_field_and_fluid_entries(groups, field_property_names(), fluid_property_names());
    lemma_concat(sys, e2);
    lemma_concat(sys + e2, e3);
    lemma_concat(sys + e2 + e3, e4);
    lemma_concat(sys + e2 + e3 + e4, e5);
    lemma_concat(sys + e2 + e3 + e4 + e5, e6);
    lemma_concat(sys + e2 + e3 + e4 + e5 + e6, e7);
    let empty = Map::<u32, (Seq<char>, Seq<char>)>::empty();
    lemma_insert_firsts(empty, all);
    let m = insert_firsts(empty, all);
    assert forall|n: Seq<char>| system_property_names().contains(n) implies #[trigger] m.contains_key(
        section_field_hash_of(system_section(), n),
    ) by {
        let x = (system_section(), n, section_field_hash_of(system_section(), n));
        assert(seq![system_section()][0] == system_section());
        assert(seq![system_section()].contains(system_section()));
        assert(sys.contains(x));
        assert(all.contains(x));
    }
    assert forall|g: Seq<char>, n: Seq<char>|
        (groups.contains(g) || group_part_sections().contains(g)) && (group_property_names().contains(n)
            || field_property_names().contains(n) || fluid_property_names().contains(n))
            implies #[trigger] m.contains_key(section_field_hash_of(g, n)) by {
        let x = (g, n, section_field_hash_of(g, n));
        if groups.contains(g) {
            if group_property_names().contains(n) {
                assert(e2.contains(x));
            } else {
                assert(e7.contains(x));
            }
        } else if group_property_names().contains(n) {
            assert(e3.contains(x));
        } else if field_property_names().contains(n) {
            assert(e5.contains(x));
        } else {
            assert(e6.contains(x));
        }
        assert(all.contains(x));
    }
    assert forall|g: Seq<char>, n: Seq<char>|
        groups.contains(g) && generated(part_field_names(), 1, 10).contains(n) implies #[trigger] m.contains_key(
        section_field_hash_of(g, n),
    ) by {
        let x = (g, n, section_field_hash_of(g, n));
        assert(e4.contains(x));
        assert(all.contains(x));
    }
}

/// The map [`build_hash_map`](super::dictionary::build_hash_map) builds
/// from `groups` holds the hash of `p-texture` and of `p-type`, the texture
/// and the kind of an emitter's particles, under each group of `groups` and
/// under each of `GroupPart0` to `GroupPart49`.
pub proof fn lemma_texture_keys(groups: Seq<Seq<char>>)
    ensures
        forall|g: Seq<char>|
            groups.contains(g) || group_part_sections().contains(g) ==> #[trigger] insert_firsts(
                Map::empty(),
                dictionary_entries(groups),
            ).contains_key(section_field_hash_of(g, "p-texture"@)),
        forall|g: Seq<char>|
            groups.contains(g) || group_part_sections().contains(g) ==> #[trigger] insert_firsts(
                Map::empty(),
                dictionary_entries(groups),
            ).contains_key(section_field_hash_of(g, "p-type"@)),
{
    lemma_emitter_property_names();
    lemma_hash_map_keys(groups);
}

/// A name without `%` holds no number marker.
proof fn lemma_unmarked(s: Seq<char>)
    requires
        forall|i: int| 0 <= i < s.len() ==> s[i] != '%',
    ensures
        !has_marker(s),
{
    assert forall|i: int| !#[trigger] marker_at(s, i) by {
        if 0 <= i && i + 3 <= s.len() {
            assert(s[i] != '%');
        }
    }
}

/// An item of the group list without a marker is among the group list's
/// expansion.
proof fn lemma_plain_at(k: int, n: Seq<char>)
    requires
        0 <= k < group_base().len(),
        group_base()[k] == n,
        forall|i: int| 0 <= i < n.len() ==> n[i] != '%',
    ensures
        generated(group_base(), 0, 10).contains(n),
{
    lemma_unmarked(n);
    lemma_generated_contains(group_base(), 0, 10, k);
}

/// Each name of the group list's expansion is a group property name.
proof fn lemma_head_in_group_names()
    ensures
        forall|n: Seq<char>| #[trigger] generated(group_base(), 0, 10).contains(n) ==> group_property_names().contains(n),
{
    assert forall|n: Seq<char>| #[trigger] generated(group_base(), 0, 10).contains(n) implies group_property_names().contains(n) by {
        let head = generated(group_base(), 0, 10);
        let k = choose|k: int| 0 <= k < head.len() && head[k] == n;
        reveal(group_property_names);
        assert(group_property_names()[k] == n);
    }
}

/// Names of the group list, part 1, among its expansion.
proof fn lemma_plain_group_names_1()
    ensures
        generated(group_base(), 0, 10).contains("ExcludeAttachmentType"@),
        generated(group_base(), 0, 10).contains("KeywordsExcluded"@),
        generated(group_base(), 0, 10).contains("KeywordsIncluded"@),
        generated(group_base(), 0, 10).contains("KeywordsRequired"@),
        generated(group_base(), 0, 10).contains("Particle-ScaleAlongMovementVector"@),
        generated(group_base(), 0, 10).contains("SoundOnCreate"@),
        generated(group_base(), 0, 10).contains("SoundPersistent"@),
        generated(group_base(), 0, 10).contains("VoiceOverOnCreate"@),
        generated(group_base(), 0, 10).contains("VoiceOverPersistent"@),
        generated(group_base(), 0, 10).contains("dont-scroll-alpha-UV"@),
        generated(group_base(), 0, 10).contains("e-active"@),
        generated(group_base(), 0, 10).contains("e-alpharef"@),
{
    reveal(group_base);
    reveal_strlit("ExcludeAttachmentType");
    assert(forall|i: int| 0 <= i < "ExcludeAttachmentType"@.len() ==> "ExcludeAttachmentType"@[i] != '%');
    lemma_plain_at(0, "ExcludeAttachmentType"@);
    reveal_strlit("KeywordsExcluded");
    assert(forall|i: int| 0 <= i < "KeywordsExcluded"@.len() ==> "KeywordsExcluded"@[i] != '%');
    lemma_plain_at(1, "KeywordsExcluded"@);
    reveal_strlit("KeywordsIncluded");
    assert(forall|i: int| 0 <= i < "KeywordsIncluded"@.len() ==> "KeywordsIncluded"@[i] != '%');
    lemma_plain_at(2, "KeywordsIncluded"@);
    reveal_strlit("KeywordsRequired");
    assert(forall|i: int| 0 <= i < "KeywordsRequired"@.len() ==> "KeywordsRequired"@[i] != '%');
    lemma_plain_at(3, "KeywordsRequired"@);
    reveal_strlit("Particle-ScaleAlongMovementVector");
    assert(forall|i: int| 0 <= i < "Particle-ScaleAlongMovementVector"@.len() ==> "Particle-ScaleAlongMovementVector"@[i] != '%');
    lemma_plain_at(4, "Particle-ScaleAlongMovementVector"@);
    reveal_strlit("SoundOnCreate");
    assert(forall|i: int| 0 <= i < "SoundOnCreate"@.len() ==> "SoundOnCreate"@[i] != '%');
    lemma_plain_at(5, "SoundOnCreate"@);
    reveal_strlit("SoundPersistent");
    assert(forall|i: int| 0 <= i < "SoundPersistent"@.len() ==> "SoundPersistent"@[i] != '%');
    lemma_plain_at(6, "SoundPersistent"@);
    reveal_strlit("VoiceOverOnCreate");
    assert(forall|i: int| 0 <= i < "VoiceOverOnCreate"@.len() ==> "VoiceOverOnCreate"@[i] != '%');
    lemma_plain_at(7, "VoiceOverOnCreate"@);
    reveal_strlit("VoiceOverPersistent");
    assert(forall|i: int| 0 <= i < "VoiceOverPersistent"@.len() ==> "VoiceOverPersistent"@[i] != '%');
    lemma_plain_at(8, "VoiceOverPersistent"@);
    reveal_strlit("dont-scroll-alpha-UV");
    assert(forall|i: int| 0 <= i < "dont-scroll-alpha-UV"@.len() ==> "dont-scroll-alpha-UV"@[i] != '%');
    lemma_plain_at(9, "dont-scroll-alpha-UV"@);
    reveal_strlit("e-active");
    assert(forall|i: int| 0 <= i < "e-active"@.len() ==> "e-active"@[i] != '%');
    lemma_plain_at(10, "e-active"@);
    reveal_strlit("e-alpharef");
    assert(forall|i: int| 0 <= i < "e-alpharef"@.len() ==> "e-alpharef"@[i] != '%');
    lemma_plain_at(11, "e-alpharef"@);
}

/// Names of the group list, part 2, among its expansion.
proof fn lemma_plain_group_names_2()
    ensures
        generated(group_base(), 0, 10).contains("e-beam-segments"@),
        generated(group_base(), 0, 10).contains("e-censor-policy"@),
        generated(group_base(), 0, 10).contains("e-disabled"@),
        generated(group_base(), 0, 10).contains("e-life"@),
        generated(group_base(), 0, 10).contains("e-life-scale"@),
        generated(group_base(), 0, 10).contains("e-linger"@),
        generated(group_base(), 0, 10).contains("e-local-orient"@),
        generated(group_base(), 0, 10).contains("e-period"@),
        generated(group_base(), 0, 10).contains("e-shape-name"@),
        generated(group_base(), 0, 10).contains("e-shape-scale"@),
        generated(group_base(), 0, 10).contains("e-shape-use-normal-for-birth"@),
        generated(group_base(), 0, 10).contains("e-soft-in-depth"@),
{
    reveal(group_base);
    reveal_strlit("e-beam-segments");
    assert(forall|i: int| 0 <= i < "e-beam-segments"@.len() ==> "e-beam-segments"@[i] != '%');
    lemma_plain_at(12, "e-beam-segments"@);
    reveal_strlit("e-censor-policy");
    assert(forall|i: int| 0 <= i < "e-censor-policy"@.len() ==> "e-censor-policy"@[i] != '%');
    lemma_plain_at(13, "e-censor-policy"@);
    reveal_strlit("e-disabled");
    assert(forall|i: int| 0 <= i < "e-disabled"@.len() ==> "e-disabled"@[i] != '%');
    lemma_plain_at(14, "e-disabled"@);
    reveal_strlit("e-life");
    assert(forall|i: int| 0 <= i < "e-life"@.len() ==> "e-life"@[i] != '%');
    lemma_plain_at(15, "e-life"@);
    reveal_strlit("e-life-scale");
    assert(forall|i: int| 0 <= i < "e-life-scale"@.len() ==> "e-life-scale"@[i] != '%');
    lemma_plain_at(16, "e-life-scale"@);
    reveal_strlit("e-linger");
    assert(forall|i: int| 0 <= i < "e-linger"@.len() ==> "e-linger"@[i] != '%');
    lemma_plain_at(17, "e-linger"@);
    reveal_strlit("e-local-orient");
    assert(forall|i: int| 0 <= i < "e-local-orient"@.len() ==> "e-local-orient"@[i] != '%');
    lemma_plain_at(18, "e-local-orient"@);
    reveal_strlit("e-period");
    assert(forall|i: int| 0 <= i < "e-period"@.len() ==> "e-period"@[i] != '%');
    lemma_plain_at(19, "e-period"@);
    reveal_strlit("e-shape-name");
    assert(forall|i: int| 0 <= i < "e-shape-name"@.len() ==> "e-shape-name"@[i] != '%');
    lemma_plain_at(20, "e-shape-name"@);
    reveal_strlit("e-shape-scale");
    assert(forall|i: int| 0 <= i < "e-shape-scale"@.len() ==> "e-shape-scale"@[i] != '%');
    lemma_plain_at(21, "e-shape-scale"@);
    reveal_strlit("e-shape-use-normal-for-birth");
    assert(forall|i: int| 0 <= i < "e-shape-use-normal-for-birth"@.len() ==> "e-shape-use-normal-for-birth"@[i] != '%');
    lemma_plain_at(22, "e-shape-use-normal-for-birth"@);
    reveal_strlit("e-soft-in-depth");
    assert(forall|i: int| 0 <= i < "e-soft-in-depth"@.len() ==> "e-soft-in-depth"@[i] != '%');
    lemma_plain_at(23, "e-soft-in-depth"@);
}

/// Names of the group list, part 3, among its expansion.
proof fn lemma_plain_group_names_3()
    ensures
        generated(group_base(), 0, 10).contains("e-soft-out-depth"@),
        generated(group_base(), 0, 10).contains("e-soft-in-depth-delta"@),
        generated(group_base(), 0, 10).contains("e-soft-out-depth-delta"@),
        generated(group_base(), 0, 10).contains("e-timeoffset"@),
        generated(group_base(), 0, 10).contains("e-trail-cutoff"@),
        generated(group_base(), 0, 10).contains("e-trail-smoothing"@),
        generated(group_base(), 0, 10).contains("e-uvscroll"@),
        generated(group_base(), 0, 10).contains("e-uvscroll-mult"@),
        generated(group_base(), 0, 10).contains("flag-brighter-in-fow"@),
        generated(group_base(), 0, 10).contains("flag-disable-z"@),
        generated(group_base(), 0, 10).contains("flag-disable-y"@),
        generated(group_base(), 0, 10).contains("flag-groundlayer"@),
{
    reveal(group_base);
    reveal_strlit("e-soft-out-depth");
    assert(forall|i: int| 0 <= i < "e-soft-out-depth"@.len() ==> "e-soft-out-depth"@[i] != '%');
    lemma_plain_at(24, "e-soft-out-depth"@);
    reveal_strlit("e-soft-in-depth-delta");
    assert(forall|i: int| 0 <= i < "e-soft-in-depth-delta"@.len() ==> "e-soft-in-depth-delta"@[i] != '%');
    lemma_plain_at(25, "e-soft-in-depth-delta"@);
    reveal_strlit("e-soft-out-depth-delta");
    assert(forall|i: int| 0 <= i < "e-soft-out-depth-delta"@.len() ==> "e-soft-out-depth-delta"@[i] != '%');
    lemma_plain_at(26, "e-soft-out-depth-delta"@);
    reveal_strlit("e-timeoffset");
    assert(forall|i: int| 0 <= i < "e-timeoffset"@.len() ==> "e-timeoffset"@[i] != '%');
    lemma_plain_at(27, "e-timeoffset"@);
    reveal_strlit("e-trail-cutoff");
    assert(forall|i: int| 0 <= i < "e-trail-cutoff"@.len() ==> "e-trail-cutoff"@[i] != '%');
    lemma_plain_at(28, "e-trail-cutoff"@);
    reveal_strlit("e-trail-smoothing");
    assert(forall|i: int| 0 <= i < "e-trail-smoothing"@.len() ==> "e-trail-smoothing"@[i] != '%');
    lemma_plain_at(29, "e-trail-smoothing"@);
    reveal_strlit("e-uvscroll");
    assert(forall|i: int| 0 <= i < "e-uvscroll"@.len() ==> "e-uvscroll"@[i] != '%');
    lemma_plain_at(30, "e-uvscroll"@);
    reveal_strlit("e-uvscroll-mult");
    assert(forall|i: int| 0 <= i < "e-uvscroll-mult"@.len() ==> "e-uvscroll-mult"@[i] != '%');
    lemma_plain_at(31, "e-uvscroll-mult"@);
    reveal_strlit("flag-brighter-in-fow");
    assert(forall|i: int| 0 <= i < "flag-brighter-in-fow"@.len() ==> "flag-brighter-in-fow"@[i] != '%');
    lemma_plain_at(32, "flag-brighter-in-fow"@);
    reveal_strlit("flag-disable-z");
    assert(forall|i: int| 0 <= i < "flag-disable-z"@.len() ==> "flag-disable-z"@[i] != '%');
    lemma_plain_at(33, "flag-disable-z"@);
    reveal_strlit("flag-disable-y");
    assert(forall|i: int| 0 <= i < "flag-disable-y"@.len() ==> "flag-disable-y"@[i] != '%');
    lemma_plain_at(34, "flag-disable-y"@);
    reveal_strlit("flag-groundlayer");
    assert(forall|i: int| 0 <= i < "flag-groundlayer"@.len() ==> "flag-groundlayer"@[i] != '%');
    lemma_plain_at(35, "flag-groundlayer"@);
}

/// Names of the group list, part 4, among its expansion.
proof fn lemma_plain_group_names_4()
    ensures
        generated(group_base(), 0, 10).contains("flag-ground-layer"@),
        generated(group_base(), 0, 10).contains("flag-force-animated-mesh-z-write"@),
        generated(group_base(), 0, 10).contains("flag-projected"@),
        generated(group_base(), 0, 10).contains("p-alphaslicerange"@),
        generated(group_base(), 0, 10).contains("p-animation"@),
        generated(group_base(), 0, 10).contains("p-backfaceon"@),
        generated(group_base(), 0, 10).contains("p-beammode"@),
        generated(group_base(), 0, 10).contains("p-bindtoemitter"@),
        generated(group_base(), 0, 10).contains("p-coloroffset"@),
        generated(group_base(), 0, 10).contains("p-colorscale"@),
        generated(group_base(), 0, 10).contains("p-colortype"@),
        generated(group_base(), 0, 10).contains("p-distortion-mode"@),
{
    reveal(group_base);
    reveal_strlit("flag-ground-layer");
    assert(forall|i: int| 0 <= i < "flag-ground-layer"@.len() ==> "flag-ground-layer"@[i] != '%');
    lemma_plain_at(36, "flag-ground-layer"@);
    reveal_strlit("flag-force-animated-mesh-z-write");
    assert(forall|i: int| 0 <= i < "flag-force-animated-mesh-z-write"@.len() ==> "flag-force-animated-mesh-z-write"@[i] != '%');
    lemma_plain_at(37, "flag-force-animated-mesh-z-write"@);
    reveal_strlit("flag-projected");
    assert(forall|i: int| 0 <= i < "flag-projected"@.len() ==> "flag-projected"@[i] != '%');
    lemma_plain_at(38, "flag-projected"@);
    reveal_strlit("p-alphaslicerange");
    assert(forall|i: int| 0 <= i < "p-alphaslicerange"@.len() ==> "p-alphaslicerange"@[i] != '%');
    lemma_plain_at(39, "p-alphaslicerange"@);
    reveal_strlit("p-animation");
    assert(forall|i: int| 0 <= i < "p-animation"@.len() ==> "p-animation"@[i] != '%');
    lemma_plain_at(40, "p-animation"@);
    reveal_strlit("p-backfaceon");
    assert(forall|i: int| 0 <= i < "p-backfaceon"@.len() ==> "p-backfaceon"@[i] != '%');
    lemma_plain_at(41, "p-backfaceon"@);
    reveal_strlit("p-beammode");
    assert(forall|i: int| 0 <= i < "p-beammode"@.len() ==> "p-beammode"@[i] != '%');
    lemma_plain_at(42, "p-beammode"@);
    reveal_strlit("p-bindtoemitter");
    assert(forall|i: int| 0 <= i < "p-bindtoemitter"@.len() ==> "p-bindtoemitter"@[i] != '%');
    lemma_plain_at(43, "p-bindtoemitter"@);
    reveal_strlit("p-coloroffset");
    assert(forall|i: int| 0 <= i < "p-coloroffset"@.len() ==> "p-coloroffset"@[i] != '%');
    lemma_plain_at(44, "p-coloroffset"@);
    reveal_strlit("p-colorscale");
    assert(forall|i: int| 0 <= i < "p-colorscale"@.len() ==> "p-colorscale"@[i] != '%');
    lemma_plain_at(45, "p-colorscale"@);
    reveal_strlit("p-colortype");
    assert(forall|i: int| 0 <= i < "p-colortype"@.len() ==> "p-colortype"@[i] != '%');
    lemma_plain_at(46, "p-colortype"@);
    reveal_strlit("p-distortion-mode");
    assert(forall|i: int| 0 <= i < "p-distortion-mode"@.len() ==> "p-distortion-mode"@[i] != '%');
    lemma_plain_at(47, "p-distortion-mode"@);
}

/// Names of the group list, part 5, among its expansion.
proof fn lemma_plain_group_names_5()
    ensures
        generated(group_base(), 0, 10).contains("p-distortion-power"@),
        generated(group_base(), 0, 10).contains("p-falloff-texture"@),
        generated(group_base(), 0, 10).contains("p-fixedorbit"@),
        generated(group_base(), 0, 10).contains("p-fixedorbittype"@),
        generated(group_base(), 0, 10).contains("p-flexoffset"@),
        generated(group_base(), 0, 10).contains("p-flexscale"@),
        generated(group_base(), 0, 10).contains("p-followterrain"@),
        generated(group_base(), 0, 10).contains("p-frameRate"@),
        generated(group_base(), 0, 10).contains("p-frameRate-mult"@),
        generated(group_base(), 0, 10).contains("p-fresnel"@),
        generated(group_base(), 0, 10).contains("p-life-scale"@),
        generated(group_base(), 0, 10).contains("p-life-scale-offset"@),
{
    reveal(group_base);
    reveal_strlit("p-distortion-power");
    assert(forall|i: int| 0 <= i < "p-distortion-power"@.len() ==> "p-distortion-power"@[i] != '%');
    lemma_plain_at(48, "p-distortion-power"@);
    reveal_strlit("p-falloff-texture");
    assert(forall|i: int| 0 <= i < "p-falloff-texture"@.len() ==> "p-falloff-texture"@[i] != '%');
    lemma_plain_at(49, "p-falloff-texture"@);
    reveal_strlit("p-fixedorbit");
    assert(forall|i: int| 0 <= i < "p-fixedorbit"@.len() ==> "p-fixedorbit"@[i] != '%');
    lemma_plain_at(50, "p-fixedorbit"@);
    reveal_strlit("p-fixedorbittype");
    assert(forall|i: int| 0 <= i < "p-fixedorbittype"@.len() ==> "p-fixedorbittype"@[i] != '%');
    lemma_plain_at(51, "p-fixedorbittype"@);
    reveal_strlit("p-flexoffset");
    assert(forall|i: int| 0 <= i < "p-flexoffset"@.len() ==> "p-flexoffset"@[i] != '%');
    lemma_plain_at(52, "p-flexoffset"@);
    reveal_strlit("p-flexscale");
    assert(forall|i: int| 0 <= i < "p-flexscale"@.len() ==> "p-flexscale"@[i] != '%');
    lemma_plain_at(53, "p-flexscale"@);
    reveal_strlit("p-followterrain");
    assert(forall|i: int| 0 <= i < "p-followterrain"@.len() ==> "p-followterrain"@[i] != '%');
    lemma_plain_at(54, "p-followterrain"@);
    reveal_strlit("p-frameRate");
    assert(forall|i: int| 0 <= i < "p-frameRate"@.len() ==> "p-frameRate"@[i] != '%');
    lemma_plain_at(55, "p-frameRate"@);
    reveal_strlit("p-frameRate-mult");
    assert(forall|i: int| 0 <= i < "p-frameRate-mult"@.len() ==> "p-frameRate-mult"@[i] != '%');
    lemma_plain_at(56, "p-frameRate-mult"@);
    reveal_strlit("p-fresnel");
    assert(forall|i: int| 0 <= i < "p-fresnel"@.len() ==> "p-fresnel"@[i] != '%');
    lemma_plain_at(57, "p-fresnel"@);
    reveal_strlit("p-life-scale");
    assert(forall|i: int| 0 <= i < "p-life-scale"@.len() ==> "p-life-scale"@[i] != '%');
    lemma_plain_at(58, "p-life-scale"@);
    reveal_strlit("p-life-scale-offset");
    assert(forall|i: int| 0 <= i < "p-life-scale-offset"@.len() ==> "p-life-scale-offset"@[i] != '%');
    lemma_plain_at(59, "p-life-scale-offset"@);
}

/// Names of the group list, part 6, among its expansion.
proof fn lemma_plain_group_names_6()
    ensures
        generated(group_base(), 0, 10).contains("p-life-scale-symX"@),
        generated(group_base(), 0, 10).contains("p-life-scale-symY"@),
        generated(group_base(), 0, 10).contains("p-life-scale-symZ"@),
        generated(group_base(), 0, 10).contains("p-linger"@),
        generated(group_base(), 0, 10).contains("p-local-orient"@),
        generated(group_base(), 0, 10).contains("p-lockedtoemitter"@),
        generated(group_base(), 0, 10).contains("p-mesh"@),
        generated(group_base(), 0, 10).contains("p-meshtex"@),
        generated(group_base(), 0, 10).contains("p-meshtex-mult"@),
        generated(group_base(), 0, 10).contains("p-normal-map"@),
        generated(group_base(), 0, 10).contains("p-numframes"@),
        generated(group_base(), 0, 10).contains("p-numframes-mult"@),
{
    reveal(group_base);
    reveal_strlit("p-life-scale-symX");
    assert(forall|i: int| 0 <= i < "p-life-scale-symX"@.len() ==> "p-life-scale-symX"@[i] != '%');
    lemma_plain_at(60, "p-life-scale-symX"@);
    reveal_strlit("p-life-scale-symY");
    assert(forall|i: int| 0 <= i < "p-life-scale-symY"@.len() ==> "p-life-scale-symY"@[i] != '%');
    lemma_plain_at(61, "p-life-scale-symY"@);
    reveal_strlit("p-life-scale-symZ");
    assert(forall|i: int| 0 <= i < "p-life-scale-symZ"@.len() ==> "p-life-scale-symZ"@[i] != '%');
    lemma_plain_at(62, "p-life-scale-symZ"@);
    reveal_strlit("p-linger");
    assert(forall|i: int| 0 <= i < "p-linger"@.len() ==> "p-linger"@[i] != '%');
    lemma_plain_at(63, "p-linger"@);
    reveal_strlit("p-local-orient");
    assert(forall|i: int| 0 <= i < "p-local-orient"@.len() ==> "p-local-orient"@[i] != '%');
    lemma_plain_at(64, "p-local-orient"@);
    reveal_strlit("p-lockedtoemitter");
    assert(forall|i: int| 0 <= i < "p-lockedtoemitter"@.len() ==> "p-lockedtoemitter"@[i] != '%');
    lemma_plain_at(65, "p-lockedtoemitter"@);
    reveal_strlit("p-mesh");
    assert(forall|i: int| 0 <= i < "p-mesh"@.len() ==> "p-mesh"@[i] != '%');
    lemma_plain_at(66, "p-mesh"@);
    reveal_strlit("p-meshtex");
    assert(forall|i: int| 0 <= i < "p-meshtex"@.len() ==> "p-meshtex"@[i] != '%');
    lemma_plain_at(67, "p-meshtex"@);
    reveal_strlit("p-meshtex-mult");
    assert(forall|i: int| 0 <= i < "p-meshtex-mult"@.len() ==> "p-meshtex-mult"@[i] != '%');
    lemma_plain_at(68, "p-meshtex-mult"@);
    reveal_strlit("p-normal-map");
    assert(forall|i: int| 0 <= i < "p-normal-map"@.len() ==> "p-normal-map"@[i] != '%');
    lemma_plain_at(69, "p-normal-map"@);
    reveal_strlit("p-numframes");
    assert(forall|i: int| 0 <= i < "p-numframes"@.len() ==> "p-numframes"@[i] != '%');
    lemma_plain_at(70, "p-numframes"@);
    reveal_strlit("p-numframes-mult");
    assert(forall|i: int| 0 <= i < "p-numframes-mult"@.len() ==> "p-numframes-mult"@[i] != '%');
    lemma_plain_at(71, "p-numframes-mult"@);
}

/// Names of the group list, part 7, among its expansion.
proof fn lemma_plain_group_names_7()
    ensures
        generated(group_base(), 0, 10).contains("p-offsetbyheight"@),
        generated(group_base(), 0, 10).contains("p-offsetbyradius"@),
        generated(group_base(), 0, 10).contains("p-orientation"@),
        generated(group_base(), 0, 10).contains("p-projection-fading"@),
        generated(group_base(), 0, 10).contains("p-projection-y-range"@),
        generated(group_base(), 0, 10).contains("p-randomstartframe"@),
        generated(group_base(), 0, 10).contains("p-randomstartframe-mult"@),
        generated(group_base(), 0, 10).contains("p-reflection-fresnel"@),
        generated(group_base(), 0, 10).contains("p-reflection-map"@),
        generated(group_base(), 0, 10).contains("p-reflection-opacity-direct"@),
        generated(group_base(), 0, 10).contains("p-reflection-opacity-glancing"@),
        generated(group_base(), 0, 10).contains("p-rgba"@),
{
    reveal(group_base);
    reveal_strlit("p-offsetbyheight");
    assert(forall|i: int| 0 <= i < "p-offsetbyheight"@.len() ==> "p-offsetbyheight"@[i] != '%');
    lemma_plain_at(72, "p-offsetbyheight"@);
    reveal_strlit("p-offsetbyradius");
    assert(forall|i: int| 0 <= i < "p-offsetbyradius"@.len() ==> "p-offsetbyradius"@[i] != '%');
    lemma_plain_at(73, "p-offsetbyradius"@);
    reveal_strlit("p-orientation");
    assert(forall|i: int| 0 <= i < "p-orientation"@.len() ==> "p-orientation"@[i] != '%');
    lemma_plain_at(74, "p-orientation"@);
    reveal_strlit("p-projection-fading");
    assert(forall|i: int| 0 <= i < "p-projection-fading"@.len() ==> "p-projection-fading"@[i] != '%');
    lemma_plain_at(75, "p-projection-fading"@);
    reveal_strlit("p-projection-y-range");
    assert(forall|i: int| 0 <= i < "p-projection-y-range"@.len() ==> "p-projection-y-range"@[i] != '%');
    lemma_plain_at(76, "p-projection-y-range"@);
    reveal_strlit("p-randomstartframe");
    assert(forall|i: int| 0 <= i < "p-randomstartframe"@.len() ==> "p-randomstartframe"@[i] != '%');
    lemma_plain_at(77, "p-randomstartframe"@);
    reveal_strlit("p-randomstartframe-mult");
    assert(forall|i: int| 0 <= i < "p-randomstartframe-mult"@.len() ==> "p-randomstartframe-mult"@[i] != '%');
    lemma_plain_at(78, "p-randomstartframe-mult"@);
    reveal_strlit("p-reflection-fresnel");
    assert(forall|i: int| 0 <= i < "p-reflection-fresnel"@.len() ==> "p-reflection-fresnel"@[i] != '%');
    lemma_plain_at(79, "p-reflection-fresnel"@);
    reveal_strlit("p-reflection-map");
    assert(forall|i: int| 0 <= i < "p-reflection-map"@.len() ==> "p-reflection-map"@[i] != '%');
    lemma_plain_at(80, "p-reflection-map"@);
    reveal_strlit("p-reflection-opacity-direct");
    assert(forall|i: int| 0 <= i < "p-reflection-opacity-direct"@.len() ==> "p-reflection-opacity-direct"@[i] != '%');
    lemma_plain_at(81, "p-reflection-opacity-direct"@);
    reveal_strlit("p-reflection-opacity-glancing");
    assert(forall|i: int| 0 <= i < "p-reflection-opacity-glancing"@.len() ==> "p-reflection-opacity-glancing"@[i] != '%');
    lemma_plain_at(82, "p-reflection-opacity-glancing"@);
    reveal_strlit("p-rgba");
    assert(forall|i: int| 0 <= i < "p-rgba"@.len() ==> "p-rgba"@[i] != '%');
    lemma_plain_at(83, "p-rgba"@);
}

/// Names of the group list, part 8, among its expansion.
proof fn lemma_plain_group_names_8()
    ensures
        generated(group_base(), 0, 10).contains("p-scalebias"@),
        generated(group_base(), 0, 10).contains("p-scalebyheight"@),
        generated(group_base(), 0, 10).contains("p-scalebyradius"@),
        generated(group_base(), 0, 10).contains("p-scaleupfromorigin"@),
        generated(group_base(), 0, 10).contains("p-shadow"@),
        generated(group_base(), 0, 10).contains("p-simpleorient"@),
        generated(group_base(), 0, 10).contains("p-skeleton"@),
        generated(group_base(), 0, 10).contains("p-skin"@),
        generated(group_base(), 0, 10).contains("p-startframe"@),
        generated(group_base(), 0, 10).contains("p-startframe-mult"@),
        generated(group_base(), 0, 10).contains("p-texdiv"@),
        generated(group_base(), 0, 10).contains("p-texdiv-mult"@),
{
    reveal(group_base);
    reveal_strlit("p-scalebias");
    assert(forall|i: int| 0 <= i < "p-scalebias"@.len() ==> "p-scalebias"@[i] != '%');
    lemma_plain_at(84, "p-scalebias"@);
    reveal_strlit("p-scalebyheight");
    assert(forall|i: int| 0 <= i < "p-scalebyheight"@.len() ==> "p-scalebyheight"@[i] != '%');
    lemma_plain_at(85, "p-scalebyheight"@);
    reveal_strlit("p-scalebyradius");
    assert(forall|i: int| 0 <= i < "p-scalebyradius"@.len() ==> "p-scalebyradius"@[i] != '%');
    lemma_plain_at(86, "p-scalebyradius"@);
    reveal_strlit("p-scaleupfromorigin");
    assert(forall|i: int| 0 <= i < "p-scaleupfromorigin"@.len() ==> "p-scaleupfromorigin"@[i] != '%');
    lemma_plain_at(87, "p-scaleupfromorigin"@);
    reveal_strlit("p-shadow");
    assert(forall|i: int| 0 <= i < "p-shadow"@.len() ==> "p-shadow"@[i] != '%');
    lemma_plain_at(88, "p-shadow"@);
    reveal_strlit("p-simpleorient");
    assert(forall|i: int| 0 <= i < "p-simpleorient"@.len() ==> "p-simpleorient"@[i] != '%');
    lemma_plain_at(89, "p-simpleorient"@);
    reveal_strlit("p-skeleton");
    assert(forall|i: int| 0 <= i < "p-skeleton"@.len() ==> "p-skeleton"@[i] != '%');
    lemma_plain_at(90, "p-skeleton"@);
    reveal_strlit("p-skin");
    assert(forall|i: int| 0 <= i < "p-skin"@.len() ==> "p-skin"@[i] != '%');
    lemma_plain_at(91, "p-skin"@);
    reveal_strlit("p-startframe");
    assert(forall|i: int| 0 <= i < "p-startframe"@.len() ==> "p-startframe"@[i] != '%');
    lemma_plain_at(92, "p-startframe"@);
    reveal_strlit("p-startframe-mult");
    assert(forall|i: int| 0 <= i < "p-startframe-mult"@.len() ==> "p-startframe-mult"@[i] != '%');
    lemma_plain_at(93, "p-startframe-mult"@);
    reveal_strlit("p-texdiv");
    assert(forall|i: int| 0 <= i < "p-texdiv"@.len() ==> "p-texdiv"@[i] != '%');
    lemma_plain_at(94, "p-texdiv"@);
    reveal_strlit("p-texdiv-mult");
    assert(forall|i: int| 0 <= i < "p-texdiv-mult"@.len() ==> "p-texdiv-mult"@[i] != '%');
    lemma_plain_at(95, "p-texdiv-mult"@);
}

/// Names of the group list, part 9, among its expansion.
proof fn lemma_plain_group_names_9()
    ensures
        generated(group_base(), 0, 10).contains("p-texture"@),
        generated(group_base(), 0, 10).contains("p-texture-mode"@),
        generated(group_base(), 0, 10).contains("p-texture-mult"@),
        generated(group_base(), 0, 10).contains("p-texture-mult-mode"@),
        generated(group_base(), 0, 10).contains("p-texture-pixelate"@),
        generated(group_base(), 0, 10).contains("p-trailmode"@),
        generated(group_base(), 0, 10).contains("p-type"@),
        generated(group_base(), 0, 10).contains("p-uvmode"@),
        generated(group_base(), 0, 10).contains("p-uvparallax-scale"@),
        generated(group_base(), 0, 10).contains("p-uvscroll-alpha-mult"@),
        generated(group_base(), 0, 10).contains("p-uvscroll-no-alpha"@),
        generated(group_base(), 0, 10).contains("p-uvscroll-rgb"@),
{
    reveal(group_base);
    reveal_strlit("p-texture");
    assert(forall|i: int| 0 <= i < "p-texture"@.len() ==> "p-texture"@[i] != '%');
    lemma_plain_at(96, "p-texture"@);
    reveal_strlit("p-texture-mode");
    assert(forall|i: int| 0 <= i < "p-texture-mode"@.len() ==> "p-texture-mode"@[i] != '%');
    lemma_plain_at(97, "p-texture-mode"@);
    reveal_strlit("p-texture-mult");
    assert(forall|i: int| 0 <= i < "p-texture-mult"@.len() ==> "p-texture-mult"@[i] != '%');
    lemma_plain_at(98, "p-texture-mult"@);
    reveal_strlit("p-texture-mult-mode");
    assert(forall|i: int| 0 <= i < "p-texture-mult-mode"@.len() ==> "p-texture-mult-mode"@[i] != '%');
    lemma_plain_at(99, "p-texture-mult-mode"@);
    reveal_strlit("p-texture-pixelate");
    assert(forall|i: int| 0 <= i < "p-texture-pixelate"@.len() ==> "p-texture-pixelate"@[i] != '%');
    lemma_plain_at(100, "p-texture-pixelate"@);
    reveal_strlit("p-trailmode");
    assert(forall|i: int| 0 <= i < "p-trailmode"@.len() ==> "p-trailmode"@[i] != '%');
    lemma_plain_at(101, "p-trailmode"@);
    reveal_strlit("p-type");
    assert(forall|i: int| 0 <= i < "p-type"@.len() ==> "p-type"@[i] != '%');
    lemma_plain_at(102, "p-type"@);
    reveal_strlit("p-uvmode");
    assert(forall|i: int| 0 <= i < "p-uvmode"@.len() ==> "p-uvmode"@[i] != '%');
    lemma_plain_at(103, "p-uvmode"@);
    reveal_strlit("p-uvparallax-scale");
    assert(forall|i: int| 0 <= i < "p-uvparallax-scale"@.len() ==> "p-uvparallax-scale"@[i] != '%');
    lemma_plain_at(104, "p-uvparallax-scale"@);
    reveal_strlit("p-uvscroll-alpha-mult");
    assert(forall|i: int| 0 <= i < "p-uvscroll-alpha-mult"@.len() ==> "p-uvscroll-alpha-mult"@[i] != '%');
    lemma_plain_at(105, "p-uvscroll-alpha-mult"@);
    reveal_strlit("p-uvscroll-no-alpha");
    assert(forall|i: int| 0 <= i < "p-uvscroll-no-alpha"@.len() ==> "p-uvscroll-no-alpha"@[i] != '%');
    lemma_plain_at(106, "p-uvscroll-no-alpha"@);
    reveal_strlit("p-uvscroll-rgb");
    assert(forall|i: int| 0 <= i < "p-uvscroll-rgb"@.len() ==> "p-uvscroll-rgb"@[i] != '%');
    lemma_plain_at(107, "p-uvscroll-rgb"@);
}

/// Names of the group list, part 10, among its expansion.
proof fn lemma_plain_group_names_10()
    ensures
        generated(group_base(), 0, 10).contains("p-uvscroll-rgb-clamp"@),
        generated(group_base(), 0, 10).contains("p-uvscroll-rgb-clamp-mult"@),
        generated(group_base(), 0, 10).contains("p-vec-velocity-minscale"@),
        generated(group_base(), 0, 10).contains("p-vec-velocity-scale"@),
        generated(group_base(), 0, 10).contains("p-vecalign"@),
        generated(group_base(), 0, 10).contains("p-xquadrot-on"@),
        generated(group_base(), 0, 10).contains("pass"@),
        generated(group_base(), 0, 10).contains("rendermode"@),
        generated(group_base(), 0, 10).contains("single-particle"@),
        generated(group_base(), 0, 10).contains("submesh-list"@),
        generated(group_base(), 0, 10).contains("teamcolor-correction"@),
        generated(group_base(), 0, 10).contains("uniformscale"@),
{
    reveal(group_base);
    reveal_strlit("p-uvscroll-rgb-clamp");
    assert(forall|i: int| 0 <= i < "p-uvscroll-rgb-clamp"@.len() ==> "p-uvscroll-rgb-clamp"@[i] != '%');
    lemma_plain_at(108, "p-uvscroll-rgb-clamp"@);
    reveal_strlit("p-uvscroll-rgb-clamp-mult");
    assert(forall|i: int| 0 <= i < "p-uvscroll-rgb-clamp-mult"@.len() ==> "p-uvscroll-rgb-clamp-mult"@[i] != '%');
    lemma_plain_at(109, "p-uvscroll-rgb-clamp-mult"@);
    reveal_strlit("p-vec-velocity-minscale");
    assert(forall|i: int| 0 <= i < "p-vec-velocity-minscale"@.len() ==> "p-vec-velocity-minscale"@[i] != '%');
    lemma_plain_at(110, "p-vec-velocity-minscale"@);
    reveal_strlit("p-vec-velocity-scale");
    assert(forall|i: int| 0 <= i < "p-vec-velocity-scale"@.len() ==> "p-vec-velocity-scale"@[i] != '%');
    lemma_plain_at(111, "p-vec-velocity-scale"@);
    reveal_strlit("p-vecalign");
    assert(forall|i: int| 0 <= i < "p-vecalign"@.len() ==> "p-vecalign"@[i] != '%');
    lemma_plain_at(112, "p-vecalign"@);
    reveal_strlit("p-xquadrot-on");
    assert(forall|i: int| 0 <= i < "p-xquadrot-on"@.len() ==> "p-xquadrot-on"@[i] != '%');
    lemma_plain_at(113, "p-xquadrot-on"@);
    reveal_strlit("pass");
    assert(forall|i: int| 0 <= i < "pass"@.len() ==> "pass"@[i] != '%');
    lemma_plain_at(114, "pass"@);
    reveal_strlit("rendermode");
    assert(forall|i: int| 0 <= i < "rendermode"@.len() ==> "rendermode"@[i] != '%');
    lemma_plain_at(115, "rendermode"@);
    reveal_strlit("single-particle");
    assert(forall|i: int| 0 <= i < "single-particle"@.len() ==> "single-particle"@[i] != '%');
    lemma_plain_at(116, "single-particle"@);
    reveal_strlit("submesh-list");
    assert(forall|i: int| 0 <= i < "submesh-list"@.len() ==> "submesh-list"@[i] != '%');
    lemma_plain_at(117, "submesh-list"@);
    reveal_strlit("teamcolor-correction");
    assert(forall|i: int| 0 <= i < "teamcolor-correction"@.len() ==> "teamcolor-correction"@[i] != '%');
    lemma_plain_at(118, "teamcolor-correction"@);
    reveal_strlit("uniformscale");
    assert(forall|i: int| 0 <= i < "uniformscale"@.len() ==> "uniformscale"@[i] != '%');
    lemma_plain_at(119, "uniformscale"@);
}

/// Names of the group list, part 11, among its expansion.
proof fn lemma_plain_group_names_11()
    ensures
        generated(group_base(), 0, 10).contains("ChildParticleName"@),
        generated(group_base(), 0, 10).contains("ChildSpawnAtBone"@),
        generated(group_base(), 0, 10).contains("ChildEmitOnDeath"@),
        generated(group_base(), 0, 10).contains("p-childProb"@),
{
    reveal(group_base);
    reveal_strlit("ChildParticleName");
    assert(forall|i: int| 0 <= i < "ChildParticleName"@.len() ==> "ChildParticleName"@[i] != '%');
    lemma_plain_at(120, "ChildParticleName"@);
    reveal_strlit("ChildSpawnAtBone");
    assert(forall|i: int| 0 <= i < "ChildSpawnAtBone"@.len() ==> "ChildSpawnAtBone"@[i] != '%');
    lemma_plain_at(121, "ChildSpawnAtBone"@);
    reveal_strlit("ChildEmitOnDeath");
    assert(forall|i: int| 0 <= i < "ChildEmitOnDeath"@.len() ==> "ChildEmitOnDeath"@[i] != '%');
    lemma_plain_at(122, "ChildEmitOnDeath"@);
    reveal_strlit("p-childProb");
    assert(forall|i: int| 0 <= i < "p-childProb"@.len() ==> "p-childProb"@[i] != '%');
    lemma_plain_at(123, "p-childProb"@);
}

/// The property names every emitter group has, each once and without a
/// number, are group property names: with
/// [`lemma_hash_map_keys`], the map
/// [`build_hash_map`](super::dictionary::build_hash_map) builds holds the
/// hash of each under every group and under each of `GroupPart0` to
/// `GroupPart49`.
pub proof fn lemma_emitter_property_names()
    ensures
        group_property_names().contains("ExcludeAttachmentType"@),
        group_property_names().contains("KeywordsExcluded"@),
        group_property_names().contains("KeywordsIncluded"@),
        group_property_names().contains("KeywordsRequired"@),
        group_property_names().contains("Particle-ScaleAlongMovementVector"@),
        group_property_names().contains("SoundOnCreate"@),
        group_property_names().contains("SoundPersistent"@),
        group_property_names().contains("VoiceOverOnCreate"@),
        group_property_names().contains("VoiceOverPersistent"@),
        group_property_names().contains("dont-scroll-alpha-UV"@),
        group_property_names().contains("e-active"@),
        group_property_names().contains("e-alpharef"@),
        group_property_names().contains("e-beam-segments"@),
        group_property_names().contains("e-censor-policy"@),
        group_property_names().contains("e-disabled"@),
        group_property_names().contains("e-life"@),
        group_property_names().contains("e-life-scale"@),
        group_property_names().contains("e-linger"@),
        group_property_names().contains("e-local-orient"@),
        group_property_names().contains("e-period"@),
        group_property_names().contains("e-shape-name"@),
        group_property_names().contains("e-shape-scale"@),
        group_property_names().contains("e-shape-use-normal-for-birth"@),
        group_property_names().contains("e-soft-in-depth"@),
        group_property_names().contains("e-soft-out-depth"@),
        group_property_names().contains("e-soft-in-depth-delta"@),
        group_property_names().contains("e-soft-out-depth-delta"@),
        group_property_names().contains("e-timeoffset"@),
        group_property_names().contains("e-trail-cutoff"@),
        group_property_names().contains("e-trail-smoothing"@),
        group_property_names().contains("e-uvscroll"@),
        group_property_names().contains("e-uvscroll-mult"@),
        group_property_names().contains("flag-brighter-in-fow"@),
        group_property_names().contains("flag-disable-z"@),
        group_property_names().contains("flag-disable-y"@),
        group_property_names().contains("flag-groundlayer"@),
        group_property_names().contains("flag-ground-layer"@),
        group_property_names().contains("flag-force-animated-mesh-z-write"@),
        group_property_names().contains("flag-projected"@),
        group_property_names().contains("p-alphaslicerange"@),
        group_property_names().contains("p-animation"@),
        group_property_names().contains("p-backfaceon"@),
        group_property_names().contains("p-beammode"@),
        group_property_names().contains("p-bindtoemitter"@),
        group_property_names().contains("p-coloroffset"@),
        group_property_names().contains("p-colorscale"@),
        group_property_names().contains("p-colortype"@),
        group_property_names().contains("p-distortion-mode"@),
        group_property_names().contains("p-distortion-power"@),
        group_property_names().contains("p-falloff-texture"@),
        group_property_names().contains("p-fixedorbit"@),
        group_property_names().contains("p-fixedorbittype"@),
        group_property_names().contains("p-flexoffset"@),
        group_property_names().contains("p-flexscale"@),
        group_property_names().contains("p-followterrain"@),
        group_property_names().contains("p-frameRate"@),
        group_property_names().contains("p-frameRate-mult"@),
        group_property_names().contains("p-fresnel"@),
        group_property_names().contains("p-life-scale"@),
        group_property_names().contains("p-life-scale-offset"@),
        group_property_names().contains("p-life-scale-symX"@),
        group_property_names().contains("p-life-scale-symY"@),
        group_property_names().contains("p-life-scale-symZ"@),
        group_property_names().contains("p-linger"@),
        group_property_names().contains("p-local-orient"@),
        group_property_names().contains("p-lockedtoemitter"@),
        group_property_names().contains("p-mesh"@),
        group_property_names().contains("p-meshtex"@),
        group_property_names().contains("p-meshtex-mult"@),
        group_property_names().contains("p-normal-map"@),
        group_property_names().contains("p-numframes"@),
        group_property_names().contains("p-numframes-mult"@),
        group_property_names().contains("p-offsetbyheight"@),
        group_property_names().contains("p-offsetbyradius"@),
        group_property_names().contains("p-orientation"@),
        group_property_names().contains("p-projection-fading"@),
        group_property_names().contains("p-projection-y-range"@),
        group_property_names().contains("p-randomstartframe"@),
        group_property_names().contains("p-randomstartframe-mult"@),
        group_property_names().contains("p-reflection-fresnel"@),
        group_property_names().contains("p-reflection-map"@),
        group_property_names().contains("p-reflection-opacity-direct"@),
        group_property_names().contains("p-reflection-opacity-glancing"@),
        group_property_names().contains("p-rgba"@),
        group_property_names().contains("p-scalebias"@),
        group_property_names().contains("p-scalebyheight"@),
        group_property_names().contains("p-scalebyradius"@),
        group_property_names().contains("p-scaleupfromorigin"@),
        group_property_names().contains("p-shadow"@),
        group_property_names().contains("p-simpleorient"@),
        group_property_names().contains("p-skeleton"@),
        group_property_names().contains("p-skin"@),
        group_property_names().contains("p-startframe"@),
        group_property_names().contains("p-startframe-mult"@),
        group_property_names().contains("p-texdiv"@),
        group_property_names().contains("p-texdiv-mult"@),
        group_property_names().contains("p-texture"@),
        group_property_names().contains("p-texture-mode"@),
        group_property_names().contains("p-texture-mult"@),
        group_property_names().contains("p-texture-mult-mode"@),
        group_property_names().contains("p-texture-pixelate"@),
        group_property_names().contains("p-trailmode"@),
        group_property_names().contains("p-type"@),
        group_property_names().contains("p-uvmode"@),
        group_property_names().contains("p-uvparallax-scale"@),
        group_property_names().contains("p-uvscroll-alpha-mult"@),
        group_property_names().contains("p-uvscroll-no-alpha"@),
        group_property_names().contains("p-uvscroll-rgb"@),
        group_property_names().contains("p-uvscroll-rgb-clamp"@),
        group_property_names().contains("p-uvscroll-rgb-clamp-mult"@),
        group_property_names().contains("p-vec-velocity-minscale"@),
        group_property_names().contains("p-vec-velocity-scale"@),
        group_property_names().contains("p-vecalign"@),
        group_property_names().contains("p-xquadrot-on"@),
        group_property_names().contains("pass"@),
        group_property_names().contains("rendermode"@),
        group_property_names().contains("single-particle"@),
        group_property_names().contains("submesh-list"@),
        group_property_names().contains("teamcolor-correction"@),
        group_property_names().contains("uniformscale"@),
        group_property_names().contains("ChildParticleName"@),
        group_property_names().contains("ChildSpawnAtBone"@),
        group_property_names().contains("ChildEmitOnDeath"@),
        group_property_names().contains("p-childProb"@),
{
    lemma_plain_group_names_1();
    lemma_plain_group_names_2();
    lemma_plain_group_names_3();
    lemma_plain_group_names_4();
    lemma_plain_group_names_5();
    lemma_plain_group_names_6();
    lemma_plain_group_names_7();
    lemma_plain_group_names_8();
    lemma_plain_group_names_9();
    lemma_plain_group_names_10();
    lemma_plain_group_names_11();
    lemma_head_in_group_names();
}

} // verus!
