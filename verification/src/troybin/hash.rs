//! The inibin hash of property names.

use vstd::prelude::*;

verus! {

/// `c` with ASCII upper-case letters lowered.
pub open spec fn ascii_lower(c: char) -> u32 {
    if 'A' <= c && c <= 'Z' {
        (c as u32 + 32) as u32
    } else {
        c as u32
    }
}

/// The inibin hash of `s` from `init`: for each character, lowered, the
/// hash so far times 65599 plus the character, modulo 2^32.
pub open spec fn ihash_of(s: Seq<char>, init: u32) -> u32
    decreases s.len(),
{
    if s.len() == 0 {
        init
    } else {
        ((ascii_lower(s.last()) as int + ihash_of(s.drop_last(), init) as int * 65599)
            % 0x1_0000_0000) as u32
    }
}

/// The inibin hash function (65599-based rolling hash, case-insensitive for
/// ASCII letters).
pub fn ihash(value: &str, init: u32) -> (r: u32)
    ensures
        r == ihash_of(value@, init),
{
    let chars = crate::text::chars_of(value);
    let n = chars.len();
    let mut ret = init;
    let mut i: usize = 0;
    while i < n
        invariant
            i <= n,
            n == value@.len(),
            chars@ == value@,
            ret == ihash_of(value@.subrange(0, i as int), init),
        decreases n - i,
    {
        let ch = chars[i];
        let lower: u32 = if 'A' <= ch && ch <= 'Z' {
            ch as u32 + 32
        } else {
            ch as u32
        };
        proof {
            assert(value@.subrange(0, i + 1).drop_last() =~= value@.subrange(0, i as int));
            assert(ret.wrapping_mul(65599) == (ret as int * 65599) % 0x1_0000_0000);
            assert(lower.wrapping_add(ret.wrapping_mul(65599)) == (lower as int + (ret as int
                * 65599) % 0x1_0000_0000) % 0x1_0000_0000);
            assert((lower as int + (ret as int * 65599) % 0x1_0000_0000) % 0x1_0000_0000 == (
            lower as int + ret as int * 65599) % 0x1_0000_0000) by {
                vstd::arithmetic::div_mod::lemma_add_mod_noop(
                    lower as int,
                    ret as int * 65599,
                    0x1_0000_0000,
                );
                vstd::arithmetic::div_mod::lemma_mod_twice(lower as int, 0x1_0000_0000);
                vstd::arithmetic::div_mod::lemma_small_mod(lower as nat, 0x1_0000_0000);
            }
        }
        ret = lower.wrapping_add(ret.wrapping_mul(65599));
        i = i + 1;
    }
    proof {
        assert(value@.subrange(0, i as int) =~= value@);
    }
    ret
}

/// The hash of a section and field: `ihash(field, ihash("*", ihash(section, 0)))`.
pub open spec fn section_field_hash_of(section: Seq<char>, field: Seq<char>) -> u32 {
    ihash_of(field, ihash_of(seq!['*'], ihash_of(section, 0)))
}

/// Compute the hash for a section+field pair.
pub fn section_field_hash(section: &str, field: &str) -> (r: u32)
    ensures
        r == section_field_hash_of(section@, field@),
{
    let star = "*";
    proof {
        reveal_strlit("*");
        assert(star@ =~= seq!['*']);
    }
    let section_hash = ihash(star, ihash(section, 0));
    ihash(field, section_hash)
}

/// Compute the hash for a known section+field pair directly.
pub fn hash_section_field(section: &str, field: &str) -> (r: u32)
    ensures
        r == section_field_hash_of(section@, field@),
{
    section_field_hash(section, field)
}

/// The `(section, field name, hash)` triples of one section: each name,
/// then its commented form (`'name`).
pub open spec fn section_entries_of(section: Seq<char>, names: Seq<Seq<char>>) -> Seq<
    (Seq<char>, Seq<char>, u32),
>
    decreases names.len(),
{
    if names.len() == 0 {
        Seq::empty()
    } else {
        let name = names.last();
        let commented = seq!['\''] + name;
        section_entries_of(section, names.drop_last()) + seq![
            (section, name, section_field_hash_of(section, name)),
            (section, commented, section_field_hash_of(section, commented)),
        ]
    }
}

/// The `(section, field name, hash)` triples for every section and name,
/// section by section.
pub open spec fn hash_entries_of(sections: Seq<Seq<char>>, names: Seq<Seq<char>>) -> Seq<
    (Seq<char>, Seq<char>, u32),
>
    decreases sections.len(),
{
    if sections.len() == 0 {
        Seq::empty()
    } else {
        hash_entries_of(sections.drop_last(), names) + section_entries_of(sections.last(), names)
    }
}

/// The sections and names as character sequences.
pub open spec fn strings_view(v: Seq<String>) -> Seq<Seq<char>> {
    v.map_values(|s: String| s@)
}

/// The triples as character sequences and hashes.
pub open spec fn entries_view(v: Seq<(String, String, u32)>) -> Seq<(Seq<char>, Seq<char>, u32)> {
    v.map_values(|e: (String, String, u32)| (e.0@, e.1@, e.2))
}

/// `'name`: the commented form of a field name.
fn commented_name(name: &str) -> (r: String)
    ensures
        r@ == seq!['\''] + name@,
{
    let mut commented = String::from_str("'");
    proof {
        reveal_strlit("'");
    }
    commented.append(name);
    commented
}

/// The triples of one section, whose hash so far (`ihash("*", ihash(section,
/// 0))`) is `section_hash`.
fn section_entries(section: &String, names: &[String], section_hash: u32) -> (r: Vec<
    (String, String, u32),
>)
    requires
        section_hash == ihash_of(seq!['*'], ihash_of(section@, 0)),
    ensures
        entries_view(r@) == section_entries_of(section@, strings_view(names@)),
{
    let ghost nv = strings_view(names@);
    let mut result: Vec<(String, String, u32)> = Vec::new();
    let mut n: usize = 0;
    while n < names.len()
        invariant
            n <= names@.len(),
            nv == strings_view(names@),
            section_hash == ihash_of(seq!['*'], ihash_of(section@, 0)),
            entries_view(result@) == section_entries_of(section@, nv.subrange(0, n as int)),
        decreases names@.len() - n,
    {
        let name = &names[n];
        let plain = name.clone();
        let commented = commented_name(name.as_str());
        let h0 = ihash(plain.as_str(), section_hash);
        let h1 = ihash(commented.as_str(), section_hash);
        let ghost before = result@;
        result.push((section.clone(), plain, h0));
        result.push((section.clone(), commented, h1));
        proof {
            assert(nv.subrange(0, n + 1).drop_last() =~= nv.subrange(0, n as int));
            assert(nv.subrange(0, n + 1).last() == nv[n as int]);
            assert(entries_view(result@) =~= entries_view(before) + seq![
                (section@, nv[n as int], h0),
                (section@, seq!['\''] + nv[n as int], h1),
            ]);
        }
        n = n + 1;
    }
    proof {
        assert(nv.subrange(0, n as int) =~= nv);
    }
    result
}

/// Compute hashes for all (section, field) combinations, including the
/// commented variant (`'field`).
///
/// Returns `(section, field_name, hash)` tuples.
pub fn build_hash_entries(sections: &[String], names: &[String]) -> (r: Vec<(String, String, u32)>)
    ensures
        entries_view(r@) == hash_entries_of(strings_view(sections@), strings_view(names@)),
{
    let ghost sv = strings_view(sections@);
    let ghost nv = strings_view(names@);
    let mut result: Vec<(String, String, u32)> = Vec::new();
    let mut s: usize = 0;
    while s < sections.len()
        invariant
            s <= sections@.len(),
            sv == strings_view(sections@),
            nv == strings_view(names@),
            entries_view(result@) == hash_entries_of(sv.subrange(0, s as int), nv),
        decreases sections@.len() - s,
    {
        let section = &sections[s];
        let star = "*";
        proof {
            reveal_strlit("*");
            assert(star@ =~= seq!['*']);
        }
        let section_hash = ihash(star, ihash(section.as_str(), 0));
        let mut part = section_entries(section, names, section_hash);
        let ghost before = result@;
        let ghost added = part@;
        result.append(&mut part);
        proof {
            assert(entries_view(result@) =~= entries_view(before) + entries_view(added));
            assert(sv.subrange(0, s + 1).drop_last() =~= sv.subrange(0, s as int));
            assert(sv.subrange(0, s + 1).last() == sv[s as int]);
        }
        s = s + 1;
    }
    proof {
        assert(sv.subrange(0, s as int) =~= sv);
    }
    result
}

} // verus!
