//! Property names of troybin files, for resolving their hashes.
//!
//! The dictionaries enumerate the known property names so that their
//! ihashes can be computed and matched against the hashes of a file.

use vstd::prelude::*;

use std::collections::HashMap;

use super::binary::{records_view, RawRecord, RawRecordView, RawValue, RawValueView};
use super::hash::{build_hash_entries, entries_view, hash_entries_of, section_entries_of, strings_view};

verus! {

broadcast use vstd::string::group_string_axioms;

/// The views of string slices.
pub open spec fn strs_view(v: Seq<&str>) -> Seq<Seq<char>> {
    v.map_values(|s: &str| s@)
}

/// The decimal digit `d`.
pub open spec fn digit(d: nat) -> char {
    (0x30 + d) as char
}

/// `k` written in decimal.
pub open spec fn decimal(k: nat) -> Seq<char>
    decreases k,
{
    if k < 10 {
        seq![digit(k)]
    } else {
        decimal(k / 10) + seq![digit(k % 10)]
    }
}

/// `k` written in decimal, for `k < 100`.
fn decimal_string(k: usize) -> (r: String)
    requires
        k < 100,
    ensures
        r@ == decimal(k as nat),
{
    let digits = "0123456789";
    proof {
        reveal_strlit("0123456789");
        assert forall|d: int| 0 <= d < 10 implies #[trigger] digits@[d] == digit(d as nat) by {}
    }
    let mut out = String::new();
    if k >= 10 {
        out.append(digits.substring_char(k / 10, k / 10 + 1));
        proof {
            assert(decimal((k / 10) as nat) == seq![digit((k / 10) as nat)]);
        }
    }
    out.append(digits.substring_char(k % 10, k % 10 + 1));
    proof {
        assert(out@ =~= decimal(k as nat));
    }
    out
}

/// Whether the number marker `%N%` starts at `i` of `s`.
pub open spec fn marker_at(s: Seq<char>, i: int) -> bool {
    0 <= i && i + 3 <= s.len() && s[i] == '%' && s[i + 1] == 'N' && s[i + 2] == '%'
}

/// Whether `s` holds the number marker.
pub open spec fn has_marker(s: Seq<char>) -> bool {
    exists|i: int| marker_at(s, i)
}

/// `s` with each number marker, left to right, replaced by `rep`.
pub open spec fn replace_marker(s: Seq<char>, rep: Seq<char>) -> Seq<char>
    decreases s.len(),
{
    if s.len() == 0 {
        Seq::empty()
    } else if marker_at(s, 0) {
        rep + replace_marker(s.skip(3), rep)
    } else {
        seq![s[0]] + replace_marker(s.skip(1), rep)
    }
}

/// Whether `s` holds the number marker.
fn contains_marker(s: &str) -> (r: bool)
    ensures
        r == has_marker(s@),
{
    let chars = crate::text::chars_of(s);
    let n = chars.len();
    let mut i: usize = 0;
    while i <= n && n - i >= 3
        invariant
            chars@ == s@,
            n == s@.len(),
            forall|j: int| 0 <= j < i ==> !#[trigger] marker_at(s@, j),
        decreases n - i,
    {
        if chars[i] == '%' && chars[i + 1] == 'N' && chars[i + 2] == '%' {
            proof {
                assert(marker_at(s@, i as int));
            }
            return true;
        }
        i = i + 1;
    }
    proof {
        assert forall|j: int| !#[trigger] marker_at(s@, j) by {
            if j >= i {
                assert(j + 3 > n);
            }
        }
    }
    false
}

/// `s` with each number marker replaced by `rep`.
fn replace_markers(s: &str, rep: &str) -> (r: String)
    ensures
        r@ == replace_marker(s@, rep@),
{
    let chars = crate::text::chars_of(s);
    let n = chars.len();
    let mut out = String::new();
    let mut i: usize = 0;
    proof {
        assert(s@.skip(0) =~= s@);
    }
    while i < n
        invariant
            chars@ == s@,
            n == s@.len(),
            i <= n,
            out@ + replace_marker(s@.skip(i as int), rep@) == replace_marker(s@, rep@),
        decreases n - i,
    {
        let ghost rest = s@.skip(i as int);
        if n - i >= 3 && chars[i] == '%' && chars[i + 1] == 'N' && chars[i + 2] == '%' {
            proof {
                assert(marker_at(rest, 0));
                assert(rest.skip(3) =~= s@.skip(i + 3));
                assert(out@ + replace_marker(rest, rep@) =~= (out@ + rep@) + replace_marker(
                    s@.skip(i + 3),
                    rep@,
                ));
            }
            out.append(rep);
            i = i + 3;
        } else {
            proof {
                assert(!marker_at(rest, 0));
                assert(rest.skip(1) =~= s@.skip(i + 1));
                assert(rest[0] == s@[i as int]);
                assert(out@ + replace_marker(rest, rep@) =~= (out@ + seq![s@[i as int]])
                    + replace_marker(s@.skip(i + 1), rep@));
            }
            out.append(s.substring_char(i, i + 1));
            proof {
                assert(s@.subrange(i as int, i + 1) =~= seq![s@[i as int]]);
            }
            i = i + 1;
        }
    }
    proof {
        assert(s@.skip(n as int) =~= Seq::<char>::empty());
        assert(out@ + Seq::<char>::empty() =~= out@);
    }
    out
}

/// One item of a list: a numbered item (holding `%N%`) once per number of
/// `start..end`, any other item as it is.
pub open spec fn expand_item(item: Seq<char>, start: nat, end: nat) -> Seq<Seq<char>> {
    if has_marker(item) {
        Seq::new((end - start) as nat, |j: int| replace_marker(item, decimal((start + j) as nat)))
    } else {
        seq![item]
    }
}

/// The items of `base` expanded over `start..end`, in order.
pub open spec fn generated(base: Seq<Seq<char>>, start: nat, end: nat) -> Seq<Seq<char>>
    decreases base.len(),
{
    if base.len() == 0 {
        Seq::empty()
    } else {
        generated(base.drop_last(), start, end) + expand_item(base.last(), start, end)
    }
}

/// The items of `base`, each numbered item (holding `%N%`) once per number
/// of `start..end`.
fn generate_list(base: &[&str], start: usize, end: usize) -> (r: Vec<String>)
    requires
        start <= end <= 100,
    ensures
        strings_view(r@) == generated(strs_view(base@), start as nat, end as nat),
{
    let ghost bv = strs_view(base@);
    let mut result: Vec<String> = Vec::new();
    let mut b: usize = 0;
    while b < base.len()
        invariant
            bv == strs_view(base@),
            start <= end <= 100,
            b <= base@.len(),
            strings_view(result@) == generated(bv.subrange(0, b as int), start as nat, end as nat),
        decreases base@.len() - b,
    {
        let item = base[b];
        let ghost before = strings_view(result@);
        if contains_marker(item) {
            let mut k = start;
            while k < end
                invariant
                    start <= k <= end <= 100,
                    strings_view(result@) == before + Seq::new(
                        (k - start) as nat,
                        |j: int| replace_marker(item@, decimal((start + j) as nat)),
                    ),
                decreases end - k,
            {
                let number = decimal_string(k);
                let name = replace_markers(item, number.as_str());
                let ghost prev = result@;
                result.push(name);
                proof {
                    assert(result@ == prev.push(name));
                    assert(strings_view(result@) =~= strings_view(prev).push(name@));
                    assert(name@ == replace_marker(item@, decimal((start + (k - start)) as nat)));
                    assert(strings_view(result@) =~= before + Seq::new(
                        (k + 1 - start) as nat,
                        |j: int| replace_marker(item@, decimal((start + j) as nat)),
                    ));
                }
                k = k + 1;
            }
        } else {
            let name = String::from_str(item);
            let ghost prev = result@;
            result.push(name);
            proof {
                assert(result@ == prev.push(name));
                assert(strings_view(result@) =~= strings_view(prev).push(name@));
                assert(name@ == item@);
                assert(!has_marker(item@));
                assert(expand_item(item@, start as nat, end as nat) == seq![item@]);
                assert(strings_view(result@) =~= before + seq![item@]);
            }
        }
        proof {
            assert(bv.subrange(0, b + 1).drop_last() =~= bv.subrange(0, b as int));
            assert(bv.subrange(0, b + 1).last() == item@);
        }
        b = b + 1;
    }
    proof {
        assert(bv.subrange(0, base@.len() as int) =~= bv);
    }
    result
}

/// The flex suffix `_flex`.
pub open spec fn flex_suffix() -> Seq<char> {
    seq!['_', 'f', 'l', 'e', 'x']
}

/// The flex names of `a`: `a`, `a_flex`, then `a_flex0` to `a_flex3`.
pub open spec fn flex_of(a: Seq<char>) -> Seq<Seq<char>> {
    seq![a, a + flex_suffix()] + Seq::new(4, |j: int| a + flex_suffix() + decimal(j as nat))
}

/// The flex names of each of `args`, in order.
pub open spec fn flex_names_of(args: Seq<Seq<char>>) -> Seq<Seq<char>>
    decreases args.len(),
{
    if args.len() == 0 {
        Seq::empty()
    } else {
        flex_names_of(args.drop_last()) + flex_of(args.last())
    }
}

/// `a` followed by each number of `0..count`.
pub open spec fn numbered(a: Seq<char>, count: nat) -> Seq<Seq<char>> {
    Seq::new(count, |j: int| a + decimal(j as nat))
}

/// For each modifier `m` of `mods`: `a m P`, then `a m P` numbered.
pub open spec fn modifier_names(a: Seq<char>, mods: Seq<Seq<char>>, count: nat) -> Seq<Seq<char>>
    decreases mods.len(),
{
    if mods.len() == 0 {
        Seq::empty()
    } else {
        let am = a + mods.last() + seq!['P'];
        modifier_names(a, mods.drop_last(), count) + seq![am] + numbered(am, count)
    }
}

/// For each of `args`: it numbered, then its modifier names.
pub open spec fn argument_names(args: Seq<Seq<char>>, mods: Seq<Seq<char>>, count: nat) -> Seq<
    Seq<char>,
>
    decreases args.len(),
{
    if args.len() == 0 {
        Seq::empty()
    } else {
        argument_names(args.drop_last(), mods, count) + numbered(args.last(), count)
            + modifier_names(args.last(), mods, count)
    }
}

/// The randomised names of `args`: the arguments themselves, then each
/// one's numbered and modifier names.
pub open spec fn random_names_of(mods: Seq<Seq<char>>, args: Seq<Seq<char>>, count: nat) -> Seq<
    Seq<char>,
> {
    args + argument_names(args, mods, count)
}

/// Copies of `v`'s strings.
fn copy_strings(v: &[String]) -> (r: Vec<String>)
    ensures
        strings_view(r@) == strings_view(v@),
{
    let mut out: Vec<String> = Vec::new();
    let mut i: usize = 0;
    while i < v.len()
        invariant
            i <= v@.len(),
            strings_view(out@) == strings_view(v@.subrange(0, i as int)),
        decreases v@.len() - i,
    {
        let ghost prev = out@;
        out.push(v[i].clone());
        proof {
            assert(strings_view(out@) =~= strings_view(prev).push(v@[i as int]@));
            assert(strings_view(v@.subrange(0, i + 1)) =~= strings_view(v@.subrange(0, i as int))
                .push(v@[i as int]@));
        }
        i = i + 1;
    }
    proof {
        assert(v@.subrange(0, v@.len() as int) =~= v@);
    }
    out
}

/// `prefix` followed by each number of `0..count`, pushed onto `out`.
fn push_numbered(out: &mut Vec<String>, prefix: &str, count: usize)
    requires
        count <= 100,
    ensures
        strings_view(final(out)@) == strings_view(old(out)@) + numbered(prefix@, count as nat),
{
    let mut j: usize = 0;
    while j < count
        invariant
            j <= count <= 100,
            strings_view(out@) == strings_view(old(out)@) + numbered(prefix@, j as nat),
        decreases count - j,
    {
        let mut name = String::from_str(prefix);
        let number = decimal_string(j);
        name.append(number.as_str());
        let ghost prev = out@;
        out.push(name);
        proof {
            assert(strings_view(out@) =~= strings_view(prev).push(name@));
            assert(strings_view(out@) =~= strings_view(old(out)@) + numbered(prefix@, (j + 1) as nat));
        }
        j = j + 1;
    }
}

/// The flex names of each of `args`.
fn flex_names(args: &[&str]) -> (r: Vec<String>)
    ensures
        strings_view(r@) == flex_names_of(strs_view(args@)),
{
    let ghost av = strs_view(args@);
    let flex = "_flex";
    proof {
        reveal_strlit("_flex");
        assert(flex@ =~= flex_suffix());
    }
    let mut result: Vec<String> = Vec::new();
    let mut i: usize = 0;
    while i < args.len()
        invariant
            av == strs_view(args@),
            flex@ == flex_suffix(),
            i <= args@.len(),
            strings_view(result@) == flex_names_of(av.subrange(0, i as int)),
        decreases args@.len() - i,
    {
        let a = args[i];
        let ghost before = strings_view(result@);
        let ghost prev = result@;
        result.push(String::from_str(a));
        let mut with_flex = String::from_str(a);
        with_flex.append(flex);
        let ghost mid = result@;
        result.push(with_flex.clone());
        proof {
            assert(strings_view(result@) =~= before + seq![a@, a@ + flex_suffix()]);
        }
        push_numbered(&mut result, with_flex.as_str(), 4);
        proof {
            assert(strings_view(result@) =~= before + flex_of(a@));
            assert(av.subrange(0, i + 1).drop_last() =~= av.subrange(0, i as int));
            assert(av.subrange(0, i + 1).last() == a@);
        }
        i = i + 1;
    }
    proof {
        assert(av.subrange(0, args@.len() as int) =~= av);
    }
    result
}

/// The randomised names of `args` with the modifiers `mods`, numbered up to
/// `count`.
fn names_with_modifiers(mods: &[&str], args: &[String], count: usize) -> (r: Vec<String>)
    requires
        count <= 100,
    ensures
        strings_view(r@) == random_names_of(strs_view(mods@), strings_view(args@), count as nat),
{
    let ghost mv = strs_view(mods@);
    let ghost av = strings_view(args@);
    let mut result = copy_strings(args);
    let mut i: usize = 0;
    proof {
        assert(av + argument_names(av.subrange(0, 0), mv, count as nat) =~= av);
    }
    while i < args.len()
        invariant
            mv == strs_view(mods@),
            av == strings_view(args@),
            count <= 100,
            i <= args@.len(),
            strings_view(result@) == av + argument_names(av.subrange(0, i as int), mv, count as nat),
        decreases args@.len() - i,
    {
        let arg = &args[i];
        let ghost before = strings_view(result@);
        push_numbered(&mut result, arg.as_str(), count);
        let mut m: usize = 0;
        while m < mods.len()
            invariant
                mv == strs_view(mods@),
                count <= 100,
                m <= mods@.len(),
                strings_view(result@) == before + numbered(arg@, count as nat) + modifier_names(
                    arg@,
                    mv.subrange(0, m as int),
                    count as nat,
                ),
            decreases mods@.len() - m,
        {
            let ghost mid = strings_view(result@);
            let mut am = arg.clone();
            am.append(mods[m]);
            let p = "P";
            proof {
                reveal_strlit("P");
            }
            am.append(p);
            let ghost prev = result@;
            result.push(am.clone());
            proof {
                assert(strings_view(result@) =~= strings_view(prev).push(am@));
            }
            push_numbered(&mut result, am.as_str(), count);
            proof {
                assert(am@ == arg@ + mv[m as int] + seq!['P']);
                assert(mv.subrange(0, m + 1).drop_last() =~= mv.subrange(0, m as int));
                assert(mv.subrange(0, m + 1).last() == mv[m as int]);
                assert(strings_view(result@) =~= before + numbered(arg@, count as nat)
                    + modifier_names(arg@, mv.subrange(0, m + 1), count as nat));
            }
            m = m + 1;
        }
        proof {
            assert(mv.subrange(0, mods@.len() as int) =~= mv);
            assert(av.subrange(0, i + 1).drop_last() =~= av.subrange(0, i as int));
            assert(av.subrange(0, i + 1).last() == arg@);
            assert(strings_view(result@) =~= av + argument_names(
                av.subrange(0, i + 1),
                mv,
                count as nat,
            ));
        }
        i = i + 1;
    }
    proof {
        assert(av.subrange(0, args@.len() as int) =~= av);
    }
    result
}

/// The randomised names of `args`, numbered to 10.
fn rand_names(mods: &[&str], args: &[String]) -> (r: Vec<String>)
    ensures
        strings_view(r@) == random_names_of(strs_view(mods@), strings_view(args@), 10),
{
    names_with_modifiers(mods, args, 10)
}

/// The colour names of `args`, numbered to 25.
fn color_names(mods: &[&str], args: &[String]) -> (r: Vec<String>)
    ensures
        strings_view(r@) == random_names_of(strs_view(mods@), strings_view(args@), 25),
{
    names_with_modifiers(mods, args, 25)
}

/// The names as owned strings.
fn s(v: &[&str]) -> (r: Vec<String>)
    ensures
        strings_view(r@) == strs_view(v@),
{
    let mut out: Vec<String> = Vec::new();
    let mut i: usize = 0;
    while i < v.len()
        invariant
            i <= v@.len(),
            strings_view(out@) == strs_view(v@.subrange(0, i as int)),
        decreases v@.len() - i,
    {
        let ghost prev = out@;
        out.push(String::from_str(v[i]));
        proof {
            assert(strings_view(out@) =~= strings_view(prev).push(v@[i as int]@));
            assert(strs_view(v@.subrange(0, i + 1)) =~= strs_view(v@.subrange(0, i as int)).push(
                v@[i as int]@,
            ));
        }
        i = i + 1;
    }
    proof {
        assert(v@.subrange(0, v@.len() as int) =~= v@);
    }
    out
}


/// The material names of systems and groups.
#[verifier::opaque]
pub open spec fn material_names() -> Seq<Seq<char>> {
    seq![
        "MaterialOverrideTransMap"@,
        "MaterialOverrideTransSource"@,
        "p-trans-sample"@,
        "MaterialOverride%N%BlendMode"@,
        "MaterialOverride%N%GlossTexture"@,
        "MaterialOverride%N%EmissiveTexture"@,
        "MaterialOverride%N%FixedAlphaScrolling"@,
        "MaterialOverride%N%Priority"@,
        "MaterialOverride%N%RenderingMode"@,
        "MaterialOverride%N%SubMesh"@,
        "MaterialOverride%N%Texture"@,
        "MaterialOverride%N%UVScroll"@,
    ]
}

/// The material names of systems and groups.
fn material_names_list() -> (r: Vec<&'static str>)
    ensures
        strs_view(r@) == material_names(),
{
    let v = vec![
        "MaterialOverrideTransMap",
        "MaterialOverrideTransSource",
        "p-trans-sample",
        "MaterialOverride%N%BlendMode",
        "MaterialOverride%N%GlossTexture",
        "MaterialOverride%N%EmissiveTexture",
        "MaterialOverride%N%FixedAlphaScrolling",
        "MaterialOverride%N%Priority",
        "MaterialOverride%N%RenderingMode",
        "MaterialOverride%N%SubMesh",
        "MaterialOverride%N%Texture",
        "MaterialOverride%N%UVScroll",
    ];
    proof {
        reveal(material_names);
        assert(strs_view(v@) =~= material_names());
    }
    v
}

/// The fluid names of groups.
#[verifier::opaque]
pub open spec fn part_fluid_names() -> Seq<Seq<char>> {
    seq![
        "fluid-params"@,
    ]
}

/// The fluid names of groups.
fn part_fluid_names_list() -> (r: Vec<&'static str>)
    ensures
        strs_view(r@) == part_fluid_names(),
{
    let v = vec![
        "fluid-params",
    ];
    proof {
        reveal(part_fluid_names);
        assert(strs_view(v@) =~= part_fluid_names());
    }
    v
}

/// The field sub-group names of groups.
#[verifier::opaque]
pub open spec fn part_field_names() -> Seq<Seq<char>> {
    seq![
        "field-accel-%N%"@,
        "field-attract-%N%"@,
        "field-drag-%N%"@,
        "field-noise-%N%"@,
        "field-orbit-%N%"@,
    ]
}

/// The field sub-group names of groups.
fn part_field_names_list() -> (r: Vec<&'static str>)
    ensures
        strs_view(r@) == part_field_names(),
{
    let v = vec![
        "field-accel-%N%",
        "field-attract-%N%",
        "field-drag-%N%",
        "field-noise-%N%",
        "field-orbit-%N%",
    ];
    proof {
        reveal(part_field_names);
        assert(strs_view(v@) =~= part_field_names());
    }
    v
}

/// The field names every field holds.
#[verifier::opaque]
pub open spec fn field_names_base() -> Seq<Seq<char>> {
    seq![
        "f-localspace"@,
        "f-axisfrac"@,
    ]
}

/// The field names every field holds.
fn field_names_base_list() -> (r: Vec<&'static str>)
    ensures
        strs_view(r@) == field_names_base(),
{
    let v = vec![
        "f-localspace",
        "f-axisfrac",
    ];
    proof {
        reveal(field_names_base);
        assert(strs_view(v@) =~= field_names_base());
    }
    v
}

/// The property names of the System section.
#[verifier::opaque]
pub open spec fn system_base() -> Seq<Seq<char>> {
    seq![
        "AudioFlexValueParameterName"@,
        "AudioParameterFlexID"@,
        "build-up-time"@,
        "group-vis"@,
        "group-scale-cap"@,
        "GroupPart%N%"@,
        "GroupPart%N%Type"@,
        "GroupPart%N%Importance"@,
        "Override-Offset%N%"@,
        "Override-Rotation%N%"@,
        "Override-Scale%N%"@,
        "KeepOrientationAfterSpellCast"@,
        "PersistThruDeath"@,
        "PersistThruRevive"@,
        "SelfIllumination"@,
        "SimulateEveryFrame"@,
        "SimulateOncePerFrame"@,
        "SimulateWhileOffScreen"@,
        "SoundEndsOnEmitterEnd"@,
        "SoundOnCreate"@,
        "SoundPersistent"@,
        "SoundsPlayWhileOffScreen"@,
        "VoiceOverOnCreate"@,
        "VoiceOverPersistent"@,
    ]
}

/// The property names of the System section.
fn system_base_list() -> (r: Vec<&'static str>)
    ensures
        strs_view(r@) == system_base(),
{
    let v = vec![
        "AudioFlexValueParameterName",
        "AudioParameterFlexID",
        "build-up-time",
        "group-vis",
        "group-scale-cap",
        "GroupPart%N%",
        "GroupPart%N%Type",
        "GroupPart%N%Importance",
        "Override-Offset%N%",
        "Override-Rotation%N%",
        "Override-Scale%N%",
        "KeepOrientationAfterSpellCast",
        "PersistThruDeath",
        "PersistThruRevive",
        "SelfIllumination",
        "SimulateEveryFrame",
        "SimulateOncePerFrame",
        "SimulateWhileOffScreen",
        "SoundEndsOnEmitterEnd",
        "SoundOnCreate",
        "SoundPersistent",
        "SoundsPlayWhileOffScreen",
        "VoiceOverOnCreate",
        "VoiceOverPersistent",
    ];
    proof {
        reveal(system_base);
        assert(strs_view(v@) =~= system_base());
    }
    v
}

/// The plain property names of a group.
#[verifier::opaque]
pub open spec fn group_base() -> Seq<Seq<char>> {
    seq![
        "ExcludeAttachmentType"@,
        "KeywordsExcluded"@,
        "KeywordsIncluded"@,
        "KeywordsRequired"@,
        "Particle-ScaleAlongMovementVector"@,
        "SoundOnCreate"@,
        "SoundPersistent"@,
        "VoiceOverOnCreate"@,
        "VoiceOverPersistent"@,
        "dont-scroll-alpha-UV"@,
        "e-active"@,
        "e-alpharef"@,
        "e-beam-segments"@,
        "e-censor-policy"@,
        "e-disabled"@,
        "e-life"@,
        "e-life-scale"@,
        "e-linger"@,
        "e-local-orient"@,
        "e-period"@,
        "e-shape-name"@,
        "e-shape-scale"@,
        "e-shape-use-normal-for-birth"@,
        "e-soft-in-depth"@,
        "e-soft-out-depth"@,
        "e-soft-in-depth-delta"@,
        "e-soft-out-depth-delta"@,
        "e-timeoffset"@,
        "e-trail-cutoff"@,
        "e-trail-smoothing"@,
        "e-uvscroll"@,
        "e-uvscroll-mult"@,
        "flag-brighter-in-fow"@,
        "flag-disable-z"@,
        "flag-disable-y"@,
        "flag-groundlayer"@,
        "flag-ground-layer"@,
        "flag-force-animated-mesh-z-write"@,
        "flag-projected"@,
        "p-alphaslicerange"@,
        "p-animation"@,
        "p-backfaceon"@,
        "p-beammode"@,
        "p-bindtoemitter"@,
        "p-coloroffset"@,
        "p-colorscale"@,
        "p-colortype"@,
        "p-distortion-mode"@,
        "p-distortion-power"@,
        "p-falloff-texture"@,
        "p-fixedorbit"@,
        "p-fixedorbittype"@,
        "p-flexoffset"@,
        "p-flexscale"@,
        "p-followterrain"@,
        "p-frameRate"@,
        "p-frameRate-mult"@,
        "p-fresnel"@,
        "p-life-scale"@,
        "p-life-scale-offset"@,
        "p-life-scale-symX"@,
        "p-life-scale-symY"@,
        "p-life-scale-symZ"@,
        "p-linger"@,
        "p-local-orient"@,
        "p-lockedtoemitter"@,
        "p-mesh"@,
        "p-meshtex"@,
        "p-meshtex-mult"@,
        "p-normal-map"@,
        "p-numframes"@,
        "p-numframes-mult"@,
        "p-offsetbyheight"@,
        "p-offsetbyradius"@,
        "p-orientation"@,
        "p-projection-fading"@,
        "p-projection-y-range"@,
        "p-randomstartframe"@,
        "p-randomstartframe-mult"@,
        "p-reflection-fresnel"@,
        "p-reflection-map"@,
        "p-reflection-opacity-direct"@,
        "p-reflection-opacity-glancing"@,
        "p-rgba"@,
        "p-scalebias"@,
        "p-scalebyheight"@,
        "p-scalebyradius"@,
        "p-scaleupfromorigin"@,
        "p-shadow"@,
        "p-simpleorient"@,
        "p-skeleton"@,
        "p-skin"@,
        "p-startframe"@,
        "p-startframe-mult"@,
        "p-texdiv"@,
        "p-texdiv-mult"@,
        "p-texture"@,
        "p-texture-mode"@,
        "p-texture-mult"@,
        "p-texture-mult-mode"@,
        "p-texture-pixelate"@,
        "p-trailmode"@,
        "p-type"@,
        "p-uvmode"@,
        "p-uvparallax-scale"@,
        "p-uvscroll-alpha-mult"@,
        "p-uvscroll-no-alpha"@,
        "p-uvscroll-rgb"@,
        "p-uvscroll-rgb-clamp"@,
        "p-uvscroll-rgb-clamp-mult"@,
        "p-vec-velocity-minscale"@,
        "p-vec-velocity-scale"@,
        "p-vecalign"@,
        "p-xquadrot-on"@,
        "pass"@,
        "rendermode"@,
        "single-particle"@,
        "submesh-list"@,
        "teamcolor-correction"@,
        "uniformscale"@,
        "ChildParticleName"@,
        "ChildSpawnAtBone"@,
        "ChildEmitOnDeath"@,
        "p-childProb"@,
        "ChildParticleName%N%"@,
        "ChildSpawnAtBone%N%"@,
        "ChildEmitOnDeath%N%"@,
    ]
}

/// The plain property names of a group.
fn group_base_list() -> (r: Vec<&'static str>)
    ensures
        strs_view(r@) == group_base(),
{
    let v = vec![
        "ExcludeAttachmentType",
        "KeywordsExcluded",
        "KeywordsIncluded",
        "KeywordsRequired",
        "Particle-ScaleAlongMovementVector",
        "SoundOnCreate",
        "SoundPersistent",
        "VoiceOverOnCreate",
        "VoiceOverPersistent",
        "dont-scroll-alpha-UV",
        "e-active",
        "e-alpharef",
        "e-beam-segments",
        "e-censor-policy",
        "e-disabled",
        "e-life",
        "e-life-scale",
        "e-linger",
        "e-local-orient",
        "e-period",
        "e-shape-name",
        "e-shape-scale",
        "e-shape-use-normal-for-birth",
        "e-soft-in-depth",
        "e-soft-out-depth",
        "e-soft-in-depth-delta",
        "e-soft-out-depth-delta",
        "e-timeoffset",
        "e-trail-cutoff",
        "e-trail-smoothing",
        "e-uvscroll",
        "e-uvscroll-mult",
        "flag-brighter-in-fow",
        "flag-disable-z",
        "flag-disable-y",
        "flag-groundlayer",
        "flag-ground-layer",
        "flag-force-animated-mesh-z-write",
        "flag-projected",
        "p-alphaslicerange",
        "p-animation",
        "p-backfaceon",
        "p-beammode",
        "p-bindtoemitter",
        "p-coloroffset",
        "p-colorscale",
        "p-colortype",
        "p-distortion-mode",
        "p-distortion-power",
        "p-falloff-texture",
        "p-fixedorbit",
        "p-fixedorbittype",
        "p-flexoffset",
        "p-flexscale",
        "p-followterrain",
        "p-frameRate",
        "p-frameRate-mult",
        "p-fresnel",
        "p-life-scale",
        "p-life-scale-offset",
        "p-life-scale-symX",
        "p-life-scale-symY",
        "p-life-scale-symZ",
        "p-linger",
        "p-local-orient",
        "p-lockedtoemitter",
        "p-mesh",
        "p-meshtex",
        "p-meshtex-mult",
        "p-normal-map",
        "p-numframes",
        "p-numframes-mult",
        "p-offsetbyheight",
        "p-offsetbyradius",
        "p-orientation",
        "p-projection-fading",
        "p-projection-y-range",
        "p-randomstartframe",
        "p-randomstartframe-mult",
        "p-reflection-fresnel",
        "p-reflection-map",
        "p-reflection-opacity-direct",
        "p-reflection-opacity-glancing",
        "p-rgba",
        "p-scalebias",
        "p-scalebyheight",
        "p-scalebyradius",
        "p-scaleupfromorigin",
        "p-shadow",
        "p-simpleorient",
        "p-skeleton",
        "p-skin",
        "p-startframe",
        "p-startframe-mult",
        "p-texdiv",
        "p-texdiv-mult",
        "p-texture",
        "p-texture-mode",
        "p-texture-mult",
        "p-texture-mult-mode",
        "p-texture-pixelate",
        "p-trailmode",
        "p-type",
        "p-uvmode",
        "p-uvparallax-scale",
        "p-uvscroll-alpha-mult",
        "p-uvscroll-no-alpha",
        "p-uvscroll-rgb",
        "p-uvscroll-rgb-clamp",
        "p-uvscroll-rgb-clamp-mult",
        "p-vec-velocity-minscale",
        "p-vec-velocity-scale",
        "p-vecalign",
        "p-xquadrot-on",
        "pass",
        "rendermode",
        "single-particle",
        "submesh-list",
        "teamcolor-correction",
        "uniformscale",
        "ChildParticleName",
        "ChildSpawnAtBone",
        "ChildEmitOnDeath",
        "p-childProb",
        "ChildParticleName%N%",
        "ChildSpawnAtBone%N%",
        "ChildEmitOnDeath%N%",
    ];
    proof {
        reveal(group_base);
        assert(strs_view(v@) =~= group_base());
    }
    v
}

/// The property names of a fluid.
#[verifier::opaque]
pub open spec fn fluid_base() -> Seq<Seq<char>> {
    seq![
        "f-accel"@,
        "f-buoyancy"@,
        "f-denseforce"@,
        "f-diffusion"@,
        "f-dissipation"@,
        "f-life"@,
        "f-initdensity"@,
        "f-movement-x"@,
        "f-movement-y"@,
        "f-viscosity"@,
        "f-startkick"@,
        "f-rate"@,
        "f-rendersize"@,
        "f-jetdir%N%"@,
        "f-jetdirdiff%N%"@,
        "f-jetpos%N%"@,
        "f-jetspeed%N%"@,
    ]
}

/// The property names of a fluid.
fn fluid_base_list() -> (r: Vec<&'static str>)
    ensures
        strs_view(r@) == fluid_base(),
{
    let v = vec![
        "f-accel",
        "f-buoyancy",
        "f-denseforce",
        "f-diffusion",
        "f-dissipation",
        "f-life",
        "f-initdensity",
        "f-movement-x",
        "f-movement-y",
        "f-viscosity",
        "f-startkick",
        "f-rate",
        "f-rendersize",
        "f-jetdir%N%",
        "f-jetdirdiff%N%",
        "f-jetpos%N%",
        "f-jetspeed%N%",
    ];
    proof {
        reveal(fluid_base);
        assert(strs_view(v@) =~= fluid_base());
    }
    v
}

/// The colour names of a group numbered to 25.
#[verifier::opaque]
pub open spec fn colour_amount_args() -> Seq<Seq<char>> {
    seq![
        "e-rgba"@,
        "p-xrgba"@,
    ]
}

/// The colour names of a group numbered to 25.
fn colour_amount_args_list() -> (r: Vec<&'static str>)
    ensures
        strs_view(r@) == colour_amount_args(),
{
    let v = vec![
        "e-rgba",
        "p-xrgba",
    ];
    proof {
        reveal(colour_amount_args);
        assert(strs_view(v@) =~= colour_amount_args());
    }
    v
}

/// The scale names of a group, with their flex names.
#[verifier::opaque]
pub open spec fn scale_flex_args() -> Seq<Seq<char>> {
    seq![
        "p-scale"@,
        "p-scaleEmitOffset"@,
    ]
}

/// The scale names of a group, with their flex names.
fn scale_flex_args_list() -> (r: Vec<&'static str>)
    ensures
        strs_view(r@) == scale_flex_args(),
{
    let v = vec![
        "p-scale",
        "p-scaleEmitOffset",
    ];
    proof {
        reveal(scale_flex_args);
        assert(strs_view(v@) =~= scale_flex_args());
    }
    v
}

/// The flexible random floats of a group.
#[verifier::opaque]
pub open spec fn flex_float_args() -> Seq<Seq<char>> {
    seq![
        "e-rate"@,
        "p-life"@,
        "p-rotvel"@,
    ]
}

/// The flexible random floats of a group.
fn flex_float_args_list() -> (r: Vec<&'static str>)
    ensures
        strs_view(r@) == flex_float_args(),
{
    let v = vec![
        "e-rate",
        "p-life",
        "p-rotvel",
    ];
    proof {
        reveal(flex_float_args);
        assert(strs_view(v@) =~= flex_float_args());
    }
    v
}

/// The flexible random 2-vectors of a group.
#[verifier::opaque]
pub open spec fn flex_vec2_args() -> Seq<Seq<char>> {
    seq![
        "e-uvoffset"@,
    ]
}

/// The flexible random 2-vectors of a group.
fn flex_vec2_args_list() -> (r: Vec<&'static str>)
    ensures
        strs_view(r@) == flex_vec2_args(),
{
    let v = vec![
        "e-uvoffset",
    ];
    proof {
        reveal(flex_vec2_args);
        assert(strs_view(v@) =~= flex_vec2_args());
    }
    v
}

/// The flexible random 3-vectors of a group.
#[verifier::opaque]
pub open spec fn flex_vec3_args() -> Seq<Seq<char>> {
    seq![
        "p-offset"@,
        "p-postoffset"@,
        "p-vel"@,
    ]
}

/// The flexible random 3-vectors of a group.
fn flex_vec3_args_list() -> (r: Vec<&'static str>)
    ensures
        strs_view(r@) == flex_vec3_args(),
{
    let v = vec![
        "p-offset",
        "p-postoffset",
        "p-vel",
    ];
    proof {
        reveal(flex_vec3_args);
        assert(strs_view(v@) =~= flex_vec3_args());
    }
    v
}

/// The random colours of a group.
#[verifier::opaque]
pub open spec fn colour_args() -> Seq<Seq<char>> {
    seq![
        "e-censor-modulate"@,
        "p-fresnel-color"@,
        "p-reflection-fresnel-color"@,
    ]
}

/// The random colours of a group.
fn colour_args_list() -> (r: Vec<&'static str>)
    ensures
        strs_view(r@) == colour_args(),
{
    let v = vec![
        "e-censor-modulate",
        "p-fresnel-color",
        "p-reflection-fresnel-color",
    ];
    proof {
        reveal(colour_args);
        assert(strs_view(v@) =~= colour_args());
    }
    v
}

/// The random floats of a group.
#[verifier::opaque]
pub open spec fn float_args() -> Seq<Seq<char>> {
    seq![
        "e-color-modulate"@,
        "e-framerate"@,
        "p-bindtoemitter"@,
        "p-life"@,
        "p-quadrot"@,
        "p-rotvel"@,
        "p-scale"@,
        "p-xquadrot"@,
        "p-xscale"@,
        "e-rate"@,
    ]
}

/// The random floats of a group.
fn float_args_list() -> (r: Vec<&'static str>)
    ensures
        strs_view(r@) == float_args(),
{
    let v = vec![
        "e-color-modulate",
        "e-framerate",
        "p-bindtoemitter",
        "p-life",
        "p-quadrot",
        "p-rotvel",
        "p-scale",
        "p-xquadrot",
        "p-xscale",
        "e-rate",
    ];
    proof {
        reveal(float_args);
        assert(strs_view(v@) =~= float_args());
    }
    v
}

/// The random 2-vectors of a group.
#[verifier::opaque]
pub open spec fn vec2_args() -> Seq<Seq<char>> {
    seq![
        "e-ratebyvel"@,
        "e-uvoffset"@,
        "e-uvoffset-mult"@,
        "p-uvscroll-rgb"@,
        "p-uvscroll-rgb-mult"@,
    ]
}

/// The random 2-vectors of a group.
fn vec2_args_list() -> (r: Vec<&'static str>)
    ensures
        strs_view(r@) == vec2_args(),
{
    let v = vec![
        "e-ratebyvel",
        "e-uvoffset",
        "e-uvoffset-mult",
        "p-uvscroll-rgb",
        "p-uvscroll-rgb-mult",
    ];
    proof {
        reveal(vec2_args);
        assert(strs_view(v@) =~= vec2_args());
    }
    v
}

/// The random 3-vectors of a group.
#[verifier::opaque]
pub open spec fn vec3_args() -> Seq<Seq<char>> {
    seq![
        "Emitter-BirthRotationalAcceleration"@,
        "Particle-Acceleration"@,
        "Particle-Drag"@,
        "Particle-Velocity"@,
        "e-tilesize"@,
        "p-accel"@,
        "p-drag"@,
        "p-offset"@,
        "p-orbitvel"@,
        "p-postoffset"@,
        "p-quadrot"@,
        "p-rotvel"@,
        "p-scale"@,
        "p-vel"@,
        "p-worldaccel"@,
        "p-xquadrot"@,
        "p-xrgba-beam-bind-distance"@,
        "p-xscale"@,
    ]
}

/// The random 3-vectors of a group.
fn vec3_args_list() -> (r: Vec<&'static str>)
    ensures
        strs_view(r@) == vec3_args(),
{
    let v = vec![
        "Emitter-BirthRotationalAcceleration",
        "Particle-Acceleration",
        "Particle-Drag",
        "Particle-Velocity",
        "e-tilesize",
        "p-accel",
        "p-drag",
        "p-offset",
        "p-orbitvel",
        "p-postoffset",
        "p-quadrot",
        "p-rotvel",
        "p-scale",
        "p-vel",
        "p-worldaccel",
        "p-xquadrot",
        "p-xrgba-beam-bind-distance",
        "p-xscale",
    ];
    proof {
        reveal(vec3_args);
        assert(strs_view(v@) =~= vec3_args());
    }
    v
}

/// The numbered rotations of a group.
#[verifier::opaque]
pub open spec fn rotation_names() -> Seq<Seq<char>> {
    seq![
        "e-rotation%N%"@,
    ]
}

/// The numbered rotations of a group.
fn rotation_names_list() -> (r: Vec<&'static str>)
    ensures
        strs_view(r@) == rotation_names(),
{
    let v = vec![
        "e-rotation%N%",
    ];
    proof {
        reveal(rotation_names);
        assert(strs_view(v@) =~= rotation_names());
    }
    v
}

/// The numbered rotation axes of a group.
#[verifier::opaque]
pub open spec fn rotation_axis_names() -> Seq<Seq<char>> {
    seq![
        "e-rotation%N%-axis"@,
    ]
}

/// The numbered rotation axes of a group.
fn rotation_axis_names_list() -> (r: Vec<&'static str>)
    ensures
        strs_view(r@) == rotation_axis_names(),
{
    let v = vec![
        "e-rotation%N%-axis",
    ];
    proof {
        reveal(rotation_axis_names);
        assert(strs_view(v@) =~= rotation_axis_names());
    }
    v
}

/// The random floats of a field.
#[verifier::opaque]
pub open spec fn field_float_args() -> Seq<Seq<char>> {
    seq![
        "f-accel"@,
        "f-drag"@,
        "f-freq"@,
        "f-frequency"@,
        "f-period"@,
        "f-radius"@,
        "f-veldelta"@,
    ]
}

/// The random floats of a field.
fn field_float_args_list() -> (r: Vec<&'static str>)
    ensures
        strs_view(r@) == field_float_args(),
{
    let v = vec![
        "f-accel",
        "f-drag",
        "f-freq",
        "f-frequency",
        "f-period",
        "f-radius",
        "f-veldelta",
    ];
    proof {
        reveal(field_float_args);
        assert(strs_view(v@) =~= field_float_args());
    }
    v
}

/// The random 3-vectors of a field.
#[verifier::opaque]
pub open spec fn field_vec3_args() -> Seq<Seq<char>> {
    seq![
        "f-accel"@,
        "f-direction"@,
        "f-pos"@,
        "f-axisfrac"@,
    ]
}

/// The random 3-vectors of a field.
fn field_vec3_args_list() -> (r: Vec<&'static str>)
    ensures
        strs_view(r@) == field_vec3_args(),
{
    let v = vec![
        "f-accel",
        "f-direction",
        "f-pos",
        "f-axisfrac",
    ];
    proof {
        reveal(field_vec3_args);
        assert(strs_view(v@) =~= field_vec3_args());
    }
    v
}

/// The modifiers of a random float.
#[verifier::opaque]
pub open spec fn float_modifiers() -> Seq<Seq<char>> {
    seq![
        "X"@,
        ""@,
    ]
}

/// The modifiers of a random float.
fn float_modifiers_list() -> (r: Vec<&'static str>)
    ensures
        strs_view(r@) == float_modifiers(),
{
    let v = vec![
        "X",
        "",
    ];
    proof {
        reveal(float_modifiers);
        assert(strs_view(v@) =~= float_modifiers());
    }
    v
}

/// The modifiers of a random 2-vector.
#[verifier::opaque]
pub open spec fn vec2_modifiers() -> Seq<Seq<char>> {
    seq![
        "X"@,
        "Y"@,
    ]
}

/// The modifiers of a random 2-vector.
fn vec2_modifiers_list() -> (r: Vec<&'static str>)
    ensures
        strs_view(r@) == vec2_modifiers(),
{
    let v = vec![
        "X",
        "Y",
    ];
    proof {
        reveal(vec2_modifiers);
        assert(strs_view(v@) =~= vec2_modifiers());
    }
    v
}

/// The modifiers of a random 3-vector.
#[verifier::opaque]
pub open spec fn vec3_modifiers() -> Seq<Seq<char>> {
    seq![
        "X"@,
        "Y"@,
        "Z"@,
    ]
}

/// The modifiers of a random 3-vector.
fn vec3_modifiers_list() -> (r: Vec<&'static str>)
    ensures
        strs_view(r@) == vec3_modifiers(),
{
    let v = vec![
        "X",
        "Y",
        "Z",
    ];
    proof {
        reveal(vec3_modifiers);
        assert(strs_view(v@) =~= vec3_modifiers());
    }
    v
}

/// The modifiers of a random colour.
#[verifier::opaque]
pub open spec fn colour_modifiers() -> Seq<Seq<char>> {
    seq![
        "R"@,
        "G"@,
        "B"@,
        "A"@,
    ]
}

/// The modifiers of a random colour.
fn colour_modifiers_list() -> (r: Vec<&'static str>)
    ensures
        strs_view(r@) == colour_modifiers(),
{
    let v = vec![
        "R",
        "G",
        "B",
        "A",
    ];
    proof {
        reveal(colour_modifiers);
        assert(strs_view(v@) =~= colour_modifiers());
    }
    v
}

/// Appends `more` to `out`.
fn extend(out: &mut Vec<String>, more: Vec<String>)
    ensures
        strings_view(final(out)@) == strings_view(old(out)@) + strings_view(more@),
{
    let mut more = more;
    let ghost m = more@;
    out.append(&mut more);
    proof {
        assert(strings_view(out@) =~= strings_view(old(out)@) + strings_view(m));
    }
}

/// The random-float names of `args`.
fn rand_float(args: &[String]) -> (r: Vec<String>)
    ensures
        strings_view(r@) == random_names_of(float_modifiers(), strings_view(args@), 10),
{
    rand_names(float_modifiers_list().as_slice(), args)
}

/// The random-2-vector names of `args`.
fn rand_vec2(args: &[String]) -> (r: Vec<String>)
    ensures
        strings_view(r@) == random_names_of(vec2_modifiers(), strings_view(args@), 10),
{
    rand_names(vec2_modifiers_list().as_slice(), args)
}

/// The random-3-vector names of `args`.
fn rand_vec3(args: &[String]) -> (r: Vec<String>)
    ensures
        strings_view(r@) == random_names_of(vec3_modifiers(), strings_view(args@), 10),
{
    rand_names(vec3_modifiers_list().as_slice(), args)
}

/// The random-colour names of `args`.
fn rand_color(args: &[String]) -> (r: Vec<String>)
    ensures
        strings_view(r@) == random_names_of(colour_modifiers(), strings_view(args@), 10),
{
    rand_names(colour_modifiers_list().as_slice(), args)
}

/// The colour-amount names of `args`.
fn rand_color_amount(args: &[String]) -> (r: Vec<String>)
    ensures
        strings_view(r@) == random_names_of(colour_modifiers(), strings_view(args@), 25),
{
    color_names(colour_modifiers_list().as_slice(), args)
}

/// The random-float names of the flex names of `args`.
fn flex_rand_float(args: &[&str]) -> (r: Vec<String>)
    ensures
        strings_view(r@) == random_names_of(float_modifiers(), flex_names_of(strs_view(args@)), 10),
{
    rand_float(flex_names(args).as_slice())
}

/// The random-2-vector names of the flex names of `args`.
fn flex_rand_vec2(args: &[&str]) -> (r: Vec<String>)
    ensures
        strings_view(r@) == random_names_of(vec2_modifiers(), flex_names_of(strs_view(args@)), 10),
{
    rand_vec2(flex_names(args).as_slice())
}

/// The random-3-vector names of the flex names of `args`.
fn flex_rand_vec3(args: &[&str]) -> (r: Vec<String>)
    ensures
        strings_view(r@) == random_names_of(vec3_modifiers(), flex_names_of(strs_view(args@)), 10),
{
    rand_vec3(flex_names(args).as_slice())
}

/// The property names of the System section.
#[verifier::opaque]
pub open spec fn system_property_names() -> Seq<Seq<char>> {
    generated(system_base(), 0, 50) + generated(material_names(), 0, 5)
}

/// The property names of the System section.
fn get_system_names() -> (r: Vec<String>)
    ensures
        strings_view(r@) == system_property_names(),
{
    reveal(system_property_names);
    let mut r = generate_list(system_base_list().as_slice(), 0, 50);
    extend(&mut r, generate_list(material_names_list().as_slice(), 0, 5));
    r
}

/// The property names of an emitter group.
#[verifier::opaque]
pub open spec fn group_property_names() -> Seq<Seq<char>> {
    generated(group_base(), 0, 10) + generated(material_names(), 0, 5) + random_names_of(
        colour_modifiers(),
        colour_amount_args(),
        25,
    ) + flex_names_of(scale_flex_args()) + random_names_of(
        float_modifiers(),
        flex_names_of(flex_float_args()),
        10,
    ) + random_names_of(vec2_modifiers(), flex_names_of(flex_vec2_args()), 10) + random_names_of(
        vec3_modifiers(),
        flex_names_of(flex_vec3_args()),
        10,
    ) + random_names_of(colour_modifiers(), colour_args(), 10) + random_names_of(
        float_modifiers(),
        float_args(),
        10,
    ) + random_names_of(vec2_modifiers(), vec2_args(), 10) + random_names_of(
        vec3_modifiers(),
        vec3_args(),
        10,
    ) + random_names_of(float_modifiers(), generated(rotation_names(), 0, 10), 10) + generated(
        rotation_axis_names(),
        0,
        10,
    ) + generated(part_field_names(), 1, 10) + part_fluid_names()
}

/// The property names of an emitter group.
fn get_group_names() -> (r: Vec<String>)
    ensures
        strings_view(r@) == group_property_names(),
{
    reveal(group_property_names);
    let mut r = generate_list(group_base_list().as_slice(), 0, 10);
    extend(&mut r, generate_list(material_names_list().as_slice(), 0, 5));
    extend(&mut r, rand_color_amount(s(colour_amount_args_list().as_slice()).as_slice()));
    extend(&mut r, flex_names(scale_flex_args_list().as_slice()));
    extend(&mut r, flex_rand_float(flex_float_args_list().as_slice()));
    extend(&mut r, flex_rand_vec2(flex_vec2_args_list().as_slice()));
    extend(&mut r, flex_rand_vec3(flex_vec3_args_list().as_slice()));
    extend(&mut r, rand_color(s(colour_args_list().as_slice()).as_slice()));
    extend(&mut r, rand_float(s(float_args_list().as_slice()).as_slice()));
    extend(&mut r, rand_vec2(s(vec2_args_list().as_slice()).as_slice()));
    extend(&mut r, rand_vec3(s(vec3_args_list().as_slice()).as_slice()));
    extend(&mut r, rand_float(generate_list(rotation_names_list().as_slice(), 0, 10).as_slice()));
    extend(&mut r, generate_list(rotation_axis_names_list().as_slice(), 0, 10));
    extend(&mut r, generate_list(part_field_names_list().as_slice(), 1, 10));
    extend(&mut r, s(part_fluid_names_list().as_slice()));
    r
}

/// The property names of a field.
#[verifier::opaque]
pub open spec fn field_property_names() -> Seq<Seq<char>> {
    field_names_base() + random_names_of(float_modifiers(), field_float_args(), 10)
        + random_names_of(vec3_modifiers(), field_vec3_args(), 10)
}

/// The property names of a field.
fn get_field_names() -> (r: Vec<String>)
    ensures
        strings_view(r@) == field_property_names(),
{
    reveal(field_property_names);
    let mut r = s(field_names_base_list().as_slice());
    extend(&mut r, rand_float(s(field_float_args_list().as_slice()).as_slice()));
    extend(&mut r, rand_vec3(s(field_vec3_args_list().as_slice()).as_slice()));
    r
}

/// The property names of a fluid.
#[verifier::opaque]
pub open spec fn fluid_property_names() -> Seq<Seq<char>> {
    generated(fluid_base(), 0, 4)
}

/// The property names of a fluid.
fn get_fluid_names() -> (r: Vec<String>)
    ensures
        strings_view(r@) == fluid_property_names(),
{
    reveal(fluid_property_names);
    generate_list(fluid_base_list().as_slice(), 0, 4)
}

/// A hash map's entries as character sequences.
pub open spec fn map_view(m: Map<u32, (String, String)>) -> Map<u32, (Seq<char>, Seq<char>)> {
    m.map_values(|v: (String, String)| (v.0@, v.1@))
}

/// `m` with each hash of `entries`, in order, mapped to its section and
/// name unless it is mapped already: the first pair to take a hash keeps it.
pub open spec fn insert_firsts(
    m: Map<u32, (Seq<char>, Seq<char>)>,
    entries: Seq<(Seq<char>, Seq<char>, u32)>,
) -> Map<u32, (Seq<char>, Seq<char>)>
    decreases entries.len(),
{
    if entries.len() == 0 {
        m
    } else {
        let before = insert_firsts(m, entries.drop_last());
        let e = entries.last();
        if before.contains_key(e.2) {
            before
        } else {
            before.insert(e.2, (e.0, e.1))
        }
    }
}

/// Inserting two runs of entries is inserting the first, then the second.
pub(crate) proof fn lemma_insert_firsts_concat(
    m: Map<u32, (Seq<char>, Seq<char>)>,
    a: Seq<(Seq<char>, Seq<char>, u32)>,
    b: Seq<(Seq<char>, Seq<char>, u32)>,
)
    ensures
        insert_firsts(m, a + b) == insert_firsts(insert_firsts(m, a), b),
    decreases b.len(),
{
    if b.len() == 0 {
        assert(a + b =~= a);
    } else {
        lemma_insert_firsts_concat(m, a, b.drop_last());
        assert((a + b).drop_last() =~= a + b.drop_last());
        assert((a + b).last() == b.last());
    }
}

/// Maps each hash of `entries` not mapped yet to its section and name.
fn add_entries(map: &mut HashMap<u32, (String, String)>, entries: Vec<(String, String, u32)>)
    ensures
        map_view(final(map)@) == insert_firsts(map_view(old(map)@), entries_view(entries@)),
{
    broadcast use vstd::std_specs::hash::group_hash_axioms;

    let ghost ev = entries_view(entries@);
    let mut i: usize = 0;
    proof {
        assert(ev.subrange(0, 0) =~= Seq::<(Seq<char>, Seq<char>, u32)>::empty());
    }
    while i < entries.len()
        invariant
            ev == entries_view(entries@),
            i <= entries@.len(),
            map_view(map@) == insert_firsts(map_view(old(map)@), ev.subrange(0, i as int)),
        decreases entries@.len() - i,
    {
        let (section, name, hash) = &entries[i];
        let ghost before = map@;
        proof {
            assert(ev.subrange(0, i + 1).drop_last() =~= ev.subrange(0, i as int));
            assert(ev.subrange(0, i + 1).last() == (section@, name@, *hash));
        }
        if !map.contains_key(hash) {
            map.insert(*hash, (section.clone(), name.clone()));
            proof {
                assert(map_view(map@) =~= map_view(before).insert(*hash, (section@, name@)));
            }
        }
        i = i + 1;
    }
    proof {
        assert(ev.subrange(0, entries@.len() as int) =~= ev);
    }
}

/// Maps each hash of every section and name not mapped yet.
fn add_names(map: &mut HashMap<u32, (String, String)>, sections: &[String], names: &[String])
    ensures
        map_view(final(map)@) == insert_firsts(
            map_view(old(map)@),
            hash_entries_of(strings_view(sections@), strings_view(names@)),
        ),
{
    add_entries(map, build_hash_entries(sections, names));
}

/// The triples of one section alone are that section's.
pub(crate) proof fn lemma_single_section(g: Seq<char>, names: Seq<Seq<char>>)
    ensures
        hash_entries_of(seq![g], names) == section_entries_of(g, names),
{
    let one = seq![g];
    let e = Seq::<Seq<char>>::empty();
    assert(one.drop_last() =~= e);
    assert(one.last() == g);
    assert(hash_entries_of(e, names) == Seq::<(Seq<char>, Seq<char>, u32)>::empty());
    let x = section_entries_of(g, names);
    assert(Seq::<(Seq<char>, Seq<char>, u32)>::empty() + x =~= x);
    assert(hash_entries_of(one, names) == hash_entries_of(one.drop_last(), names)
        + section_entries_of(one.last(), names));
}

/// The triples of one more section follow those of the sections before.
proof fn lemma_sections_step(
    m: Map<u32, (Seq<char>, Seq<char>)>,
    gv: Seq<Seq<char>>,
    nv: Seq<Seq<char>>,
    i: int,
)
    requires
        0 <= i < gv.len(),
    ensures
        insert_firsts(m, hash_entries_of(gv.subrange(0, i + 1), nv)) == insert_firsts(
            insert_firsts(m, hash_entries_of(gv.subrange(0, i), nv)),
            section_entries_of(gv[i], nv),
        ),
{
    assert(gv.subrange(0, i + 1).drop_last() =~= gv.subrange(0, i));
    assert(gv.subrange(0, i + 1).last() == gv[i]);
    lemma_insert_firsts_concat(m, hash_entries_of(gv.subrange(0, i), nv), section_entries_of(gv[i], nv));
}

/// Maps each hash of every group of `groups` with `names`, group by group.
fn add_per_group(map: &mut HashMap<u32, (String, String)>, groups: &[String], names: &[String])
    ensures
        map_view(final(map)@) == insert_firsts(
            map_view(old(map)@),
            hash_entries_of(strings_view(groups@), strings_view(names@)),
        ),
{
    let ghost gv = strings_view(groups@);
    let ghost nv = strings_view(names@);
    let ghost m0 = map_view(map@);
    let mut i: usize = 0;
    proof {
        assert(gv.subrange(0, 0) =~= Seq::<Seq<char>>::empty());
    }
    while i < groups.len()
        invariant
            gv == strings_view(groups@),
            nv == strings_view(names@),
            m0 == map_view(old(map)@),
            i <= groups@.len(),
            map_view(map@) == insert_firsts(m0, hash_entries_of(gv.subrange(0, i as int), nv)),
        decreases groups@.len() - i,
    {
        let one = vec![groups[i].clone()];
        proof {
            assert(strings_view(one@) =~= seq![gv[i as int]]);
            lemma_single_section(gv[i as int], nv);
            lemma_sections_step(m0, gv, nv, i as int);
        }
        add_names(map, one.as_slice(), names);
        i = i + 1;
    }
    proof {
        assert(gv.subrange(0, groups@.len() as int) =~= gv);
    }
}

/// The field and fluid entries of each group, group by group: its field
/// names, then its fluid names.
pub open spec fn field_and_fluid_entries(
    groups: Seq<Seq<char>>,
    fields: Seq<Seq<char>>,
    fluids: Seq<Seq<char>>,
) -> Seq<(Seq<char>, Seq<char>, u32)>
    decreases groups.len(),
{
    if groups.len() == 0 {
        Seq::empty()
    } else {
        field_and_fluid_entries(groups.drop_last(), fields, fluids) + section_entries_of(
            groups.last(),
            fields,
        ) + section_entries_of(groups.last(), fluids)
    }
}

/// One more group's field and fluid triples follow those of the groups
/// before.
proof fn lemma_fields_and_fluids_step(
    m: Map<u32, (Seq<char>, Seq<char>)>,
    gv: Seq<Seq<char>>,
    fields: Seq<Seq<char>>,
    fluids: Seq<Seq<char>>,
    i: int,
)
    requires
        0 <= i < gv.len(),
    ensures
        insert_firsts(m, field_and_fluid_entries(gv.subrange(0, i + 1), fields, fluids))
            == insert_firsts(
            insert_firsts(
                insert_firsts(m, field_and_fluid_entries(gv.subrange(0, i), fields, fluids)),
                section_entries_of(gv[i], fields),
            ),
            section_entries_of(gv[i], fluids),
        ),
{
    let f = field_and_fluid_entries(gv.subrange(0, i), fields, fluids);
    let a = section_entries_of(gv[i], fields);
    let b = section_entries_of(gv[i], fluids);
    assert(gv.subrange(0, i + 1).drop_last() =~= gv.subrange(0, i));
    assert(gv.subrange(0, i + 1).last() == gv[i]);
    lemma_insert_firsts_concat(m, f, a);
    lemma_insert_firsts_concat(m, f + a, b);
}

/// Maps each hash of each group's field names, then its fluid names, group
/// by group.
fn add_fields_and_fluids(
    map: &mut HashMap<u32, (String, String)>,
    groups: &[String],
    fields: &[String],
    fluids: &[String],
)
    ensures
        map_view(final(map)@) == insert_firsts(
            map_view(old(map)@),
            field_and_fluid_entries(strings_view(groups@), strings_view(fields@), strings_view(fluids@)),
        ),
{
    let ghost gv = strings_view(groups@);
    let ghost fv = strings_view(fields@);
    let ghost uv = strings_view(fluids@);
    let ghost m0 = map_view(map@);
    let mut i: usize = 0;
    proof {
        assert(gv.subrange(0, 0) =~= Seq::<Seq<char>>::empty());
    }
    while i < groups.len()
        invariant
            gv == strings_view(groups@),
            fv == strings_view(fields@),
            uv == strings_view(fluids@),
            m0 == map_view(old(map)@),
            i <= groups@.len(),
            map_view(map@) == insert_firsts(m0, field_and_fluid_entries(gv.subrange(0, i as int), fv, uv)),
        decreases groups@.len() - i,
    {
        let one = vec![groups[i].clone()];
        proof {
            assert(strings_view(one@) =~= seq![gv[i as int]]);
            lemma_single_section(gv[i as int], fv);
            lemma_single_section(gv[i as int], uv);
            lemma_fields_and_fluids_step(m0, gv, fv, uv, i as int);
        }
        add_names(map, one.as_slice(), fields);
        add_names(map, one.as_slice(), fluids);
        i = i + 1;
    }
    proof {
        assert(gv.subrange(0, groups@.len() as int) =~= gv);
    }
}

/// The section name `System`.
pub open spec fn system_section() -> Seq<char> {
    "System"@
}

/// The fallback group sections `GroupPart0` to `GroupPart49`.
pub open spec fn group_part_sections() -> Seq<Seq<char>> {
    Seq::new(50, |i: int| "GroupPart"@ + decimal(i as nat))
}

/// The `(section, name, hash)` triples the hash map is built from, in the
/// order they claim their hashes: the System names; each group's names,
/// then the fallback groups'; each group's field sub-groups; the fallback
/// groups' field, then fluid names; then each group's field and fluid names.
pub open spec fn dictionary_entries(groups: Seq<Seq<char>>) -> Seq<(Seq<char>, Seq<char>, u32)> {
    hash_entries_of(seq![system_section()], system_property_names()) + hash_entries_of(groups, group_property_names())
        + hash_entries_of(group_part_sections(), group_property_names()) + hash_entries_of(
        groups,
        generated(part_field_names(), 1, 10),
    ) + hash_entries_of(group_part_sections(), field_property_names()) + hash_entries_of(
        group_part_sections(),
        fluid_property_names(),
    ) + field_and_fluid_entries(groups, field_property_names(), fluid_property_names())
}

/// The fallback group sections `GroupPart0` to `GroupPart49`.
fn group_part_section_names() -> (r: Vec<String>)
    ensures
        strings_view(r@) == group_part_sections(),
{
    let prefix = "GroupPart";
    let mut out: Vec<String> = Vec::new();
    let mut i: usize = 0;
    while i < 50
        invariant
            i <= 50,
            prefix@ == "GroupPart"@,
            strings_view(out@) == group_part_sections().subrange(0, i as int),
        decreases 50 - i,
    {
        let mut name = String::from_str(prefix);
        assert(name@ == prefix@);
        let number = decimal_string(i);
        assert(number@ == decimal(i as nat));
        name.append(number.as_str());
        assert(name@ == prefix@ + decimal(i as nat));
        let ghost prev = out@;
        out.push(name);
        proof {
            assert(prefix@ == "GroupPart"@);
            assert(name@ == "GroupPart"@ + decimal(i as nat));
            assert(strings_view(out@) =~= strings_view(prev).push(name@));
            assert(group_part_sections()[i as int] == name@);
            assert(strings_view(out@) =~= group_part_sections().subrange(0, i + 1));
        }
        i = i + 1;
    }
    proof {
        assert(group_part_sections().subrange(0, 50) =~= group_part_sections());
    }
    out
}

/// Build a complete hash → `(section, field_name)` resolution map.
///
/// `group_names` are the emitter names of the System section (see
/// [`extract_group_names`]). Each hash resolves to the first pair of the
/// dictionary, in [`dictionary_entries`] order, that hashes to it.
pub fn build_hash_map(group_names: &[String]) -> (r: HashMap<u32, (String, String)>)
    ensures
        map_view(r@) == insert_firsts(Map::empty(), dictionary_entries(strings_view(group_names@))),
{
    broadcast use vstd::std_specs::hash::group_hash_axioms;

    let ghost gv = strings_view(group_names@);
    let group_field_names = get_group_names();
    let field_names = get_field_names();
    let fluid_names = get_fluid_names();
    let mut map: HashMap<u32, (String, String)> = HashMap::new();
    let ghost m0 = map_view(map@);
    proof {
        assert(m0 =~= Map::<u32, (Seq<char>, Seq<char>)>::empty());
    }
    let system = vec![String::from_str("System")];
    proof {
        assert(strings_view(system@) =~= seq![system_section()]);
    }
    add_names(&mut map, system.as_slice(), get_system_names().as_slice());
    let ghost e1 = hash_entries_of(seq![system_section()], system_property_names());
    add_per_group(&mut map, group_names, group_field_names.as_slice());
    let ghost e2 = hash_entries_of(gv, group_property_names());
    let gpart_sections = group_part_section_names();
    add_names(&mut map, gpart_sections.as_slice(), group_field_names.as_slice());
    let ghost e3 = hash_entries_of(group_part_sections(), group_property_names());
    let field_subgroup_names = generate_list(part_field_names_list().as_slice(), 1, 10);
    add_per_group(&mut map, group_names, field_subgroup_names.as_slice());
    let ghost e4 = hash_entries_of(gv, generated(part_field_names(), 1, 10));
    add_names(&mut map, gpart_sections.as_slice(), field_names.as_slice());
    let ghost e5 = hash_entries_of(group_part_sections(), field_property_names());
    add_names(&mut map, gpart_sections.as_slice(), fluid_names.as_slice());
    let ghost e6 = hash_entries_of(group_part_sections(), fluid_property_names());
    let ghost m6 = map_view(map@);
    add_fields_and_fluids(&mut map, group_names, field_names.as_slice(), fluid_names.as_slice());
    proof {
        let e7 = field_and_fluid_entries(gv, field_property_names(), fluid_property_names());
        lemma_insert_firsts_concat(m0, e1, e2);
        lemma_insert_firsts_concat(m0, e1 + e2, e3);
        lemma_insert_firsts_concat(m0, e1 + e2 + e3, e4);
        lemma_insert_firsts_concat(m0, e1 + e2 + e3 + e4, e5);
        lemma_insert_firsts_concat(m0, e1 + e2 + e3 + e4 + e5, e6);
        lemma_insert_firsts_concat(m0, e1 + e2 + e3 + e4 + e5 + e6, e7);
    }
    map
}

/// Resolve a single hash using a pre-built map.
pub fn resolve_hash<'a>(hash: u32, map: &'a HashMap<u32, (String, String)>) -> (r: Option<(&'a str, &'a str)>)
    ensures
        r is Some <==> map@.contains_key(hash),
        r matches Some((section, field)) ==> section@ == map@[hash].0@ && field@ == map@[hash].1@,
{
    broadcast use vstd::std_specs::hash::group_hash_axioms;

    match map.get(&hash) {
        Some(pair) => Some((pair.0.as_str(), pair.1.as_str())),
        None => None,
    }
}

/// Whether `s` starts with `p`.
pub open spec fn starts_with(s: Seq<char>, p: Seq<char>) -> bool {
    p.len() <= s.len() && s.subrange(0, p.len() as int) == p
}

/// Whether `p` occurs at `i` of `s`.
pub open spec fn occurs_at(s: Seq<char>, p: Seq<char>, i: int) -> bool {
    0 <= i && i + p.len() <= s.len() && s.subrange(i, i + p.len()) == p
}

/// Whether `p` occurs in `s`.
pub open spec fn contains(s: Seq<char>, p: Seq<char>) -> bool {
    exists|i: int| occurs_at(s, p, i)
}

/// Whether a System property names an emitter group: `GroupPartN`, not
/// `GroupPartNType` nor `GroupPartNImportance`.
pub open spec fn names_group(name: Seq<char>) -> bool {
    &&& starts_with(name, "GroupPart"@)
    &&& !contains(name, "Type"@)
    &&& !contains(name, "Importance"@)
    &&& !(name.len() > 0 && name[0] == '\'')
}

/// Whether `p` occurs in `s`.
fn contains_str(s: &str, p: &str) -> (r: bool)
    ensures
        r == contains(s@, p@),
{
    let sc = crate::text::chars_of(s);
    let pc = crate::text::chars_of(p);
    let n = sc.len();
    let m = pc.len();
    if m > n {
        proof {
            assert forall|i: int| !#[trigger] occurs_at(s@, p@, i) by {}
        }
        return false;
    }
    let mut i: usize = 0;
    while i <= n - m
        invariant
            sc@ == s@,
            pc@ == p@,
            n == s@.len(),
            m == p@.len(),
            m <= n,
            forall|j: int| 0 <= j < i ==> !#[trigger] occurs_at(s@, p@, j),
        decreases n - m + 1 - i,
    {
        let mut k: usize = 0;
        while k < m && sc[i + k] == pc[k]
            invariant
                sc@ == s@,
                pc@ == p@,
                n == s@.len(),
                m == p@.len(),
                i + m <= n,
                k <= m,
                forall|t: int| 0 <= t < k ==> sc@[i + t] == pc@[t],
            decreases m - k,
        {
            k = k + 1;
        }
        if k == m {
            proof {
                assert(s@.subrange(i as int, i + m) =~= p@);
                assert(occurs_at(s@, p@, i as int));
            }
            return true;
        }
        proof {
            assert(sc@[i + k] != pc@[k as int]);
            assert(s@.subrange(i as int, i + m)[k as int] != p@[k as int]);
        }
        i = i + 1;
    }
    proof {
        assert forall|j: int| !#[trigger] occurs_at(s@, p@, j) by {
            if j > n - m {
                assert(j + m > n);
            }
        }
    }
    false
}

/// Whether `s` starts with `p`.
fn starts_with_str(s: &str, p: &str) -> (r: bool)
    ensures
        r == starts_with(s@, p@),
{
    let sc = crate::text::chars_of(s);
    let pc = crate::text::chars_of(p);
    if pc.len() > sc.len() {
        return false;
    }
    let mut k: usize = 0;
    while k < pc.len()
        invariant
            sc@ == s@,
            pc@ == p@,
            p@.len() <= s@.len(),
            k <= p@.len(),
            forall|t: int| 0 <= t < k ==> sc@[t] == pc@[t],
        decreases p@.len() - k,
    {
        if sc[k] != pc[k] {
            proof {
                assert(s@.subrange(0, p@.len() as int)[k as int] != p@[k as int]);
            }
            return false;
        }
        k = k + 1;
    }
    proof {
        assert(s@.subrange(0, p@.len() as int) =~= p@);
    }
    true
}

/// Whether the System property `name` names an emitter group.
fn is_group_part(name: &str) -> (r: bool)
    ensures
        r == names_group(name@),
{
    let group_part = "GroupPart";
    let kind = "Type";
    let importance = "Importance";
    if !starts_with_str(name, group_part) || contains_str(name, kind) || contains_str(name, importance) {
        return false;
    }
    let chars = crate::text::chars_of(name);
    !(chars.len() > 0 && chars[0] == '\'')
}

/// The characters of `t`, each byte taken as the character of that number.
pub open spec fn latin1(t: Seq<u8>) -> Seq<char> {
    t.map_values(|b: u8| b as char)
}

/// `char::to_string`: the one-character string of `c`.
///
/// Claims: the string holds `c` alone, as the standard library documents.
#[verifier::external_body]
fn char_string(c: char) -> (r: String)
    ensures
        r@ == seq![c],
{
    c.to_string()
}

/// The string of `t`'s bytes, each taken as the character of that number.
fn latin1_string(t: &[u8]) -> (r: String)
    ensures
        r@ == latin1(t@),
{
    let mut out = String::new();
    let mut i: usize = 0;
    while i < t.len()
        invariant
            i <= t@.len(),
            out@ == latin1(t@.subrange(0, i as int)),
        decreases t@.len() - i,
    {
        let c = t[i] as char;
        out.append(char_string(c).as_str());
        proof {
            assert(out@ =~= latin1(t@.subrange(0, i + 1)));
        }
        i = i + 1;
    }
    proof {
        assert(t@.subrange(0, t@.len() as int) =~= t@);
    }
    out
}

/// The non-empty strings among `entries`' records hashed `h`, in order.
pub open spec fn texts_for(entries: Seq<RawRecordView>, h: u32) -> Seq<Seq<char>>
    decreases entries.len(),
{
    if entries.len() == 0 {
        Seq::empty()
    } else {
        let prev = texts_for(entries.drop_last(), h);
        let r = entries.last();
        match r.value {
            RawValueView::Text(t) => if r.hash == h && t.len() > 0 {
                prev.push(latin1(t))
            } else {
                prev
            },
            _ => prev,
        }
    }
}

/// For each System triple of `system` that names a group, the strings of
/// `entries` stored under its hash.
pub open spec fn group_candidates(
    system: Seq<(Seq<char>, Seq<char>, u32)>,
    entries: Seq<RawRecordView>,
) -> Seq<Seq<char>>
    decreases system.len(),
{
    if system.len() == 0 {
        Seq::empty()
    } else {
        let prev = group_candidates(system.drop_last(), entries);
        let e = system.last();
        if names_group(e.1) {
            prev + texts_for(entries, e.2)
        } else {
            prev
        }
    }
}

/// Each item of `s` at its first occurrence, in order.
pub open spec fn first_occurrences(s: Seq<Seq<char>>) -> Seq<Seq<char>>
    decreases s.len(),
{
    if s.len() == 0 {
        Seq::empty()
    } else {
        let prev = first_occurrences(s.drop_last());
        if prev.contains(s.last()) {
            prev
        } else {
            prev.push(s.last())
        }
    }
}

/// The emitter group names `entries` hold.
pub open spec fn group_names_of(entries: Seq<RawRecordView>) -> Seq<Seq<char>> {
    first_occurrences(
        group_candidates(section_entries_of(system_section(), system_property_names()), entries),
    )
}

/// Whether `names` holds `name`.
pub(crate) fn holds_name(names: &Vec<String>, name: &String) -> (r: bool)
    ensures
        r == strings_view(names@).contains(name@),
{
    let mut i: usize = 0;
    while i < names.len()
        invariant
            i <= names@.len(),
            forall|j: int| 0 <= j < i ==> names@[j]@ != name@,
        decreases names@.len() - i,
    {
        if names[i] == *name {
            proof {
                assert(strings_view(names@)[i as int] == name@);
            }
            return true;
        }
        i = i + 1;
    }
    proof {
        if strings_view(names@).contains(name@) {
            let j = choose|j: int| 0 <= j < strings_view(names@).len() && strings_view(names@)[j] == name@;
            assert(names@[j]@ == name@);
        }
    }
    false
}

/// Extract emitter group names from raw records.
///
/// Looks for System `GroupPartN` records whose values are strings: these
/// are the emitter names used as section names for their properties. Each
/// name is kept once, where it first turns up.
pub fn extract_group_names(entries: &[RawRecord]) -> (r: Vec<String>)
    ensures
        strings_view(r@) == group_names_of(records_view(entries@)),
{
    let ghost rs = records_view(entries@);
    let system = vec![String::from_str("System")];
    let system_names = get_system_names();
    let system_hashes = build_hash_entries(system.as_slice(), system_names.as_slice());
    let ghost sys = section_entries_of(system_section(), system_property_names());
    proof {
        assert(strings_view(system@) =~= seq![system_section()]);
        lemma_single_section(system_section(), system_property_names());
    }
    let mut group_names: Vec<String> = Vec::new();
    let mut k: usize = 0;
    proof {
        assert(sys.subrange(0, 0) =~= Seq::<(Seq<char>, Seq<char>, u32)>::empty());
    }
    while k < system_hashes.len()
        invariant
            rs == records_view(entries@),
            entries_view(system_hashes@) == sys,
            k <= system_hashes@.len(),
            strings_view(group_names@) == first_occurrences(group_candidates(sys.subrange(0, k as int), rs)),
        decreases system_hashes@.len() - k,
    {
        let name = &system_hashes[k].1;
        let hash = system_hashes[k].2;
        let ghost before = group_candidates(sys.subrange(0, k as int), rs);
        proof {
            assert(sys.subrange(0, k + 1).drop_last() =~= sys.subrange(0, k as int));
            assert(sys.subrange(0, k + 1).last() == sys[k as int]);
            assert(sys[k as int] == (system_hashes@[k as int].0@, name@, hash));
        }
        if is_group_part(name.as_str()) {
            let mut j: usize = 0;
            proof {
                assert(before + texts_for(rs.subrange(0, 0), hash) =~= before);
            }
            while j < entries.len()
                invariant
                    rs == records_view(entries@),
                    j <= entries@.len(),
                    strings_view(group_names@) == first_occurrences(
                        before + texts_for(rs.subrange(0, j as int), hash),
                    ),
                decreases entries@.len() - j,
            {
                let ghost done = before + texts_for(rs.subrange(0, j as int), hash);
                let ghost r = entries@[j as int]@;
                proof {
                    assert(rs.subrange(0, j + 1).drop_last() =~= rs.subrange(0, j as int));
                    assert(rs.subrange(0, j + 1).last() == r);
                }
                let mut pushed = false;
                if entries[j].hash == hash {
                    match &entries[j].value {
                        RawValue::Text(t) => {
                            if t.len() > 0 {
                                let s = latin1_string(t.as_slice());
                                proof {
                                    assert(r.value == RawValueView::Text(t@));
                                    assert(texts_for(rs.subrange(0, j + 1), hash) == texts_for(
                                        rs.subrange(0, j as int),
                                        hash,
                                    ).push(latin1(t@)));
                                    assert(before + texts_for(rs.subrange(0, j + 1), hash) =~= done.push(
                                        s@,
                                    ));
                                    assert(done.push(s@).drop_last() =~= done);
                                    assert(done.push(s@).last() == s@);
                                }
                                pushed = true;
                                if !holds_name(&group_names, &s) {
                                    let ghost prev = group_names@;
                                    group_names.push(s);
                                    proof {
                                        assert(strings_view(group_names@) =~= strings_view(prev).push(
                                            s@,
                                        ));
                                    }
                                }
                            }
                        },
                        _ => {},
                    }
                }
                proof {
                    if !pushed {
                        assert(texts_for(rs.subrange(0, j + 1), hash) == texts_for(
                            rs.subrange(0, j as int),
                            hash,
                        ));
                        assert(before + texts_for(rs.subrange(0, j + 1), hash) == done);
                    }
                }
                j = j + 1;
            }
            proof {
                assert(rs.subrange(0, entries@.len() as int) =~= rs);
            }
        }
        k = k + 1;
    }
    proof {
        assert(sys.subrange(0, system_hashes@.len() as int) =~= sys);
    }
    group_names
}

/// Builds the hash map for `entries`, with the group names they hold.
pub fn resolve_entries(entries: &[RawRecord]) -> (r: HashMap<u32, (String, String)>)
    ensures
        map_view(r@) == insert_firsts(
            Map::empty(),
            dictionary_entries(group_names_of(records_view(entries@))),
        ),
{
    let group_names = extract_group_names(entries);
    build_hash_map(group_names.as_slice())
}

} // verus!
