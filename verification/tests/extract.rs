use std::collections::{HashMap, HashSet};
use std::sync::Arc;

use ltk::wad::extract::{flat_name, flat_suffixed};
use ltk::wad::{
    base_name, chunk_hash_of, claim_names, hashed_name, ltk_name, recovery_plan, settle_name, ClaimedPaths, DirectoryPaths,
    NamingPolicy, NoResolver, PathResolver, RecoveredNames,
};

fn wad_hash(path: &str) -> u64 {
    xxhash_rust::xxh64::xxh64(path.to_lowercase().as_bytes(), 0)
}

fn names(entries: &[(u64, &str)]) -> HashMap<u64, String> {
    entries
        .iter()
        .map(|(hash, path)| (*hash, (*path).to_owned()))
        .collect()
}

/// A string as a bin writes it: a little-endian `u16` length and the bytes.
fn bin_string(out: &mut Vec<u8>, text: &str) {
    out.extend_from_slice(&(text.len() as u16).to_le_bytes());
    out.extend_from_slice(text.as_bytes());
}

fn bin_with(paths: &[&str]) -> Vec<u8> {
    let mut out = b"PROP".to_vec();
    out.extend_from_slice(&2u32.to_le_bytes());
    out.extend_from_slice(&(paths.len() as u32).to_le_bytes());
    for path in paths {
        bin_string(&mut out, path);
    }
    out.extend_from_slice(&[0x00, 0x01, 0x02, 0x03]);
    out
}

fn paths(list: &[&str]) -> Vec<String> {
    list.iter().map(|p| (*p).to_owned()).collect()
}

#[test]
fn no_resolver_names_nothing() {
    assert_eq!(NoResolver.resolve(0x0123456789abcdef), None);
    assert!(!NoResolver.is_known(0x0123456789abcdef));
}

#[test]
fn a_hash_map_is_a_resolver() {
    let resolver = names(&[(0x1234, "assets/test.bin")]);

    assert_eq!(resolver.resolve(0x1234).as_deref(), Some("assets/test.bin"));
    assert_eq!(resolver.resolve(0x5678), None);
    assert!(resolver.is_known(0x1234));
    assert!(!resolver.is_known(0x5678));
}

#[test]
fn references_boxes_and_arcs_of_a_resolver_are_resolvers() {
    let map = names(&[(0x1, "one")]);
    let by_ref = &map;
    let boxed: Box<HashMap<u64, String>> = Box::new(map.clone());
    let shared: Arc<HashMap<u64, String>> = Arc::new(map.clone());

    assert_eq!(by_ref.resolve(0x1).as_deref(), Some("one"));
    assert!(by_ref.is_known(0x1));
    assert!(!by_ref.is_known(0x2));
    assert_eq!(PathResolver::resolve(&boxed, 0x1).as_deref(), Some("one"));
    assert!(PathResolver::is_known(&boxed, 0x1));
    assert!(!PathResolver::is_known(&boxed, 0x2));
    assert_eq!(PathResolver::resolve(&shared, 0x1).as_deref(), Some("one"));
    assert!(PathResolver::is_known(&shared, 0x1));
    assert!(!PathResolver::is_known(&shared, 0x2));
}

#[test]
fn the_default_batch_answers_each_hash_through_resolve() {
    let resolver = names(&[(0x1, "one"), (0x3, "three")]);
    let asked = [0x1, 0x2, 0x3];

    let resolved = resolver.resolve_all(&asked);

    assert_eq!(resolved, [Some("one".to_owned()), None, Some("three".to_owned())]);
}

#[test]
fn no_resolver_answers_a_batch_with_a_miss_per_hash() {
    let resolved = NoResolver.resolve_all(&[0x1, 0x2]);

    assert_eq!(resolved, [None, None]);
}

#[test]
fn the_layered_resolver_reads_recovered_names_first() {
    let (found, known, neither) = (0x1234u64, 0x5678u64, 0x9abcu64);
    let mut recovered = RecoveredNames::default();
    recovered.names.insert(found, "assets/found.dds".into());
    let mut fallback: HashMap<u64, String> = HashMap::new();
    fallback.insert(known, "assets/known.dds".into());

    assert_eq!(recovered.resolve(found).as_deref(), Some("assets/found.dds"));
    assert_eq!(recovered.resolve(known), None);

    let layered = recovered.over(&fallback);

    assert_eq!(layered.resolve(found).as_deref(), Some("assets/found.dds"));
    assert_eq!(layered.resolve(known).as_deref(), Some("assets/known.dds"));
    assert_eq!(layered.resolve(neither), None);
    assert!(layered.is_known(found));
    assert!(layered.is_known(known));
    assert!(!layered.is_known(neither));
}

#[test]
fn recovered_names_count_and_look_up_what_they_hold() {
    let mut recovered = RecoveredNames::new();
    assert!(recovered.is_empty());
    assert_eq!(recovered.len(), 0);
    recovered.names.insert(0x42, "assets/a.dds".into());
    assert_eq!(recovered.get(0x42), Some("assets/a.dds"));
    assert_eq!(recovered.get(0x43), None);
    assert_eq!(recovered.len(), 1);
    assert!(!recovered.is_empty());
}

#[test]
fn a_bin_names_only_the_unknown_chunks_it_links_and_the_first_name_stays() {
    let asset = "ASSETS/Characters/Foo/Recovered.dds";
    let other = "assets/other.dds";
    let data = bin_with(&[asset, other, "assets/characters/foo/recovered.dds"]);
    let unknown: HashSet<u64> = [wad_hash(asset)].into_iter().collect();
    let mut found: HashMap<u64, String> = HashMap::new();

    claim_names(&mut found, &data, &unknown);

    assert_eq!(found.len(), 1);
    assert_eq!(found.get(&wad_hash(asset)).map(String::as_str), Some(asset));
    assert!(!found.contains_key(&wad_hash(other)));
}

#[test]
fn a_recovery_plan_splits_unknown_chunks_from_named_bins() {
    let resolver = names(&[(0x1, "data/test.bin"), (0x2, "assets/a.dds"), (0x3, "DATA/Other.BIN")]);

    let (unknown, bins) = recovery_plan(&resolver, &[0x1, 0x2, 0x4, 0x3, 0x5]);

    let expected: HashSet<u64> = [0x4, 0x5].into_iter().collect();
    assert_eq!(unknown, expected);
    assert_eq!(
        bins,
        vec![(0, "data/test.bin".to_owned()), (3, "DATA/Other.BIN".to_owned())]
    );
}

#[test]
fn a_nameless_chunk_takes_its_hash_and_the_extension_its_bytes_give() {
    let hash = 0x0123456789abcdef;
    assert_eq!(hashed_name(hash, NamingPolicy::Descriptive, Some("dds")), "0123456789abcdef.dds");
    assert_eq!(hashed_name(hash, NamingPolicy::Descriptive, None), "0123456789abcdef");
    assert_eq!(hashed_name(hash, NamingPolicy::Lossless, Some("dds")), "0123456789abcdef");
    assert_eq!(base_name(hash, None, NamingPolicy::Descriptive, Some("bin")), "0123456789abcdef.bin");
    assert_eq!(base_name(hash, Some("assets/x.dds"), NamingPolicy::Descriptive, Some("bin")), "assets/x.dds");
}

#[test]
fn a_name_a_directory_holds_takes_the_suffix() {
    let directories = DirectoryPaths::of(&paths(&["x", "x/y"]));
    let hash = 0x1111;

    assert_eq!(
        settle_name("x/y", hash, NamingPolicy::Descriptive, None, &directories, false),
        ("x/y".to_owned(), false)
    );
    assert_eq!(
        settle_name("x", hash, NamingPolicy::Descriptive, None, &directories, false),
        ("x.ltk".to_owned(), true)
    );
    /* A directory already on disk moves a name too. */
    assert_eq!(
        settle_name("z", hash, NamingPolicy::Descriptive, None, &directories, true),
        ("z.ltk".to_owned(), true)
    );
}

#[test]
fn a_directory_over_the_suffixed_name_sends_the_name_to_its_hash() {
    let directories = DirectoryPaths::of(&paths(&["x", "x/y", "x.ltk/z"]));

    assert_eq!(
        settle_name("x", 0xabc, NamingPolicy::Descriptive, Some("bin"), &directories, false),
        ("0000000000000abc.bin".to_owned(), true)
    );
}

#[test]
fn a_second_claim_on_a_path_is_dropped_or_suffixed_by_policy() {
    let mut claimed = ClaimedPaths::new();
    assert_eq!(
        claimed.claim_path("a/b.bin".into(), false, 0x1, NamingPolicy::Descriptive, None),
        Some(("a/b.bin".to_owned(), false))
    );
    assert_eq!(claimed.claim_path("a//b.bin".into(), false, 0x2, NamingPolicy::Descriptive, None), None);

    let mut claimed = ClaimedPaths::new();
    let policy = NamingPolicy::Lossless;
    assert_eq!(
        claimed.claim_path("a/b.bin".into(), false, 0x1, policy, None),
        Some(("a/b.bin".to_owned(), false))
    );
    assert_eq!(
        claimed.claim_path("a/b.bin".into(), false, 0x2, policy, None),
        Some(("a/b.bin.ltk".to_owned(), true))
    );
    assert_eq!(
        claimed.claim_path("a/b.bin".into(), false, 0x3, policy, None),
        Some(("0000000000000003".to_owned(), true))
    );
    assert!(claimed.contains("a/b.bin"));
    assert!(claimed.contains("a/b.bin.ltk"));
    assert!(!claimed.contains("a/c.bin"));
}

#[test]
fn a_flat_layout_keeps_two_chunks_of_one_name_apart() {
    assert_eq!(flat_name("assets/a/icon.dds"), "icon.dds");
    assert_eq!(flat_suffixed("icon.dds", 0x2), "icon.0000000000000002.dds");
    assert_eq!(flat_suffixed("readme", 0x2), "readme.0000000000000002");

    let mut claimed = ClaimedPaths::new();
    assert_eq!(claimed.claim_flat("icon.dds".into(), false, 0x1), ("icon.dds".to_owned(), false));
    assert_eq!(
        claimed.claim_flat("icon.dds".into(), false, 0x2),
        ("icon.0000000000000002.dds".to_owned(), false)
    );
}

#[test]
fn the_order_of_the_paths_does_not_move_a_name() {
    let one = DirectoryPaths::of(&paths(&["x/y", "x", "a/b/c"]));
    let other = DirectoryPaths::of(&paths(&["a/b/c", "x", "x/y"]));
    for path in ["x", "x/y", "a", "a/b", "a/b/c", "b"] {
        assert_eq!(one.holds(path), other.holds(path), "{path}");
    }
    assert_eq!(
        settle_name("x", 0x1, NamingPolicy::Descriptive, None, &one, false),
        settle_name("x", 0x1, NamingPolicy::Descriptive, None, &other, false)
    );
}

#[test]
fn a_renamed_path_reads_back_as_the_chunk_it_was_renamed_from() {
    let name = "assets/thing.bin";
    assert_eq!(chunk_hash_of(&ltk_name(name)), chunk_hash_of(name));
    assert_eq!(chunk_hash_of(name), wad_hash(name));
}
