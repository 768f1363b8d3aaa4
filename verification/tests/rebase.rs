use std::collections::BTreeMap;

use ltk::wad::{
    EncodedChunk, Wad, WadBuilder, WadChunk, WadChunkBuilder, WadChunkCompression,
    WadRebasePlan, WadTailLayout,
};

const SKIN: &str = "assets/characters/test/skins/skin0.dds";
const VFX: &str = "assets/characters/test/particles.bin";

/// The path hash a chunk at `path` would have.
fn hash(path: &str) -> u64 {
    xxhash_rust::xxh64::xxh64(path.to_lowercase().as_bytes(), 0)
}

/// An uncompressed WAD holding `chunks` as `(path, bytes)` pairs.
fn build_wad(chunks: &[(&str, &[u8])]) -> Vec<u8> {
    let mut builder = WadBuilder::default();
    for (path, _) in chunks {
        builder = builder.with_chunk(
            WadChunkBuilder::default()
                .with_path(path)
                .with_force_compression(WadChunkCompression::Uncompressed),
        );
    }
    let by_hash: BTreeMap<u64, Vec<u8>> = chunks
        .iter()
        .map(|(path, bytes)| (hash(path), bytes.to_vec()))
        .collect();
    let data: Vec<Vec<u8>> = builder
        .ordered_paths()
        .iter()
        .map(|h| by_hash[h].clone())
        .collect();
    builder.build(&data).expect("fixture WAD builds")
}

/// The layout of a WAD the builder just wrote, whose tail is still empty.
fn layout_of(wad_bytes: &[u8]) -> (WadTailLayout, BTreeMap<u64, WadChunk>) {
    let wad = Wad::mount(wad_bytes, ()).expect("the fixture mounts");
    let chunks = wad.chunks();
    let toc_capacity = u32::try_from(chunks.len()).expect("the fixture is small");
    let data_region_offset = chunks
        .iter()
        .map(|chunk| chunk.data_offset as u64)
        .min()
        .expect("the fixture holds chunks");
    let tail_offset = chunks
        .iter()
        .map(|chunk| (chunk.data_offset + chunk.compressed_size) as u64)
        .max()
        .expect("the fixture holds chunks");
    let layout = WadTailLayout {
        data_region_offset,
        offset_delta: 0,
        tail_offset,
        toc_capacity,
    };
    let entries = chunks
        .iter()
        .map(|chunk| (chunk.path_hash, layout.shifted(chunk).expect("in range")))
        .collect();
    (layout, entries)
}

/// An encoded chunk holding `data` verbatim, stored rather than compressed.
fn stored(data: &[u8]) -> EncodedChunk {
    EncodedChunk::new(
        data.to_vec(),
        u32::try_from(data.len()).expect("the fixture is small"),
        WadChunkCompression::Uncompressed,
    )
}

#[test]
fn a_tail_written_at_a_base_offset_reads_back_as_a_wad() {
    const BASE: u64 = 4096;

    let built = build_wad(&[(SKIN, b"the original skin"), (VFX, b"the original vfx")]);
    let (layout, base_entries) = layout_of(&built);

    let mut container = vec![0xAAu8; BASE as usize];
    container.extend_from_slice(&built[..layout.tail_offset as usize]);

    let tail = [(hash(SKIN), stored(b"a differently modded skin"))];
    let plan = WadRebasePlan::tail(&layout, base_entries, &tail).expect("the plan is admissible");
    let tail_len = plan.tail_len();

    let image = plan.image();
    let report = image.report;
    /* The write: the tail past the region, the TOC over the old one. */
    let at = (BASE + layout.tail_offset) as usize;
    container.truncate(at);
    container.extend_from_slice(&image.tail);
    let toc_at = (BASE + image.chunk_count_offset) as usize;
    container[toc_at..toc_at + image.toc.len()].copy_from_slice(&image.toc);

    assert_eq!(report.tail_len, tail_len, "the plan predicted the tail length");
    assert_eq!(report.entry_count, 2);

    assert!(
        container[..BASE as usize].iter().all(|byte| *byte == 0xAA),
        "the write ran back over the container's own bytes"
    );

    let region = &container[BASE as usize..];
    let wad = Wad::mount(region, ()).expect("the region mounts");
    let chunk = *wad.chunks().get(hash(SKIN)).expect("the rebased chunk");
    let raw = &region[chunk.data_offset..chunk.data_offset + chunk.compressed_size];
    assert_eq!(
        wad.load_chunk_decompressed(&chunk, raw).unwrap().expect("it decompresses"),
        b"a differently modded skin"
    );
    let untouched = *wad.chunks().get(hash(VFX)).expect("the chunk the region still holds");
    let raw = &region[untouched.data_offset..untouched.data_offset + untouched.compressed_size];
    assert_eq!(
        wad.load_chunk_decompressed(&untouched, raw).unwrap().expect("it decompresses"),
        b"the original vfx"
    );
}

#[test]
fn a_built_wad_puts_its_toc_exactly_past_the_header() {
    let built = build_wad(&[(SKIN, b"the original skin")]);
    let (layout, _) = layout_of(&built);

    assert_eq!(
        layout.chunk_count_offset().expect("the layout is coherent"),
        268,
        "the chunk count follows the header"
    );
    assert_eq!(
        layout.toc_offset().expect("the layout is coherent"),
        272,
        "the TOC follows the chunk count"
    );
}

#[test]
fn a_tail_hash_the_base_already_holds_adds_no_entry() {
    let built = build_wad(&[(SKIN, b"the original skin"), (VFX, b"the original vfx")]);
    let (_, base_entries) = layout_of(&built);

    assert_eq!(
        WadRebasePlan::merged_entry_count(&base_entries, &[hash(SKIN)]),
        2,
        "overriding a chunk the region holds reuses its entry"
    );
    assert_eq!(
        WadRebasePlan::merged_entry_count(&base_entries, &[hash("assets/new.bin")]),
        3,
        "a hash the region does not hold needs an entry of its own"
    );
}

#[test]
fn a_rebase_image_lists_its_entries_by_hash_and_lays_the_tail_end_to_end() {
    let built = build_wad(&[(SKIN, b"the original skin"), (VFX, b"the original vfx")]);
    let (layout, base_entries) = layout_of(&built);
    let tail = [(hash(VFX), stored(b"vfx")), (hash(SKIN), stored(b"skin"))];
    let plan = WadRebasePlan::tail(&layout, base_entries, &tail).unwrap();

    let image = plan.image();

    assert_eq!(image.tail, b"vfxskin");
    assert_eq!(image.chunk_count_offset, 268);
    assert_eq!(image.toc.len(), 4 + 2 * 32);
    assert_eq!(image.toc[..4], 2u32.to_le_bytes());
    let first = WadChunk::read_v3_4(&image.toc[4..36]).unwrap();
    let second = WadChunk::read_v3_4(&image.toc[36..68]).unwrap();
    assert!(first.path_hash < second.path_hash);
    let vfx = if first.path_hash == hash(VFX) { first } else { second };
    assert_eq!(vfx.data_offset as u64, layout.tail_offset);
    assert_eq!(vfx.compressed_size, 3);
    let skin = if first.path_hash == hash(SKIN) { first } else { second };
    assert_eq!(skin.data_offset as u64, layout.tail_offset + 3);
    assert_eq!(skin.compressed_size, 4);
    assert_eq!(image.report.entry_count, 2);
    assert_eq!(image.report.tail_len, 7);
}
