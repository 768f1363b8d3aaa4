use std::io::Write;

use ltk::wad::{
    candidates, chunk_hash_of, hex_chunk_hash, is_hex_chunk_path, decompress_raw, decompress_subchunked, hex_name, is_bin_name, is_evil, ltk_name,
    plain_path, read_24_bit_subchunk_start_frame, strip_ltk_suffix,
    write_24_bit_subchunk_start_frame, EntryKind, subchunk_toc_candidates, subchunk_toc_of_candidate, ChunkDecoder, DirectoryPaths, SubchunkToc, Wad, WadBuilder,
    WadChunk, WadChunkBuilder, WadChunkCompression, WadChunks, WadSubchunk, WadTailLayout,
};

const SKIN: &str = "assets/characters/test/skins/skin0.dds";

fn frame(data: &[u8]) -> Vec<u8> {
    let mut out = Vec::new();
    ruzstd::encoding::compress(data, &mut out, ruzstd::encoding::CompressionLevel::Fastest);
    out
}

fn subchunk(compressed: &[u8], uncompressed_size: usize) -> WadSubchunk {
    WadSubchunk {
        compressed_size: compressed.len() as u32,
        uncompressed_size: uncompressed_size as u32,
        checksum: 0,
    }
}

fn record(compressed_size: u32, uncompressed_size: u32) -> WadSubchunk {
    WadSubchunk {
        compressed_size,
        uncompressed_size,
        checksum: 0,
    }
}

fn toc_bytes(records: &[WadSubchunk]) -> Vec<u8> {
    let mut data = Vec::new();
    for sub in records {
        data.extend_from_slice(&sub.compressed_size.to_le_bytes());
        data.extend_from_slice(&sub.uncompressed_size.to_le_bytes());
        data.extend_from_slice(&sub.checksum.to_le_bytes());
    }
    data
}

fn multi_chunk(start_frame: u32, frame_count: u8, sizes: (usize, usize)) -> WadChunk {
    WadChunk {
        path_hash: start_frame as u64 + 1,
        data_offset: 0,
        compressed_size: sizes.0,
        uncompressed_size: sizes.1,
        compression_type: WadChunkCompression::ZstdMulti,
        is_duplicated: false,
        frame_count,
        start_frame,
        checksum: 0,
    }
}

/// A raw run and two frames, with the raw run holding the zstd magic.
fn chunk_with_magic_in_raw() -> (Vec<u8>, Vec<WadSubchunk>, Vec<u8>) {
    let first = b"raw (\xb5/\xfdbytes with a fake frame start".to_vec();
    let second = b"the middle subchunk, compressed".repeat(20);
    let third = b"the last subchunk, compressed too".repeat(20);
    let (second_frame, third_frame) = (frame(&second), frame(&third));

    let subchunks = vec![
        subchunk(&first, first.len()),
        subchunk(&second_frame, second.len()),
        subchunk(&third_frame, third.len()),
    ];
    let raw: Vec<u8> = [first.as_slice(), &second_frame, &third_frame].concat();
    let expected: Vec<u8> = [first.as_slice(), &second, &third].concat();
    (raw, subchunks, expected)
}

fn path_hash(path: &str) -> u64 {
    WadChunkBuilder::default().with_path(path).path_hash()
}

#[test]
fn chunk_test_read_24_bit_subchunk_start_frame() {
    let start_frame = read_24_bit_subchunk_start_frame(&[0x01, 0x03, 0x02]);
    assert_eq!(start_frame, 0x010203);
}

#[test]
fn chunk_test_write_24_bit_subchunk_start_frame() {
    let writer = write_24_bit_subchunk_start_frame(0x010302);
    assert_eq!(writer, [0x01, 0x02, 0x03]);
}

#[test]
fn read_test_read_24_bit_subchunk_start_frame() {
    let start_frame = read_24_bit_subchunk_start_frame(&[0x01, 0x03, 0x02]);
    assert_eq!(start_frame, 0x010203);
}

#[test]
fn write_test_write_24_bit_subchunk_start_frame() {
    let writer = write_24_bit_subchunk_start_frame(0x010302);
    assert_eq!(writer, [0x01, 0x02, 0x03]);
}

#[test]
fn the_start_frame_reads_back_what_was_written() {
    for frame in [0u32, 1, 0xff, 0x1234, 0xabcdef, 0xff_ffff] {
        let bytes = write_24_bit_subchunk_start_frame(frame);
        assert_eq!(read_24_bit_subchunk_start_frame(&bytes), frame);
    }
}

#[test]
fn a_toc_entry_reads_back_what_was_written() {
    let chunk = WadChunk {
        path_hash: 0x0123_4567_89ab_cdef,
        data_offset: 4096,
        compressed_size: 100,
        uncompressed_size: 250,
        compression_type: WadChunkCompression::ZstdMulti,
        is_duplicated: false,
        frame_count: 3,
        start_frame: 0x01_0203,
        checksum: 0xdead_beef,
    };
    let bytes = chunk.write_v3_4();
    assert_eq!(bytes.len(), 32);
    assert_eq!(WadChunk::read_v3_4(&bytes).unwrap(), chunk);
}

#[test]
fn an_unknown_compression_code_is_refused() {
    let mut bytes = multi_chunk(0, 1, (1, 1)).write_v3_4();
    bytes[20] = 0x09;
    assert!(WadChunk::read_v3_4(&bytes).is_err());
}

#[test]
fn subchunked_rejects_sizes_that_do_not_sum() {
    let content = b"some content".repeat(10);
    let encoded = frame(&content);
    let subchunks = vec![subchunk(&encoded, content.len())];
    decompress_subchunked(&encoded, &subchunks, content.len() + 1).unwrap_err();
}

#[test]
fn subchunked_rejects_records_that_overrun_the_data() {
    let subchunks = vec![WadSubchunk {
        compressed_size: 100,
        uncompressed_size: 200,
        checksum: 0,
    }];
    decompress_subchunked(&[0u8; 10], &subchunks, 200).unwrap_err();
    ChunkDecoder::new()
        .decompress_subchunked(&[0u8; 10], &subchunks, 200)
        .unwrap_err();
}

#[test]
fn subchunked_decodes_a_raw_run_holding_the_magic() {
    let (raw, subchunks, expected) = chunk_with_magic_in_raw();

    let data = decompress_subchunked(&raw, &subchunks, expected.len()).unwrap();
    assert_eq!(&data[..], &expected[..]);

    let kept = ChunkDecoder::new()
        .decompress_subchunked(&raw, &subchunks, expected.len())
        .unwrap();
    assert_eq!(&kept[..], &expected[..]);

    /* The magic scan starts at the fake frame start and cannot decode. */
    decompress_raw(&raw, WadChunkCompression::ZstdMulti, expected.len()).unwrap_err();
}

#[test]
fn subchunked_decodes_a_raw_middle_subchunk() {
    let first = b"first, compressed".repeat(30);
    let middle = b"a raw middle".to_vec();
    let last = b"last, compressed".repeat(30);
    let (first_frame, last_frame) = (frame(&first), frame(&last));

    let subchunks = vec![
        subchunk(&first_frame, first.len()),
        subchunk(&middle, middle.len()),
        subchunk(&last_frame, last.len()),
    ];
    let raw: Vec<u8> = [first_frame.as_slice(), &middle, &last_frame].concat();
    let expected: Vec<u8> = [first.as_slice(), &middle, &last].concat();

    let data = ChunkDecoder::new()
        .decompress_subchunked(&raw, &subchunks, expected.len())
        .unwrap();
    assert_eq!(&data[..], &expected[..]);
}

#[test]
fn subchunked_prefix_reads_the_first_bytes() {
    let (raw, subchunks, expected) = chunk_with_magic_in_raw();
    let mut decoder = ChunkDecoder::new();

    /* From inside the raw run. */
    let head = decoder
        .decompress_subchunked_prefix(&raw, &subchunks, 8)
        .unwrap();
    assert_eq!(&head[..], &expected[..8]);

    /* Across the raw run into the first frame. */
    let first_len = subchunks[0].uncompressed_size as usize;
    let head = decoder
        .decompress_subchunked_prefix(&raw, &subchunks, first_len + 16)
        .unwrap();
    assert_eq!(&head[..], &expected[..first_len + 16]);
}

#[test]
fn subchunked_decode_runs_on_either_backend() {
    let content: Vec<u8> = b"league subchunk ".repeat(4);
    let frame: &[u8] = &[
        0x28, 0xb5, 0x2f, 0xfd, 0x00, 0x68, 0xc5, 0x00, 0x00, 0x88, 0x6c, 0x65, 0x61, 0x67, 0x75,
        0x65, 0x20, 0x73, 0x75, 0x62, 0x63, 0x68, 0x75, 0x6e, 0x6b, 0x20, 0x6c, 0x01, 0x00, 0x99,
        0x68, 0x2e, 0x01,
    ];
    let raw_run = b"raw (\xb5/\xfda fake frame start";
    let subchunks = [
        record(raw_run.len() as u32, raw_run.len() as u32),
        record(frame.len() as u32, content.len() as u32),
    ];
    let raw: Vec<u8> = [raw_run.as_slice(), frame].concat();
    let expected: Vec<u8> = [raw_run.as_slice(), &content].concat();

    let data = decompress_subchunked(&raw, &subchunks, expected.len()).unwrap();
    assert_eq!(&data[..], &expected[..]);

    let kept = ChunkDecoder::new()
        .decompress_subchunked(&raw, &subchunks, expected.len())
        .unwrap();
    assert_eq!(&kept[..], &expected[..]);

    let head = ChunkDecoder::new()
        .decompress_subchunked_prefix(&raw, &subchunks, expected.len())
        .unwrap();
    assert_eq!(&head[..], &expected[..]);
}

#[test]
fn parses_records_and_rejects_odd_lengths() {
    let records = [record(10, 20), record(5, 5)];
    let toc = SubchunkToc::from_bytes(&toc_bytes(&records)).unwrap();
    assert_eq!(toc.records(), records);
    assert!(toc.records()[1].is_raw());
    SubchunkToc::from_bytes(&[0u8; 17]).unwrap_err();
}

#[test]
fn subchunks_of_slices_by_frame_and_bounds() {
    let toc =
        SubchunkToc::from_bytes(&toc_bytes(&[record(1, 2), record(3, 4), record(5, 6)])).unwrap();
    let chunk = multi_chunk(1, 2, (8, 10));
    assert_eq!(
        toc.subchunks_of(&chunk),
        Some(&[record(3, 4), record(5, 6)][..])
    );
    assert_eq!(toc.subchunks_of(&multi_chunk(2, 2, (0, 0))), None);
    let mut zstd = chunk;
    zstd.compression_type = WadChunkCompression::Zstd;
    assert_eq!(toc.subchunks_of(&zstd), None);
}

#[test]
fn covers_wants_the_sums_to_match() {
    let toc = SubchunkToc::from_bytes(&toc_bytes(&[record(1, 2), record(3, 4)])).unwrap();
    let good = WadChunks::from_iter(vec![multi_chunk(0, 2, (4, 6))]);
    assert!(toc.covers(&good));
    let bad = WadChunks::from_iter(vec![multi_chunk(0, 2, (4, 7))]);
    assert!(!toc.covers(&bad));
    let out_of_range = WadChunks::from_iter(vec![multi_chunk(1, 2, (8, 10))]);
    assert!(!toc.covers(&out_of_range));
}

#[test]
fn a_layout_whose_toc_would_land_in_the_header_is_refused() {
    let smallest = WadTailLayout {
        data_region_offset: 268 + 4 + 32,
        offset_delta: 0,
        tail_offset: 4096,
        toc_capacity: 1,
    };
    assert!(
        smallest.validate().is_ok(),
        "the tightest legal layout must still be usable"
    );

    let in_the_header = WadTailLayout {
        data_region_offset: 4 + 32,
        ..smallest
    };
    assert!(
        in_the_header.validate().is_err(),
        "a region offset that leaves no room for the header must be refused"
    );
}

#[test]
fn a_layout_shifts_a_chunk_into_its_region() {
    let source = WadChunk {
        path_hash: path_hash(SKIN),
        data_offset: 8192,
        compressed_size: 512,
        uncompressed_size: 1024,
        compression_type: WadChunkCompression::Zstd,
        is_duplicated: false,
        frame_count: 3,
        start_frame: 7,
        checksum: 0xDEAD_BEEF_CAFE_BABE,
    };
    let layout = WadTailLayout {
        data_region_offset: 4096,
        offset_delta: -4096,
        tail_offset: 65536,
        toc_capacity: 1,
    };

    let shifted = layout.shifted(&source).expect("the shift is addressable");
    assert_eq!(shifted.data_offset, 4096, "the offset moved by the delta");
    assert_eq!(
        WadChunk {
            data_offset: source.data_offset,
            ..shifted
        },
        source,
        "the offset is the only field a shift touches"
    );

    let past_the_limit = WadTailLayout {
        offset_delta: i64::from(u32::MAX),
        ..layout
    };
    assert!(
        past_the_limit.shifted(&source).is_err(),
        "a chunk shifted past the addressable file must be refused"
    );
}

#[test]
fn a_layout_places_its_toc_after_the_header() {
    let layout = WadTailLayout {
        data_region_offset: 268 + 4 + 2 * 32,
        offset_delta: 0,
        tail_offset: 4096,
        toc_capacity: 2,
    };
    assert_eq!(layout.chunk_count_offset().unwrap(), 268);
    assert_eq!(layout.toc_offset().unwrap(), 272);
    assert!(layout.admits_entry_count(2));
    assert!(!layout.admits_entry_count(3));
}

#[test]
fn the_ltk_suffix_keeps_the_whole_name() {
    assert_eq!(ltk_name("myfile"), "myfile.ltk");
    assert_eq!(ltk_name("myfile.bin"), "myfile.bin.ltk");
    assert_eq!(ltk_name("myfile.tex.dds"), "myfile.tex.dds.ltk");
}

#[test]
fn the_ltk_suffix_strips_back_to_the_original_name() {
    for original in ["myfile", "myfile.bin", "texture.dds", "a.b.c"] {
        let renamed = ltk_name(original);
        assert_eq!(renamed.strip_suffix(".ltk"), Some(original), "{renamed}");
        assert_eq!(strip_ltk_suffix(&renamed), original, "{renamed}");
    }
}

#[test]
fn strip_ltk_suffix_leaves_a_plain_path_alone() {
    assert_eq!(strip_ltk_suffix("assets/thing.bin.ltk"), "assets/thing.bin");
    assert_eq!(strip_ltk_suffix("assets/thing.bin"), "assets/thing.bin");
}

fn paths(list: &[&str]) -> Vec<String> {
    list.iter().map(|p| p.to_string()).collect()
}

#[test]
fn the_directories_of_a_path_are_its_prefixes() {
    let directories = DirectoryPaths::of(&paths(&["assets/champions/aatrox.bin"]));

    assert!(directories.holds("assets"));
    assert!(directories.holds("assets/champions"));
    assert!(!directories.holds("assets/champions/aatrox.bin"));
}

#[test]
fn a_bare_name_names_no_directory() {
    let directories = DirectoryPaths::of(&paths(&["aatrox.bin"]));

    assert!(!directories.holds("aatrox.bin"));
    assert!(!directories.holds(""));
}

#[test]
fn a_backslash_names_the_same_directory_a_slash_does() {
    let from_backslashes = DirectoryPaths::of(&paths(&[r"assets\champions\aatrox.bin"]));

    assert!(from_backslashes.holds("assets/champions"));
    assert!(from_backslashes.holds(r"assets\champions"));

    let from_slashes = DirectoryPaths::of(&paths(&["assets/champions/aatrox.bin"]));
    assert!(from_slashes.holds(r"assets\champions"));
}

#[test]
fn the_components_a_join_steps_over_name_no_directory() {
    let directories = DirectoryPaths::of(&paths(&["./assets//champions/aatrox.bin"]));

    assert!(directories.holds("assets"));
    assert!(directories.holds("assets/champions"));
    assert!(directories.holds("./assets//champions"));
    assert!(!directories.holds("."));
    assert!(!directories.holds(""));
}

#[test]
fn paths_pool_the_directories_they_name() {
    let directories = DirectoryPaths::of(&paths(&["a/b/one.bin", "a/c/two.bin", "d"]));

    for held in ["a", "a/b", "a/c"] {
        assert!(directories.holds(held), "{held}");
    }
    for free in ["d", "a/b/one.bin", "a/d"] {
        assert!(!directories.holds(free), "{free}");
    }
}

#[test]
fn no_paths_name_no_directories() {
    let directories = DirectoryPaths::default();

    assert!(!directories.holds("assets"));
    assert!(!directories.holds(""));
}

#[test]
fn a_path_is_written_with_one_slash_between_its_components() {
    for (path, plain) in [
        (
            r"assets\champions\aatrox.bin",
            "assets/champions/aatrox.bin",
        ),
        ("assets//champions", "assets/champions"),
        ("./assets/champions", "assets/champions"),
        ("assets/champions/", "assets/champions"),
        (
            r"assets\champions/aatrox.bin",
            "assets/champions/aatrox.bin",
        ),
        ("./", ""),
    ] {
        assert_eq!(plain_path(path), plain, "{path}");
    }
}

#[test]
fn a_path_that_needs_no_work_comes_back_unchanged() {
    for path in ["assets/champions/aatrox.bin", "aatrox.bin", "a"] {
        assert_eq!(plain_path(path), path);
    }
}

#[test]
fn an_ordinary_path_is_not_evil() {
    for path in [
        "assets/characters/aatrox/skin0.bin",
        "a",
        "a/./b",
        "a//b",
        "a/b/",
        "assets/..bin/x...y",
        "data/NUL.bin",
        "data/COM1",
    ] {
        assert!(!is_evil(path), "{path:?} should be allowed");
    }
}

#[test]
fn an_evil_path_is_refused() {
    let bs = "\\";
    let cases = [
        ("", "empty"),
        (".", "the directory itself"),
        ("./.", "nothing but dots"),
        ("/etc/passwd", "unix root"),
        ("C:/evil.bat", "drive"),
        ("c:evil.bat", "drive relative"),
        ("..", "bare"),
        ("../evil.bat", "leading"),
        ("assets/../../evil.bat", "in the middle"),
        ("assets/..", "trailing"),
        ("data/notes.txt:stream", "data stream"),
        ("data/c:evil.bat", "drive inside a component"),
        ("data/notes.txt.", "trailing dot"),
        ("data/notes.txt ", "trailing space"),
        ("data./notes.txt", "trailing dot on a directory"),
        ("...", "bare dots"),
        (".. ", "dots and a space"),
        ("assets/.../evil.bat", "bare dots in the middle"),
    ];

    for (path, why) in cases {
        assert!(is_evil(path), "{path:?} ({why}) should be refused");
    }

    for path in [
        format!("..{bs}evil.bat"),
        format!("assets{bs}..{bs}..{bs}evil.bat"),
        format!("{bs}evil.bat"),
        format!("{bs}{bs}server{bs}share{bs}evil.bat"),
    ] {
        assert!(is_evil(&path), "{path:?} should be refused");
    }
}

fn bin_string(out: &mut Vec<u8>, text: &str) {
    out.extend_from_slice(&(text.len() as u16).to_le_bytes());
    out.extend_from_slice(text.as_bytes());
}

fn collect_candidates(data: &[u8]) -> Vec<String> {
    candidates(data)
}

#[test]
fn candidates_are_the_length_prefixed_strings() {
    let mut data = vec![0xde, 0xad];
    bin_string(&mut data, "assets/foo.dds");
    data.extend_from_slice(&[0xff, 0xfe]);
    bin_string(&mut data, "a/b.bin");
    bin_string(&mut data, "data/characters/aatrox/x.anm_ext");
    data.extend_from_slice(&[0x00, 0x00]);
    bin_string(&mut data, "noise");

    assert_eq!(
        collect_candidates(&data),
        vec![
            "assets/foo.dds".to_string(),
            "a/b.bin".to_string(),
            "data/characters/aatrox/x.anm_ext".to_string(),
        ]
    );
}

#[test]
fn a_bin_name_ends_in_bin() {
    assert!(is_bin_name("data/characters/aatrox/aatrox.bin"));
    assert!(is_bin_name("X.BIN"));
    assert!(!is_bin_name("assets/aatrox.dds"));
}

#[test]
fn hex_name_is_sixteen_lowercase_digits() {
    assert_eq!(hex_name(0xff), "00000000000000ff");
    assert_eq!(hex_name(0x0123_4567_89ab_cdef), "0123456789abcdef");
}

#[test]
fn a_path_hash_is_the_xxh64_of_the_lowercased_path() {
    let hash = path_hash("Assets/Thing.BIN");
    assert_eq!(hash, xxhash_rust::xxh64::xxh64(b"assets/thing.bin", 0));
    assert_eq!(path_hash("test1"), xxhash_rust::xxh64::xxh64(b"test1", 0));
}

#[test]
fn a_built_wad_mounts_with_its_header_and_chunks() {
    let builder = WadBuilder::default()
        .with_signature(&[0xAB; 256])
        .with_checksum(0xDEADBEEFCAFEBABE)
        .with_chunk(WadChunkBuilder::default().with_path("test1"))
        .with_chunk(WadChunkBuilder::default().with_path("test2"))
        .with_chunk(WadChunkBuilder::default().with_path("test3"));
    let data: Vec<Vec<u8>> = builder
        .ordered_paths()
        .iter()
        .map(|_| vec![0xAA; 100])
        .collect();
    let built_bytes = builder.build(&data).expect("the WAD builds");

    let wad = Wad::mount(&built_bytes, ()).expect("the WAD mounts");
    assert_eq!(wad.chunks().len(), 3);
    assert_eq!(wad.signature(), &[0xAB; 256]);
    assert_eq!(wad.checksum(), 0xDEADBEEFCAFEBABE);

    assert_eq!(built_bytes[4..260], [0xABu8; 256][..]);
    assert_eq!(built_bytes[260..268], 0xDEADBEEFCAFEBABEu64.to_le_bytes());
    let toc = &built_bytes[272..272 + 3 * 32];
    assert_eq!(wad.toc_bytes(), toc.to_vec());
    let toc_sha256: [u8; 32] = <sha2::Sha256 as sha2::Digest>::digest(toc).into();
    assert_eq!(wad.toc_sha256().unwrap(), toc_sha256);

    let hash = xxhash_rust::xxh64::xxh64(b"test1", 0);
    let chunk = *wad.chunks().get(hash).unwrap();
    assert_eq!(chunk.path_hash, hash);
    assert_eq!(chunk.compressed_size, 14);
    assert_eq!(chunk.uncompressed_size, 100);
    assert_eq!(chunk.compression_type, WadChunkCompression::Zstd);

    let raw = &built_bytes[chunk.data_offset..chunk.data_offset + chunk.compressed_size];
    let data = wad.load_chunk_decompressed(&chunk, raw).unwrap().unwrap();
    assert_eq!(data, vec![0xAA; 100]);
}

#[test]
fn a_forced_uncompressed_chunk_is_stored_as_it_is() {
    let builder = WadBuilder::default().with_chunk(
        WadChunkBuilder::default()
            .with_path(SKIN)
            .with_force_compression(WadChunkCompression::Uncompressed),
    );
    let built = builder.build(&[b"the original skin".to_vec()]).unwrap();
    let wad = Wad::mount(&built, ()).unwrap();
    let chunk = *wad.chunks().get(path_hash(SKIN)).unwrap();
    assert_eq!(chunk.compression_type, WadChunkCompression::Uncompressed);
    assert_eq!(
        &built[chunk.data_offset..chunk.data_offset + chunk.compressed_size],
        b"the original skin"
    );
}

#[test]
fn a_wwise_bank_is_left_uncompressed() {
    let builder = WadBuilder::default()
        .with_chunk(WadChunkBuilder::default().with_path("sounds/bank.bnk"));
    let built = builder.build(&[b"BKHD and the rest of a bank".to_vec()]).unwrap();
    let wad = Wad::mount(&built, ()).unwrap();
    let chunk = *wad.chunks().get(path_hash("sounds/bank.bnk")).unwrap();
    assert_eq!(chunk.compression_type, WadChunkCompression::Uncompressed);
}

#[test]
fn the_builder_refuses_a_compression_it_does_not_write() {
    let builder = WadBuilder::default().with_chunk(
        WadChunkBuilder::default()
            .with_path("x")
            .with_force_compression(WadChunkCompression::Satellite),
    );
    assert!(builder.build(&[b"data".to_vec()]).is_err());
}

#[test]
fn a_truncated_wad_does_not_mount() {
    let builder = WadBuilder::default().with_chunk(WadChunkBuilder::default().with_path("x"));
    let built = builder.build(&[b"data".to_vec()]).unwrap();
    assert!(Wad::mount(&built[..100], ()).is_err());
    let mut wrong_magic = built.clone();
    wrong_magic[0] = b'X';
    assert!(Wad::mount(&wrong_magic, ()).is_err());
}

#[test]
fn gzip_chunks_decompress_through_the_decoder() {
    let content = b"gzip content ".repeat(8);
    let mut encoder = flate2::write::GzEncoder::new(Vec::new(), flate2::Compression::default());
    encoder.write_all(&content).unwrap();
    let raw = encoder.finish().unwrap();
    let data = decompress_raw(&raw, WadChunkCompression::GZip, content.len()).unwrap();
    assert_eq!(data, content);
}

#[test]
fn test_is_hex_path() {
    assert!(is_hex_chunk_path("0123456789abcdef"));
    assert!(is_hex_chunk_path("0123456789ABCDEF"));
    assert!(is_hex_chunk_path("0123456789abcdef.bin"));

    assert!(!is_hex_chunk_path("0123456789abcde"));
    assert!(!is_hex_chunk_path("0123456789abcdefg"));
    assert!(!is_hex_chunk_path("assets/champions/aatrox.bin"));
    assert!(!is_hex_chunk_path(""));
}

#[test]
fn test_is_hex_path_with_extension() {
    assert!(is_hex_chunk_path("0123456789abcdef.bin"));
    assert!(is_hex_chunk_path("0123456789abcdef.png"));
    assert!(is_hex_chunk_path("0123456789abcdef.unknown"));
}

#[test]
fn test_is_hex_path_edge_cases() {
    assert!(is_hex_chunk_path("0000000000000000"));
    assert!(is_hex_chunk_path("ffffffffffffffff"));
    assert!(!is_hex_chunk_path("ghijklmnopqrstuv"));
    assert!(!is_hex_chunk_path("0123456789abcdeg"));
}

#[test]
fn hex_chunk_hash_reads_back_what_hex_name_wrote() {
    let hash = 0xffu64;
    let name = hex_name(hash);

    assert_eq!(name, "00000000000000ff");
    assert_eq!(hex_chunk_hash(&name), Some(hash));
    assert_eq!(hex_chunk_hash("00000000000000ff.dds"), Some(hash));
    assert_eq!(hex_chunk_hash("assets/aatrox.bin"), None);
    assert_eq!(hex_chunk_hash("00000000000ff"), None);
}

#[test]
fn chunk_hash_of_undoes_every_name_the_extraction_gives() {
    let hash = 0x0123456789abcdefu64;
    assert_eq!(chunk_hash_of("0123456789abcdef"), hash);
    assert_eq!(chunk_hash_of("0123456789abcdef.png"), hash);
    assert_eq!(chunk_hash_of("0123456789abcdef.ltk"), hash);

    let named = path_hash("assets/thing.bin");
    assert_eq!(chunk_hash_of("assets/thing.bin"), named);
    assert_eq!(chunk_hash_of("assets/thing.bin.ltk"), named);
    assert_eq!(chunk_hash_of("assets\\thing.bin"), named);
}

#[test]
fn strip_ltk_suffix_is_the_inverse_of_the_rename() {
    let path = "assets/thing.bin";
    assert_eq!(strip_ltk_suffix(&ltk_name(path)), path);
    assert_eq!(strip_ltk_suffix(path), path);
}

#[test]
fn every_hash_reads_back_from_its_hex_name() {
    for hash in [0u64, 1, 0xdead_beef, u64::MAX, 0x8000_0000_0000_0000] {
        assert_eq!(hex_chunk_hash(&hex_name(hash)), Some(hash));
        assert_eq!(chunk_hash_of(&ltk_name(&hex_name(hash))), hash);
    }
}

#[test]
fn the_subchunk_table_is_found_by_its_shape() {
    let records = [record(1, 2), record(3, 4)];
    let table_bytes = toc_bytes(&records);
    let table = WadChunk {
        path_hash: 0x99,
        data_offset: 0,
        compressed_size: table_bytes.len(),
        uncompressed_size: table_bytes.len(),
        compression_type: WadChunkCompression::Uncompressed,
        is_duplicated: false,
        frame_count: 0,
        start_frame: 0,
        checksum: 0,
    };
    let multi = multi_chunk(0, 2, (4, 6));
    let chunks = WadChunks::from_iter(vec![multi, table]);

    let candidates = subchunk_toc_candidates(&chunks);
    assert_eq!(candidates.len(), 1);
    assert_eq!(chunks.as_slice()[candidates[0]].path_hash, 0x99);

    let toc = subchunk_toc_of_candidate(&table, &table_bytes, &chunks).expect("the table describes the chunk");
    assert_eq!(toc.records(), records);

    /* Records whose sums do not match are no table for these chunks. */
    let wrong = toc_bytes(&[record(1, 2), record(3, 5)]);
    assert!(subchunk_toc_of_candidate(&table, &wrong, &chunks).is_none());

    /* Without a `ZstdMulti` chunk nothing is a candidate. */
    let plain = WadChunks::from_iter(vec![table]);
    assert!(subchunk_toc_candidates(&plain).is_empty());
}

#[test]
fn an_entry_decodes_by_its_kind() {
    let text = b"the entry's own bytes, long enough to compress".to_vec();

    assert_eq!(EntryKind::Uncompressed.decode(&text, text.len(), 8).unwrap(), text[..8].to_vec());
    assert!(EntryKind::Uncompressed.decode(&text[..4], 4, 8).is_err());

    let mut gz = flate2::write::GzEncoder::new(Vec::new(), flate2::Compression::default());
    gz.write_all(&text).unwrap();
    let gz = gz.finish().unwrap();
    assert_eq!(EntryKind::GZip.decode(&gz, gz.len(), text.len()).unwrap(), text);

    let zstd = frame(&text);
    assert_eq!(EntryKind::Zstd.decode(&zstd, zstd.len(), text.len()).unwrap(), text);
    assert!(EntryKind::Zstd.decode(&zstd, zstd.len(), text.len() + 1).is_err());

    let mut multi = b"head".to_vec();
    multi.extend_from_slice(&zstd);
    let decoded = EntryKind::ZstdMulti.decode(&multi, multi.len(), 4 + text.len()).unwrap();
    assert_eq!(&decoded[..4], b"head");
    assert_eq!(&decoded[4..], &text[..]);
    /* A stream shorter than the entry fails the read. */
    assert!(EntryKind::ZstdMulti.decode(&multi[..10], multi.len(), 4 + text.len()).is_err());
}

#[test]
fn a_wrong_magic_is_reported_in_hex() {
    match Wad::mount(b"XY\x03\x04", ()) {
        Err(ltk::wad::WadError::InvalidHeader { expected, actual }) => {
            assert_eq!(expected, "RW");
            assert_eq!(actual, "0x5958");
        }
        other => panic!("expected an invalid header, got {other:?}"),
    }
    match Wad::mount(b"\x05\x00\x03\x04", ()) {
        Err(ltk::wad::WadError::InvalidHeader { actual, .. }) => assert_eq!(actual, "0x5"),
        other => panic!("expected an invalid header, got {other:?}"),
    }
}
