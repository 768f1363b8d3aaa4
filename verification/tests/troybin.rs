use ltk::troybin::{
    build_hash_entries, build_hash_map, extract_group_names, hash_section_field, ihash,
    read_binary, read_ini, resolve_entries, resolve_hash, resolve_sections, section_field_hash,
    write_binary, write_v2, BinReader, IniEntry, RawRecord, RawValue, StorageType, TroybinError,
};

#[test]
fn test_ihash_basic() {
    let h = ihash("System", 0);
    assert_ne!(h, 0);
    assert_eq!(ihash("system", 0), h);
    assert_eq!(ihash("SYSTEM", 0), h);
}

#[test]
fn test_section_field_hash() {
    let h1 = section_field_hash("System", "GroupPart0");
    let h2 = section_field_hash("System", "GroupPart1");
    assert_ne!(h1, h2);
    assert_eq!(h1, section_field_hash("System", "GroupPart0"));
}

#[test]
fn ihash_is_the_rolling_65599_hash() {
    assert_eq!(ihash("", 7), 7);
    assert_eq!(ihash("a", 0), 'a' as u32);
    assert_eq!(ihash("ab", 0), ('a' as u32) * 65599 + 'b' as u32);
    assert_eq!(ihash("A", 1), 65599 + 'a' as u32);
}

#[test]
fn the_section_hash_runs_through_a_star() {
    let expected = ihash("GroupPart0", ihash("*", ihash("System", 0)));
    assert_eq!(section_field_hash("System", "GroupPart0"), expected);
    assert_eq!(hash_section_field("System", "GroupPart0"), expected);
}

#[test]
fn hash_entries_cover_each_name_and_its_comment() {
    let sections = vec!["System".to_string(), "Emitter".to_string()];
    let names = vec!["GroupPart0".to_string()];
    let entries = build_hash_entries(&sections, &names);
    assert_eq!(entries.len(), 4);
    assert_eq!(
        entries[0],
        (
            "System".to_string(),
            "GroupPart0".to_string(),
            section_field_hash("System", "GroupPart0")
        )
    );
    assert_eq!(
        entries[1],
        (
            "System".to_string(),
            "'GroupPart0".to_string(),
            section_field_hash("System", "'GroupPart0")
        )
    );
    assert_eq!(entries[2].0, "Emitter");
    assert_eq!(entries[3].1, "'GroupPart0");
}

#[test]
fn the_reader_reads_little_endian_values() {
    let mut reader = BinReader::new(vec![
        0x02, 0x34, 0x12, 0xfe, 0xff, 0x78, 0x56, 0x34, 0x12, 0xff, 0xff, 0xff, 0xff, 0xaa,
    ]);
    assert_eq!(reader.read_u8().unwrap(), 2);
    assert_eq!(reader.read_u16_le().unwrap(), 0x1234);
    assert_eq!(reader.read_i16_le().unwrap(), -2);
    assert_eq!(reader.read_u32_le().unwrap(), 0x1234_5678);
    assert_eq!(reader.read_i32_le().unwrap(), -1);
    assert!(reader.read_u16_le().is_err());
    assert!(reader.read_u8().is_err());
}

#[test]
fn the_reader_skips_and_reads_runs_of_bytes() {
    let mut reader = BinReader::new(vec![1, 2, 3, 4, 5]);
    reader.skip(2).unwrap();
    assert_eq!(reader.read_bytes(2).unwrap(), vec![3, 4]);
    assert!(reader.read_bytes(2).is_err());
    assert!(reader.skip(1).is_err());
}

#[test]
fn storage_types_number_as_their_flag_bits() {
    for v in 0u8..14 {
        let t = StorageType::try_from_u8(v).unwrap();
        assert_eq!(t.to_u8(), v);
    }
    assert_eq!(StorageType::try_from_u8(255).unwrap(), StorageType::OldFormat);
    assert!(StorageType::try_from_u8(14).is_err());
    assert_eq!(StorageType::U8x3Scaled.component_count(), 3);
    assert_eq!(StorageType::Float32x2.component_count(), 2);
    assert_eq!(StorageType::U8x4Scaled.component_count(), 4);
    assert_eq!(StorageType::Int32.component_count(), 1);
    assert!(StorageType::U8Scaled.is_scaled());
    assert!(!StorageType::U8.is_scaled());
}


fn record(hash: u32, storage: StorageType, value: RawValue) -> RawRecord {
    RawRecord { hash, storage, value }
}

#[test]
fn raw_round_trip_numbers() {
    let entries = vec![
        record(100, StorageType::Int32, RawValue::Components(vec![42])),
        record(200, StorageType::Float32, RawValue::Components(vec![2.78f32.to_bits()])),
        record(
            300,
            StorageType::Float32x3,
            RawValue::Components(vec![1.0f32.to_bits(), 2.0f32.to_bits(), 3.0f32.to_bits()]),
        ),
    ];
    let bytes = write_v2(&entries);
    let (version, read_back) = read_binary(&bytes).unwrap();
    assert_eq!(version, 2);
    assert_eq!(read_back, entries);
}

#[test]
fn raw_round_trip_strings() {
    let entries = vec![
        record(400, StorageType::StringBlock, RawValue::Text(b"hello.dds".to_vec())),
        record(500, StorageType::StringBlock, RawValue::Text(b"world.png".to_vec())),
    ];
    let bytes = write_v2(&entries);
    let (_, read_back) = read_binary(&bytes).unwrap();
    assert_eq!(read_back, entries);
    /* Version, strings length 20, flags with bit 12, count 2, two hashes,
    two offsets, then the strings. */
    assert_eq!(&bytes[..5], &[2, 20, 0, 0x00, 0x10]);
    assert_eq!(&bytes[5..7], &[2, 0]);
    assert_eq!(&bytes[15..19], &[0, 0, 10, 0]);
    assert_eq!(&bytes[19..], b"hello.dds\0world.png\0");
}

#[test]
fn raw_round_trip_bools() {
    let entries = vec![
        record(600, StorageType::Bool, RawValue::Flag(true)),
        record(700, StorageType::Bool, RawValue::Flag(false)),
        record(800, StorageType::Bool, RawValue::Flag(true)),
    ];
    let bytes = write_v2(&entries);
    assert_eq!(*bytes.last().unwrap(), 0b101);
    let (_, read_back) = read_binary(&bytes).unwrap();
    assert_eq!(read_back, entries);
}

#[test]
fn raw_round_trip_mixed_groups_by_block() {
    let entries = vec![
        record(40, StorageType::StringBlock, RawValue::Text(b"test.dds".to_vec())),
        record(10, StorageType::Int32, RawValue::Components(vec![7])),
        record(30, StorageType::Bool, RawValue::Flag(true)),
        record(20, StorageType::Float32, RawValue::Components(vec![1.5f32.to_bits()])),
        record(
            50,
            StorageType::Float32x2,
            RawValue::Components(vec![0.5f32.to_bits(), 0.6f32.to_bits()]),
        ),
        record(60, StorageType::U8x4Scaled, RawValue::Components(vec![1, 2, 3, 255])),
        record(70, StorageType::Int16, RawValue::Components(vec![0xfffe])),
    ];
    let bytes = write_v2(&entries);
    let (version, read_back) = read_binary(&bytes).unwrap();
    assert_eq!(version, 2);
    let hashes: Vec<u32> = read_back.iter().map(|r| r.hash).collect();
    assert_eq!(hashes, vec![10, 20, 70, 30, 50, 60, 40]);
    for r in &entries {
        assert!(read_back.contains(r));
    }
}

#[test]
fn old_format_records_are_left_out_of_v2() {
    let entries = vec![
        record(1, StorageType::OldFormat, RawValue::Text(b"1 2 3".to_vec())),
        record(2, StorageType::U8, RawValue::Components(vec![9])),
    ];
    let (_, read_back) = read_binary(&write_binary(&entries).unwrap()).unwrap();
    assert_eq!(read_back, vec![entries[1].clone()]);
}

#[test]
fn v1_cannot_be_written() {
    let entries = vec![record(1, StorageType::OldFormat, RawValue::Text(b"x".to_vec()))];
    assert!(matches!(write_binary(&entries), Err(TroybinError::V1WriteNotSupported)));
}

#[test]
fn a_v1_file_reads_its_strings() {
    let mut data = vec![1u8, 0, 0, 0];
    data.extend_from_slice(&2u32.to_le_bytes());
    data.extend_from_slice(&8u32.to_le_bytes());
    data.extend_from_slice(&0xaau32.to_le_bytes());
    data.extend_from_slice(&0u32.to_le_bytes());
    data.extend_from_slice(&0xbbu32.to_le_bytes());
    data.extend_from_slice(&4u32.to_le_bytes());
    data.extend_from_slice(b"abc\0true");
    let (version, records) = read_binary(&data).unwrap();
    assert_eq!(version, 1);
    assert_eq!(
        records,
        vec![
            record(0xaa, StorageType::OldFormat, RawValue::Text(b"abc".to_vec())),
            record(0xbb, StorageType::OldFormat, RawValue::Text(b"true".to_vec())),
        ]
    );
}

#[test]
fn unreadable_files_are_refused() {
    assert!(matches!(read_binary(&[]), Err(TroybinError::Empty)));
    assert!(matches!(read_binary(&[3]), Err(TroybinError::UnknownVersion(3))));
    assert!(matches!(read_binary(&[2, 0, 0]), Err(TroybinError::Io(_))));
    /* Flags name the i32 block, which says it holds one entry it lacks. */
    assert!(matches!(read_binary(&[2, 0, 0, 1, 0, 1, 0]), Err(TroybinError::Io(_))));
    /* With no records at all, the flags word is zero and a second one is
    expected. */
    let empty = write_v2(&[]);
    assert_eq!(empty, vec![2, 0, 0, 0, 0]);
    assert!(read_binary(&empty).is_err());
}

#[test]
fn a_zero_flags_word_is_followed_by_the_real_one() {
    let data = vec![2u8, 0, 0, 0, 0, 0x10, 0, 1, 0, 7, 0, 0, 0, 5];
    let (_, records) = read_binary(&data).unwrap();
    assert_eq!(records, vec![record(7, StorageType::U8, RawValue::Components(vec![5]))]);
}

#[test]
fn the_dictionary_resolves_system_and_group_names() {
    let map = build_hash_map(&[]);
    let h = section_field_hash("System", "GroupPart0");
    assert_eq!(resolve_hash(h, &map), Some(("System", "GroupPart0")));
    let commented = section_field_hash("System", "'GroupPart12Type");
    assert_eq!(resolve_hash(commented, &map), Some(("System", "'GroupPart12Type")));
    let life = section_field_hash("GroupPart3", "p-life");
    assert_eq!(resolve_hash(life, &map), Some(("GroupPart3", "p-life")));
    let colour = section_field_hash("GroupPart0", "e-rgbaRP24");
    assert_eq!(resolve_hash(colour, &map), Some(("GroupPart0", "e-rgbaRP24")));
    let fluid = section_field_hash("GroupPart7", "f-jetpos3");
    assert_eq!(resolve_hash(fluid, &map), Some(("GroupPart7", "f-jetpos3")));
    assert_eq!(resolve_hash(section_field_hash("Emitter", "p-life"), &map), None);
}

#[test]
fn emitter_names_become_sections() {
    let names = vec!["Flame".to_string()];
    let map = build_hash_map(&names);
    let h = section_field_hash("Flame", "p-texture");
    assert_eq!(resolve_hash(h, &map), Some(("Flame", "p-texture")));
    let field = section_field_hash("Flame", "field-accel-3");
    assert_eq!(resolve_hash(field, &map), Some(("Flame", "field-accel-3")));
    let fx = section_field_hash("Flame", "f-accelXP3");
    assert_eq!(resolve_hash(fx, &map), Some(("Flame", "f-accelXP3")));
}

fn text(hash: u32, s: &str) -> RawRecord {
    RawRecord { hash, storage: StorageType::StringBlock, value: RawValue::Text(s.as_bytes().to_vec()) }
}

#[test]
fn group_names_come_from_the_system_group_parts() {
    let entries = vec![
        text(section_field_hash("System", "GroupPart1"), "Smoke"),
        text(section_field_hash("System", "GroupPart0"), "Flame"),
        text(section_field_hash("System", "GroupPart0Type"), "Simple"),
        text(section_field_hash("System", "GroupPart2"), ""),
        text(section_field_hash("System", "GroupPart3"), "Smoke"),
    ];
    assert_eq!(extract_group_names(&entries), vec!["Flame".to_string(), "Smoke".to_string()]);
    let map = resolve_entries(&entries);
    let h = section_field_hash("Smoke", "p-life");
    assert_eq!(resolve_hash(h, &map), Some(("Smoke", "p-life")));
}

#[test]
fn records_resolve_into_sections_in_the_order_they_come() {
    let flame = section_field_hash("System", "GroupPart0");
    let life = section_field_hash("Flame", "p-life");
    let vis = section_field_hash("System", "group-vis");
    let entries = vec![
        text(flame, "Flame"),
        RawRecord { hash: life, storage: StorageType::Float32, value: RawValue::Components(vec![7]) },
        RawRecord { hash: 1234, storage: StorageType::Int32, value: RawValue::Components(vec![1]) },
        RawRecord { hash: vis, storage: StorageType::Int32, value: RawValue::Components(vec![2]) },
        RawRecord { hash: 1234, storage: StorageType::Int32, value: RawValue::Components(vec![9]) },
        RawRecord { hash: life, storage: StorageType::Float32, value: RawValue::Components(vec![8]) },
    ];
    let (sections, unknown) = resolve_sections(&entries);
    let names: Vec<&str> = sections.iter().map(|s| s.name.as_str()).collect();
    assert_eq!(names, vec!["System", "Flame"]);
    let system: Vec<&str> = sections[0].properties.iter().map(|p| p.name.as_str()).collect();
    assert_eq!(system, vec!["GroupPart0", "group-vis"]);
    assert_eq!(sections[1].properties.len(), 1);
    assert_eq!(sections[1].properties[0].record, entries[1]);
    assert_eq!(unknown, vec![entries[2].clone()]);
}

#[test]
fn ini_text_reads_into_sections_and_entries() {
    let text = "[System]\r\n GroupPart0 = \"Flame\" \r\n\r\nno equals here\r\n[Flame]\r\np-life=1.5\r\n[System]\r\ngroup-vis=1\r\n[UNKNOWN_HASHES]\r\n1234=7\r\n";
    let doc = read_ini(text).unwrap();
    assert_eq!(doc.sections, vec!["System".to_string(), "Flame".to_string()]);
    assert_eq!(
        doc.entries,
        vec![
            IniEntry {
                section: Some("System".to_string()),
                key: "GroupPart0".to_string(),
                hash: section_field_hash("System", "GroupPart0"),
                value: "\"Flame\"".to_string(),
            },
            IniEntry {
                section: Some("Flame".to_string()),
                key: "p-life".to_string(),
                hash: section_field_hash("Flame", "p-life"),
                value: "1.5".to_string(),
            },
            IniEntry {
                section: Some("System".to_string()),
                key: "group-vis".to_string(),
                hash: section_field_hash("System", "group-vis"),
                value: "1".to_string(),
            },
            IniEntry { section: None, key: "1234".to_string(), hash: 1234, value: "7".to_string() },
        ]
    );
}

#[test]
fn entries_before_any_section_are_skipped() {
    let doc = read_ini("a=1\n[S]\nb = 2").unwrap();
    assert_eq!(doc.entries.len(), 1);
    assert_eq!(doc.entries[0].key, "b");
}

#[test]
fn an_unknown_hash_that_is_no_number_names_its_line() {
    let err = read_ini("[UNKNOWN_HASHES]\n12=3\nabc=4\n").unwrap_err();
    match err {
        TroybinError::IniParse { line, message } => {
            assert_eq!(line, 3);
            assert_eq!(message, "Invalid hash in UNKNOWN_HASHES: 'abc'");
        }
        other => panic!("unexpected {other:?}"),
    }
    assert!(read_ini("[UNKNOWN_HASHES]\n4294967296=1").is_err());
    assert_eq!(read_ini("[UNKNOWN_HASHES]\n+4294967295=1").unwrap().entries[0].hash, u32::MAX);
}

#[test]
fn every_hash_in_the_dictionary_is_the_hash_of_its_pair() {
    let names = vec!["Flame".to_string(), "Smoke".to_string()];
    let map = build_hash_map(&names);
    assert!(!map.is_empty());
    for (hash, (section, field)) in &map {
        assert_eq!(*hash, section_field_hash(section, field));
    }
}

#[test]
fn the_texture_of_every_group_has_its_hash() {
    let names = vec!["Flame".to_string()];
    let map = build_hash_map(&names);
    let mut sections = vec!["Flame".to_string()];
    for i in 0..50 {
        sections.push(format!("GroupPart{}", i));
    }
    for section in &sections {
        let h = section_field_hash(section, "p-texture");
        assert!(resolve_hash(h, &map).is_some(), "{}", section);
    }
}

#[test]
fn system_properties_resolve_to_the_system_section() {
    let names = vec!["System".to_string(), "GroupPart0".to_string()];
    let map = build_hash_map(&names);
    for field in ["GroupPart0", "GroupPart49Importance", "build-up-time", "'SoundOnCreate"] {
        let h = section_field_hash("System", field);
        let (section, _) = resolve_hash(h, &map).unwrap();
        assert_eq!(section, "System");
    }
}
