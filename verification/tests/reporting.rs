use wadtools::chunk::WadChunk;
use wadtools::diff::{collect_diffs, ChunkDiff};
use wadtools::filter::create_filter_pattern;
use wadtools::hashtable::WadHashtable;
use wadtools::kind::FileKind;
use wadtools::meta::{transform_tile_path, prune_metadata, RawChroma, RawMetadata, RawSkin};
use wadtools::report::{
    build_list_output, create_csv_records, format_size, sort_csv_records,
};
use std::collections::HashSet;

fn chunk(path_hash: u64, checksum: u64, compressed: u64, uncompressed: u64) -> WadChunk {
    WadChunk {
        path_hash,
        checksum,
        compressed_size: compressed,
        uncompressed_size: uncompressed,
    }
}

#[test]
fn csv_records_carry_fields_and_sort_by_path() {
    let mut table = WadHashtable::new();
    table
        .add_from_lines(&vec![
            "0000000000000001 zebra.bin".to_string(),
            "0000000000000002 alpha.bin".to_string(),
        ])
        .unwrap();
    let reference = vec![chunk(1, 10, 5, 50), chunk(2, 20, 5, 60)];
    let target: Vec<WadChunk> = vec![];
    let diffs = collect_diffs(&reference, &target);
    assert_eq!(diffs.len(), 2);

    let records = create_csv_records(&diffs, &table);
    assert_eq!(records.len(), 2);
    for rec in records.iter() {
        assert_eq!(rec.diff_type, "removed");
        assert_eq!(rec.new_path, "");
    }

    let sorted = sort_csv_records(records);
    assert_eq!(sorted[0].path, "alpha.bin");
    assert_eq!(sorted[1].path, "zebra.bin");
    assert_eq!(sorted[0].hash, "0000000000000002");
    assert_eq!(sorted[0].old_uncompressed_size, 60);
}

#[test]
fn csv_record_of_rename_carries_both_paths() {
    let mut table = WadHashtable::new();
    table
        .add_from_lines(&vec![
            "0000000000000001 old/name.bin".to_string(),
            "0000000000000002 new/name.bin".to_string(),
        ])
        .unwrap();
    let reference = vec![chunk(1, 9, 5, 50)];
    let target = vec![chunk(2, 9, 5, 50)];
    let diffs = collect_diffs(&reference, &target);
    let records = create_csv_records(&diffs, &table);
    assert_eq!(records.len(), 1);
    assert_eq!(records[0].diff_type, "renamed");
    assert_eq!(records[0].path, "old/name.bin");
    assert_eq!(records[0].new_path, "new/name.bin");
}

#[test]
fn listing_totals_ratio_and_sort() {
    let mut table = WadHashtable::new();
    table
        .add_from_lines(&vec![
            "0000000000000001 b/two.png".to_string(),
            "0000000000000002 a/one.dds".to_string(),
        ])
        .unwrap();
    let chunks = vec![chunk(1, 10, 25, 100), chunk(2, 20, 75, 100)];
    let no_pattern = create_filter_pattern(None).unwrap();
    let out = build_list_output("sample.wad", &chunks, &table, &no_pattern, None);

    assert_eq!(out.wad_path, "sample.wad");
    assert_eq!(out.total_chunks, 2);
    assert_eq!(out.matched_chunks, 2);
    assert_eq!(out.total_compressed_size, 100);
    assert_eq!(out.total_uncompressed_size, 200);
    assert_eq!(out.overall_compression_ratio_pct, 50);
    assert_eq!(out.chunks.len(), 2);
    assert_eq!(out.chunks[0].path, "a/one.dds");
    assert_eq!(out.chunks[0].file_type, "TextureDds");
    assert_eq!(out.chunks[0].compression_ratio_pct, 25);
    assert_eq!(out.chunks[1].path, "b/two.png");
    assert_eq!(out.chunks[1].file_type, "Png");
    assert_eq!(out.chunks[1].compression_ratio_pct, 75);
}

#[test]
fn listing_applies_kind_and_pattern_filters() {
    let mut table = WadHashtable::new();
    table
        .add_from_lines(&vec![
            "0000000000000001 b/two.png".to_string(),
            "0000000000000002 a/one.dds".to_string(),
        ])
        .unwrap();
    let chunks = vec![chunk(1, 10, 25, 100), chunk(2, 20, 75, 100)];

    let no_pattern = create_filter_pattern(None).unwrap();
    let only_png = vec![FileKind::Png];
    let out = build_list_output("sample.wad", &chunks, &table, &no_pattern, Some(&only_png));
    assert_eq!(out.matched_chunks, 1);
    assert_eq!(out.chunks[0].path, "b/two.png");
    assert_eq!(out.total_compressed_size, 25);

    // the pattern filter is case-insensitive by default
    let pattern = create_filter_pattern(Some("A/ONE".to_string())).unwrap();
    let out = build_list_output("sample.wad", &chunks, &table, &pattern, None);
    assert_eq!(out.matched_chunks, 1);
    assert_eq!(out.chunks[0].path, "a/one.dds");

    // an inline flag turns case sensitivity back on
    let pattern = create_filter_pattern(Some("(?-i)A/ONE".to_string())).unwrap();
    let out = build_list_output("sample.wad", &chunks, &table, &pattern, None);
    assert_eq!(out.matched_chunks, 0);
}

#[test]
fn invalid_pattern_fails_at_construction() {
    assert!(create_filter_pattern(Some("(".to_string())).is_err());
    assert!(create_filter_pattern(Some("a+".to_string())).is_ok());
}

#[test]
fn format_size_picks_units() {
    assert_eq!(format_size(0), "0 B");
    assert_eq!(format_size(512), "512 B");
    assert_eq!(format_size(1024), "1.00 KB");
    assert_eq!(format_size(1536), "1.50 KB");
    assert_eq!(format_size(1048576), "1.00 MB");
    assert_eq!(format_size(3 * 1073741824 / 2), "1.50 GB");
}

#[test]
fn tile_path_transform_rewrites_and_lowercases() {
    let got = transform_tile_path(Some(
        "/lol-game-data/assets/v1/Champion-Tiles/103/103000.JPG".to_string(),
    ));
    assert_eq!(
        got,
        Some(
            "https://raw.communitydragon.org/latest/plugins/rcp-be-lol-game-data/global/default/v1/champion-tiles/103/103000.jpg"
                .to_string()
        )
    );
    assert_eq!(transform_tile_path(None), None);
}

#[test]
fn prune_drops_unknown_skins_and_empty_chroma_lists() {
    let raw = RawMetadata {
        id: 103,
        name: "Ahri".to_string(),
        choose_vo_path: None,
        skins: vec![
            RawSkin {
                id: 103000,
                is_base: true,
                name: "Ahri".to_string(),
                skin_classification: None,
                tile_path: Some("/lol-game-data/assets/tile0.png".to_string()),
                rarity: None,
                chromas: None,
            },
            RawSkin {
                id: 103001,
                is_base: false,
                name: "Dynasty Ahri".to_string(),
                skin_classification: None,
                tile_path: None,
                rarity: None,
                chromas: Some(vec![
                    RawChroma {
                        id: 103002,
                        name: "kept".to_string(),
                        tile_path: None,
                    },
                    RawChroma {
                        id: 999999,
                        name: "dropped".to_string(),
                        tile_path: None,
                    },
                ]),
            },
            RawSkin {
                id: 555555,
                is_base: false,
                name: "unknown".to_string(),
                skin_classification: None,
                tile_path: None,
                rarity: None,
                chromas: None,
            },
            RawSkin {
                id: 103003,
                is_base: false,
                name: "chromas all dropped".to_string(),
                skin_classification: None,
                tile_path: None,
                rarity: None,
                chromas: Some(vec![RawChroma {
                    id: 888888,
                    name: "gone".to_string(),
                    tile_path: None,
                }]),
            },
        ],
    };
    let mut valid: HashSet<i32> = HashSet::new();
    valid.insert(103000);
    valid.insert(103001);
    valid.insert(103002);
    valid.insert(103003);

    let pruned = prune_metadata(raw, &valid);
    assert_eq!(pruned.id, 103);
    assert_eq!(pruned.name, "Ahri");
    assert_eq!(pruned.skins.len(), 3);
    assert_eq!(
        pruned.skins[0].tile_path,
        Some(
            "https://raw.communitydragon.org/latest/plugins/rcp-be-lol-game-data/global/default/tile0.png"
                .to_string()
        )
    );
    let chromas = pruned.skins[1].chromas.as_ref().unwrap();
    assert_eq!(chromas.len(), 1);
    assert_eq!(chromas[0].id, 103002);
    // a chroma list that empties out is dropped altogether
    assert!(pruned.skins[2].chromas.is_none());
}

#[test]
fn rename_scenario_via_diff_records() {
    // the hashtable resolves only the reference chunk's path; classification
    // is unaffected, and exactly one rename is reported
    let mut table = WadHashtable::new();
    table
        .add_from_lines(&vec!["0000000000000001 Assets/icon.png".to_string()])
        .unwrap();
    let reference = vec![chunk(1, 9, 50, 100)];
    let target = vec![chunk(2, 9, 50, 100)];
    let diffs = collect_diffs(&reference, &target);
    let renames: Vec<&ChunkDiff> = diffs
        .iter()
        .filter(|d| matches!(d, ChunkDiff::Renamed { .. }))
        .collect();
    assert_eq!(renames.len(), 1);
    let records = create_csv_records(&diffs, &table);
    assert_eq!(records[0].path, "Assets/icon.png");
    assert_eq!(records[0].new_path, "0000000000000002");
}
