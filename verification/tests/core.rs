use wadtools::chunk::{compression_ratio_pct, WadChunk};
use wadtools::config::Config;
use wadtools::diff::{collect_diffs, ChunkDiff};
use wadtools::extract::{
    build_ltk_name, chunk_write_plan, fallback_hex_name, is_hex_chunk_path,
    resolve_final_chunk_path, truncate_middle,
};
use wadtools::kind::sniff_kind;
use wadtools::hashtable::WadHashtable;
use wadtools::hex::{format_chunk_path_hash, parse_hex_str};
use wadtools::kind::FileKind;

fn chunk(path_hash: u64, checksum: u64, compressed: u64, uncompressed: u64) -> WadChunk {
    WadChunk {
        path_hash,
        checksum,
        compressed_size: compressed,
        uncompressed_size: uncompressed,
    }
}

#[test]
fn hex_format_is_zero_padded_lowercase() {
    assert_eq!(format_chunk_path_hash(1), "0000000000000001");
    assert_eq!(
        format_chunk_path_hash(0xDEADBEEF12345678),
        "deadbeef12345678"
    );
    assert_eq!(format_chunk_path_hash(0), "0000000000000000");
    assert_eq!(format_chunk_path_hash(u64::MAX), "ffffffffffffffff");
}

#[test]
fn hex_parse_accepts_both_cases_and_rejects_junk() {
    assert_eq!(parse_hex_str("deadBEEF"), Some(0xdeadbeefu64));
    assert_eq!(parse_hex_str("0000000000000001"), Some(1));
    assert_eq!(parse_hex_str(""), None);
    assert_eq!(parse_hex_str("12345678901234567"), None);
    assert_eq!(parse_hex_str("xyz"), None);
}

#[test]
fn resolve_path_falls_back_to_hex_and_round_trips() {
    let table = WadHashtable::new();
    let h = 0x0123456789abcdefu64;
    let fallback = table.resolve_path(h);
    assert_eq!(fallback, "0123456789abcdef");
    assert_eq!(fallback.len(), 16);
    assert_eq!(parse_hex_str(&fallback), Some(h));
}

#[test]
fn hashtable_loads_lines_and_overwrites() {
    let mut table = WadHashtable::new();
    let lines = vec![
        "0000000000000001 Assets/icon.png".to_string(),
        "0000000000000002 Assets/data with spaces.bin".to_string(),
        "0000000000000001 Assets/icon_override.png".to_string(),
    ];
    assert!(table.add_from_lines(&lines).is_ok());
    assert_eq!(table.resolve_path(1), "Assets/icon_override.png");
    assert_eq!(table.resolve_path(2), "Assets/data with spaces.bin");
    assert_eq!(table.resolve_path(3), "0000000000000003");
}

#[test]
fn hashtable_rejects_malformed_source_whole() {
    let mut table = WadHashtable::new();
    let lines = vec![
        "0000000000000001 Assets/icon.png".to_string(),
        "not-hex Assets/other.png".to_string(),
    ];
    let err = table.add_from_lines(&lines).unwrap_err();
    assert_eq!(err.line_index, 1);
    // the offending source is rejected, not individual lines
    assert_eq!(table.resolve_path(1), "0000000000000001");
}

#[test]
fn diff_detects_rename_via_checksum() {
    // hashtable resolution never affects classification
    let mut table = WadHashtable::new();
    table
        .add_from_lines(&vec!["0000000000000001 Assets/icon.png".to_string()])
        .unwrap();

    let reference = vec![chunk(1, 9, 40, 100)];
    let target = vec![chunk(2, 9, 40, 100)];
    let diffs = collect_diffs(&reference, &target);

    assert_eq!(diffs.len(), 1);
    match diffs[0] {
        ChunkDiff::Renamed {
            old_chunk,
            new_chunk,
        } => {
            assert_eq!(old_chunk.path_hash, 1);
            assert_eq!(new_chunk.path_hash, 2);
        }
        _ => panic!("expected a renamed record"),
    }
}

#[test]
fn diff_classifies_added_removed_modified_unchanged() {
    let reference = vec![chunk(1, 10, 1, 2), chunk(2, 20, 1, 2), chunk(3, 30, 1, 2)];
    let target = vec![chunk(2, 21, 1, 2), chunk(3, 30, 1, 2), chunk(4, 99, 1, 2)];
    let diffs = collect_diffs(&reference, &target);

    let mut removed = 0;
    let mut modified = 0;
    let mut added = 0;
    let mut renamed = 0;
    for d in diffs.iter() {
        match d {
            ChunkDiff::Removed(c) => {
                removed += 1;
                assert_eq!(c.path_hash, 1);
            }
            ChunkDiff::Modified {
                old_chunk,
                new_chunk,
            } => {
                modified += 1;
                assert_eq!(old_chunk.path_hash, 2);
                assert_eq!(new_chunk.checksum, 21);
            }
            ChunkDiff::New(c) => {
                added += 1;
                assert_eq!(c.path_hash, 4);
            }
            ChunkDiff::Renamed { .. } => {
                renamed += 1;
            }
        }
    }
    assert_eq!((removed, modified, added, renamed), (1, 1, 1, 0));
    assert_eq!(diffs.len(), 3);
}

#[test]
fn diff_rename_consumes_candidate_once() {
    // two target-only chunks share the checksum of one reference-only chunk:
    // one rename, one addition
    let reference = vec![chunk(1, 9, 1, 2)];
    let target = vec![chunk(2, 9, 1, 2), chunk(3, 9, 1, 2)];
    let diffs = collect_diffs(&reference, &target);
    let renames = diffs
        .iter()
        .filter(|d| matches!(d, ChunkDiff::Renamed { .. }))
        .count();
    let adds = diffs
        .iter()
        .filter(|d| matches!(d, ChunkDiff::New(_)))
        .count();
    assert_eq!(renames, 1);
    assert_eq!(adds, 1);
    assert_eq!(diffs.len(), 2);
}

#[test]
fn compression_ratio_edge_values() {
    assert_eq!(compression_ratio_pct(0, 0), 0);
    assert_eq!(compression_ratio_pct(100, 100), 0);
    assert_eq!(compression_ratio_pct(50, 100), 50);
    assert_eq!(compression_ratio_pct(999, 1000), 0);
    assert_eq!(compression_ratio_pct(1, 1000), 99);
    assert_eq!(compression_ratio_pct(25, 100), 75);
}

#[test]
fn truncate_middle_keeps_prefix_and_suffix() {
    assert_eq!(truncate_middle("abc", 10), "abc");
    assert_eq!(truncate_middle("abcdefgh", 5), "a...h");
    assert_eq!(truncate_middle("abcdefgh", 3), "...");
    assert_eq!(truncate_middle("abcdefghij", 7), "ab...ij");
}

#[test]
fn hex_chunk_path_detection() {
    assert!(is_hex_chunk_path("0123456789abcdef"));
    assert!(is_hex_chunk_path("data/0123456789abcdef"));
    assert!(!is_hex_chunk_path("0123456789abcde"));
    assert!(!is_hex_chunk_path("Assets/icon.png"));
}

#[test]
fn resolved_path_disambiguates_directory_collision() {
    // a resolved path colliding with an existing directory gains the marker
    // in the same parent directory
    assert_eq!(
        resolve_final_chunk_path("data/characters", FileKind::Unknown, true),
        "data/characters.ltk"
    );
    assert_eq!(
        resolve_final_chunk_path("data/characters", FileKind::Png, true),
        "data/characters.ltk.png"
    );
    // a clean path with an extension is used verbatim
    assert_eq!(
        resolve_final_chunk_path("Assets/icon.png", FileKind::Png, false),
        "Assets/icon.png"
    );
    // a path without an extension gains the marker even without a collision
    assert_eq!(
        resolve_final_chunk_path("Assets/manifest", FileKind::PropertyBin, false),
        "Assets/manifest.ltk.bin"
    );
    // an unresolved hash name keeps its hex base and gains the extension
    assert_eq!(
        resolve_final_chunk_path("0000000000000002", FileKind::Png, false),
        "0000000000000002.png"
    );
}

#[test]
fn ltk_name_includes_extension_when_known() {
    assert_eq!(build_ltk_name("characters", FileKind::Unknown), "characters.ltk");
    assert_eq!(build_ltk_name("characters", FileKind::TextureDds), "characters.ltk.dds");
}

#[test]
fn write_plan_sniffs_png_and_honours_kind_filter() {
    // the first bytes of a PNG file
    let png = [0x89u8, b'P', b'N', b'G', 0x0d, 0x0a, 0x1a, 0x0a];
    // no filter configured: the chunk is written to its resolved path
    let plan = chunk_write_plan("Assets/icon.png", &png, None, false);
    assert_eq!(plan, Some("Assets/icon.png".to_string()));
    // a kind filter without the sniffed kind skips the chunk
    let only_dds = vec![FileKind::TextureDds];
    let plan = chunk_write_plan("Assets/icon.png", &png, Some(&only_dds), false);
    assert_eq!(plan, None);
    // a kind filter naming the sniffed kind admits it
    let only_png = vec![FileKind::Png];
    let plan = chunk_write_plan("Assets/icon.png", &png, Some(&only_png), false);
    assert_eq!(plan, Some("Assets/icon.png".to_string()));
}

#[test]
fn extraction_plan_is_deterministic_on_unchanged_inputs() {
    // planning the same chunk twice against an unchanged destination yields
    // the same path both times
    let png = [0x89u8, b'P', b'N', b'G', 0x0d, 0x0a, 0x1a, 0x0a];
    let first = chunk_write_plan("Assets/icon.png", &png, None, false);
    let second = chunk_write_plan("Assets/icon.png", &png, None, false);
    assert_eq!(first, second);
}

#[test]
fn file_kind_extension_mapping() {
    assert_eq!(FileKind::from_extension("png"), FileKind::Png);
    assert_eq!(FileKind::from_extension(".png"), FileKind::Png);
    assert_eq!(FileKind::from_extension("dds"), FileKind::TextureDds);
    assert_eq!(FileKind::from_extension("bin"), FileKind::PropertyBin);
    assert_eq!(FileKind::from_extension(""), FileKind::Unknown);
    assert_eq!(FileKind::from_extension("nope"), FileKind::Unknown);
    assert_eq!(FileKind::Png.extension(), Some("png"));
    assert_eq!(FileKind::Unknown.extension(), None);
    assert_eq!(FileKind::PropertyBinOverride.extension(), Some("bin"));
}

#[test]
fn config_progress_resolution() {
    let cfg = Config {
        show_progress: Some(false),
        hashtable_dir: None,
    };
    assert_eq!(cfg.resolve_show_progress(Some(true)), true);
    assert_eq!(cfg.resolve_show_progress(None), false);
    let cfg = Config {
        show_progress: None,
        hashtable_dir: None,
    };
    assert_eq!(cfg.resolve_show_progress(None), true);
}

#[test]
fn items_views_expose_the_storage() {
    let mut table = WadHashtable::new();
    table
        .add_from_lines(&vec!["000000000000000a Assets/a.bin".to_string()])
        .unwrap();
    assert_eq!(table.items().len(), 1);
    table
        .items_mut()
        .insert(0xb, "Assets/b.bin".to_string());
    assert_eq!(table.resolve_path(0xb), "Assets/b.bin");
}

#[test]
fn three_byte_chunks_are_classified_unknown() {
    // the classifier's pattern scan cannot handle three-byte data, so the
    // library deliberately classifies it unknown instead of aborting
    assert_eq!(sniff_kind(b"abc"), FileKind::Unknown);
    assert_eq!(sniff_kind(b""), FileKind::Unknown);
    assert_eq!(sniff_kind(b"ab"), FileKind::Unknown);
    // an unknown kind has no extension, so a bare resolved path gains only
    // the marker
    assert_eq!(
        chunk_write_plan("Assets/manifest", b"abc", None, false),
        Some("Assets/manifest.ltk".to_string())
    );
    // and a kind filter that names concrete kinds skips it
    let only_png = vec![FileKind::Png];
    assert_eq!(chunk_write_plan("Assets/manifest", b"abc", Some(&only_png), false), None);
}

#[test]
fn fallback_hex_name_appends_known_extension() {
    assert_eq!(fallback_hex_name(2, FileKind::Png), "0000000000000002.png");
    assert_eq!(fallback_hex_name(0xdead, FileKind::Unknown), "000000000000dead");
}
