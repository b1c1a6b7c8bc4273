//! Manifest index parsing, the freshness window, and the index diff.
use recipe_tracker::cache::index::parse;
use recipe_tracker::cache::index::parse_index_lines;
use recipe_tracker::cache::index::IndexError;
use recipe_tracker::cache::index::IndexMap;
use recipe_tracker::cache::refresh::is_stale;
use recipe_tracker::cache::refresh::stale_entries;
use recipe_tracker::cache::refresh::stale_files;
use recipe_tracker::cache::refresh::DEFAULT_FRESHNESS_WINDOW_SECS;

/// A fixed-width descriptor suffix: 26 characters.
fn line(name: &str, tag: char) -> String {
    let mut l = String::from(name);
    for _ in 0..25 {
        l.push('!');
    }
    l.push(tag);
    l
}

fn index_of(lines: &[String]) -> IndexMap {
    let owned: Vec<String> = lines.to_vec();
    parse_index_lines(&owned).expect("well-formed index")
}

#[test]
fn index_line_key_is_line_without_descriptor_suffix() {
    let l = line("ExportResources_en.json", '1');
    let index = index_of(&[l.clone()]);
    assert_eq!(index.len(), 1);
    assert_eq!(index.get("ExportResources_en.json"), Some(&l));
    assert_eq!(index.get("ExportWeapons_en.json"), None);
}

#[test]
fn malformed_short_index_line_fails_the_parse() {
    let lines = vec![line("ExportResources_en.json", '1'), String::from("too-short")];
    match parse_index_lines(&lines) {
        Err(IndexError::LineTooShort { line }) => assert_eq!(line, "too-short"),
        other => panic!("expected a line-too-short error, got {:?}", other),
    }
}

#[test]
fn index_diff_downloads_exactly_new_and_changed_entries() {
    let a1 = line("ExportA", '1');
    let b2 = line("ExportB", '2');
    let b3 = line("ExportB", '3');
    let c4 = line("ExportC", '4');
    let local = index_of(&[a1.clone(), b2.clone()]);
    let remote = index_of(&[a1.clone(), b3.clone(), c4.clone()]);
    let downloads = stale_entries(&local, &remote);
    assert_eq!(downloads, vec![b3.clone(), c4.clone()]);
}

#[test]
fn index_diff_deletes_local_files_gone_from_remote() {
    let a1 = line("ExportA", '1');
    let b3 = line("ExportB", '3');
    let c4 = line("ExportC", '4');
    let d5 = line("ExportD", '5');
    let remote = index_of(&[a1.clone(), b3.clone(), c4.clone()]);
    let files = vec![a1.clone(), line("ExportB", '2'), d5.clone(), String::from("tracked.json")];
    let deletions = stale_files(&files, &remote);
    // the changed descriptor and the file absent remotely go; the
    // matching file and the non-manifest file stay
    assert_eq!(deletions, vec![line("ExportB", '2'), d5.clone()]);
}

#[test]
fn compressed_index_blob_round_trips_through_parse() {
    let text = format!("{}\n{}\n", line("ExportResources_en.json", '7'), line("ExportWeapons_en.json", '8'));
    let mut compressed: Vec<u8> = Vec::new();
    lzma_rs::lzma_compress(&mut std::io::Cursor::new(text.as_bytes()), &mut compressed).unwrap();
    let index = parse(&compressed).expect("valid blob");
    assert_eq!(index.len(), 2);
    assert_eq!(index.get("ExportResources_en.json"), Some(&line("ExportResources_en.json", '7')));
    assert_eq!(index.get("ExportWeapons_en.json"), Some(&line("ExportWeapons_en.json", '8')));
}

#[test]
fn garbage_blob_is_a_compression_error() {
    let garbage = vec![0u8, 1, 2, 3];
    assert!(matches!(parse(&garbage), Err(IndexError::Compression)));
}

#[test]
fn staleness_follows_the_freshness_window() {
    // absent or unreadable index: always stale
    assert!(is_stale(1_000_000, None, DEFAULT_FRESHNESS_WINDOW_SECS));
    // modified inside the window: fresh
    assert!(!is_stale(1_000_000, Some(1_000_000 - 100), DEFAULT_FRESHNESS_WINDOW_SECS));
    // modified exactly at the window's edge: still fresh
    assert!(!is_stale(1_000_000, Some(1_000_000 - DEFAULT_FRESHNESS_WINDOW_SECS), DEFAULT_FRESHNESS_WINDOW_SECS));
    // modified beyond the window: stale
    assert!(is_stale(1_000_000, Some(1_000_000 - DEFAULT_FRESHNESS_WINDOW_SECS - 1), DEFAULT_FRESHNESS_WINDOW_SECS));
    // a clock that ran backwards is not stale
    assert!(!is_stale(500, Some(1_000), DEFAULT_FRESHNESS_WINDOW_SECS));
}

#[test]
fn cold_cache_downloads_every_remote_entry() {
    let a1 = line("ExportA", '1');
    let b2 = line("ExportB", '2');
    let local = index_of(&[]);
    let remote = index_of(&[a1.clone(), b2.clone()]);
    assert_eq!(stale_entries(&local, &remote), vec![a1, b2]);
}
