//! Core logic: date parsing, filtering, duplicate grouping, age selection
//! and the delete report. File contents are given as bytes, so no
//! test touches the filesystem.

use crab_clean::clean_core::algorithms::{content_digests, find_by_age, find_duplicates, now_nanos};
use crab_clean::clean_core::delete::DeleteMode;
use crab_clean::clean_core::filter::{Filter, parse_date};
use crab_clean::clean_core::model::{FileEntry, TimeBasis};

fn entry(path: &str, size: u64, ext: Option<&str>) -> FileEntry {
    FileEntry {
        path: path.to_string(),
        size,
        modified: None,
        accessed: None,
        created: None,
        extension: ext.map(|s| s.to_string()),
    }
}

/// Entries for files with these names and contents, and their digests.
fn files(specs: &[(&str, &[u8])]) -> (Vec<FileEntry>, Vec<Option<String>>) {
    let entries: Vec<FileEntry> = specs
        .iter()
        .map(|(name, body)| entry(name, body.len() as u64, Some("txt")))
        .collect();
    let contents: Vec<Option<Vec<u8>>> = specs.iter().map(|(_, body)| Some(body.to_vec())).collect();
    (entries, content_digests(&contents))
}

#[test]
fn find_duplicates_groups_identical_content() {
    let (entries, digests) = files(&[
        ("1.txt", b"same content here"),
        ("2.txt", b"same content here"),
        ("3.txt", b"same content here"),
        ("unique.txt", b"totally different"),
    ]);
    let groups = find_duplicates(&entries, &digests);

    assert_eq!(groups.len(), 1, "expected exactly one duplicate group");
    assert_eq!(groups[0].len(), 3, "expected three identical files");
}

#[test]
fn find_duplicates_ignores_same_size_different_content() {
    let (entries, digests) = files(&[("a.txt", b"AAAA"), ("b.txt", b"BBBB")]);
    assert!(find_duplicates(&entries, &digests).is_empty());
}

#[test]
fn find_by_age_excludes_fresh_files() {
    let mut fresh = entry("new.txt", 5, Some("txt"));
    fresh.modified = Some(now_nanos());
    let files = vec![fresh];

    // Nothing just-created is 100 years old.
    let old = find_by_age(&files, 36_500, TimeBasis::Modified);
    assert!(old.is_empty());
}

#[test]
fn parse_date_accepts_iso_dates() {
    assert!(parse_date("2020-01-01").is_some());
    assert!(parse_date("not-a-date").is_none());
    assert!(parse_date("").is_none());
}

#[test]
fn filter_matches_extension_and_size() {
    let jpg = entry("photo.jpg", 5_000_000, Some("jpg"));
    let txt = entry("notes.txt", 100, Some("txt"));

    let only_jpg = Filter {
        extensions: vec!["jpg".to_string()],
        ..Filter::default()
    };
    assert!(only_jpg.matches(&jpg));
    assert!(!only_jpg.matches(&txt));

    let big = Filter {
        min_size: Some(1_000_000),
        ..Filter::default()
    };
    assert!(big.matches(&jpg));
    assert!(!big.matches(&txt));

    assert!(Filter::default().matches(&txt)); // empty filter matches all
}

#[test]
fn delete_mode_defaults_to_trash() {
    assert_eq!(DeleteMode::default(), DeleteMode::Trash);
}
