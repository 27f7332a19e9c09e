//! The library's laws and formulas on concrete values, and each error case.

use crab_clean::clean_core::algorithms::{
    content_digests, duplicate_candidates, file_digest, find_by_age_at, get_unused, get_unused_at,
};
use crab_clean::clean_core::delete::{DeleteMode, tally_outcomes};
use crab_clean::clean_core::filter::{
    Filter, LocalTimes, local_midnight_secs, midnight_nanos, parse_date, single_instant_of, size_text_parts,
};
use crab_clean::clean_core::model::{FileEntry, ScanMode, TimeBasis};
use crab_clean::clean_core::outcome::{get_duplicates, run_scan};
use crab_clean::clean_core::scanner::{ScanOptions, entry_from_walk, keep_entry, progress_due};
use crab_clean::cli::get_group;
use crab_clean::config::{Config, ThemeName};
use crab_clean::error::CrabError;
use crab_clean::numbers::{decimal_string, parse_i64_exec, parse_unsigned_exec};
use crab_clean::sorting::{SortVal, stable_order};
use crab_clean::text::{file_name_chars, to_chars, trim_str};
use crab_clean::tui::app::{App, Effect, HomePanel, Key, KeyCode, Screen, SortKey};
use crab_clean::tui::filters::nanos_to_secs;

fn key(code: KeyCode) -> Key {
    Key::press(code)
}

fn file(path: &str, size: u64, modified: Option<i128>, ext: &str) -> FileEntry {
    FileEntry {
        path: path.to_string(),
        size,
        modified,
        accessed: None,
        created: None,
        extension: Some(ext.to_string()),
    }
}

fn review_app(entries: Vec<FileEntry>) -> App {
    let mut app = App::new(Config::default(), "/work".to_string(), 0);
    let n = entries.len();
    app.entries = entries;
    app.group_of = vec![None; n];
    app.filtered = (0..n).collect();
    app.table_selected = if n > 0 { Some(0) } else { None };
    app.screen = Screen::Review;
    app
}

fn three() -> Vec<FileEntry> {
    vec![
        file("/w/b.txt", 300, Some(5), "txt"),
        file("/w/a.jpg", 100, Some(9), "jpg"),
        file("/w/c.png", 200, None, "png"),
    ]
}

#[test]
fn toggling_twice_restores_the_marks() {
    let mut app = review_app(three());
    app.on_key(key(KeyCode::Char(' ')));
    assert_eq!(app.selected, vec![0]);
    app.on_key(key(KeyCode::Char(' ')));
    assert!(app.selected.is_empty());
}

#[test]
fn inverting_twice_restores_the_marks() {
    let mut app = review_app(three());
    app.on_key(key(KeyCode::Char(' ')));
    app.on_key(key(KeyCode::Char('i')));
    let mut once = app.selected.clone();
    once.sort();
    assert_eq!(once, vec![1, 2]);
    app.on_key(key(KeyCode::Char('i')));
    assert_eq!(app.selected, vec![0]);
}

#[test]
fn select_all_and_clear_report_in_the_status() {
    let mut app = review_app(three());
    app.on_key(key(KeyCode::Char('a')));
    assert_eq!(app.selected.len(), 3);
    assert_eq!(app.status, "3 file(s) selected");
    app.on_key(key(KeyCode::Char('c')));
    assert!(app.selected.is_empty());
    assert_eq!(app.status, "Selection cleared");
}

#[test]
fn confirming_with_nothing_marked_gives_a_hint() {
    let mut app = review_app(three());
    app.on_key(key(KeyCode::Char('d')));
    assert_eq!(app.screen, Screen::Review);
    assert_eq!(app.status, "Nothing selected \u{2014} press Space to mark files");
}

#[test]
fn only_confirmation_asks_for_a_delete() {
    let mut app = review_app(three());
    app.on_key(key(KeyCode::Char('a')));
    assert!(matches!(app.on_key(key(KeyCode::Char('y'))), Effect::Nothing));
    app.on_key(key(KeyCode::Enter));
    assert_eq!(app.screen, Screen::Confirm);
    app.on_key(key(KeyCode::Char('n')));
    assert_eq!(app.screen, Screen::Review);
    app.on_key(key(KeyCode::Char('d')));
    match app.on_key(key(KeyCode::Enter)) {
        Effect::Delete(v, m) => {
            assert_eq!(v.len(), 3);
            assert_eq!(m, DeleteMode::Trash);
        },
        other => panic!("expected a delete, got {:?}", other),
    }
}

#[test]
fn rows_follow_the_filter_and_the_sort_key() {
    let mut app = review_app(three());
    // Default sort: size, largest first.
    app.on_key(key(KeyCode::Char('F')));
    assert_eq!(app.filtered, vec![0, 2, 1]);
    assert_eq!(app.status, "Filters cleared");
    app.on_key(key(KeyCode::Char('S'))); // ascending
    assert_eq!(app.filtered, vec![1, 2, 0]);
    app.on_key(key(KeyCode::Char('s'))); // by modification time, unknown first
    assert_eq!(app.sort_key, SortKey::Modified);
    assert_eq!(app.status, "Sorted by modified");
    assert_eq!(app.filtered, vec![2, 0, 1]);
    app.on_key(key(KeyCode::Char('s'))); // by extension
    assert_eq!(app.filtered, vec![1, 2, 0]);
    app.on_key(key(KeyCode::Char('s'))); // by name
    assert_eq!(app.filtered, vec![1, 0, 2]);
}

#[test]
fn filter_form_applies_and_reports_errors() {
    let mut app = review_app(three());
    app.on_key(key(KeyCode::Char('f')));
    for c in " .JPG , png".chars() {
        app.on_key(key(KeyCode::Char(c)));
    }
    assert!(matches!(app.on_key(key(KeyCode::Enter)), Effect::ApplyFilter));
    assert!(app.filter_draft.is_some());
    app.apply_filter_draft(None, None); // both size fields blank
    assert!(app.filter_draft.is_none());
    assert_eq!(app.filter.extensions, vec!["jpg".to_string(), "png".to_string()]);
    assert_eq!(app.filtered.len(), 2);
    assert_eq!(app.status, "2 file(s) match filters");

    // The form reopens on the filter; a bad minimum size is reported.
    app.on_key(key(KeyCode::Char('f')));
    assert_eq!(app.filter_draft.as_ref().unwrap().fields[0], "jpg,png");
    app.on_key(key(KeyCode::Tab));
    app.on_key(key(KeyCode::Tab));
    for c in "lots".chars() {
        app.on_key(key(KeyCode::Char(c)));
    }
    app.on_key(key(KeyCode::Enter));
    app.apply_filter_draft(Some(None), None); // "lots" is no size
    let d = app.filter_draft.as_ref().expect("form stays open");
    assert_eq!(d.error.as_deref(), Some("Invalid min size"));
    app.on_key(key(KeyCode::Backspace));
    assert_eq!(app.filter_draft.as_ref().unwrap().fields[2], "lot");
}

#[test]
fn filter_form_shows_set_dates_as_local_calendar_dates() {
    let mut app = review_app(three());
    app.filter.after = parse_date("2020-06-15");
    assert!(app.filter.after.is_some());
    app.on_key(key(KeyCode::Char('f')));
    let d = app.filter_draft.as_ref().expect("form open");
    assert_eq!(d.fields[4], "2020-06-15");
    assert_eq!(d.fields[5], "");
}

#[test]
fn bad_dates_and_max_size_are_reported() {
    let mut app = review_app(three());
    app.on_key(key(KeyCode::Char('f')));
    app.on_key(key(KeyCode::Up)); // focus wraps to the last field
    for c in "someday".chars() {
        app.on_key(key(KeyCode::Char(c)));
    }
    app.on_key(key(KeyCode::Enter));
    app.apply_filter_draft(None, None);
    assert_eq!(
        app.filter_draft.as_ref().unwrap().error.as_deref(),
        Some("Invalid 'before' date (use YYYY-MM-DD)")
    );
    app.on_key(key(KeyCode::Up));
    app.on_key(key(KeyCode::Char('x')));
    app.on_key(key(KeyCode::Enter));
    app.apply_filter_draft(None, None);
    assert_eq!(
        app.filter_draft.as_ref().unwrap().error.as_deref(),
        Some("Invalid 'after' date (use YYYY-MM-DD)")
    );
    app.on_key(key(KeyCode::Up));
    app.on_key(key(KeyCode::Char('q')));
    app.on_key(key(KeyCode::Enter));
    app.apply_filter_draft(None, Some(None)); // "q" is no size
    assert_eq!(app.filter_draft.as_ref().unwrap().error.as_deref(), Some("Invalid max size"));
}

#[test]
fn newest_member_of_each_group_is_kept() {
    let mut app = App::new(Config::default(), "/w".to_string(), 0);
    let entries = vec![
        file("/w/a", 4, Some(1), "txt"),
        file("/w/b", 4, Some(7), "txt"),
        file("/w/c", 4, Some(3), "txt"),
        file("/w/d", 8, Some(5), "txt"),
        file("/w/e", 8, Some(5), "txt"),
    ];
    app.on_scan_done(entries, Some(vec![vec![0, 1, 2], vec![3, 4]]));
    let mut marked = app.selected.clone();
    marked.sort();
    // b is the newest of the first group; of two equally new, the last is kept.
    assert_eq!(marked, vec![0, 2, 3]);
    assert_eq!(app.table_selected, Some(0));
}

#[test]
fn cycles_come_back() {
    assert_eq!(DeleteMode::Trash.toggled().toggled(), DeleteMode::Trash);
    assert_eq!(TimeBasis::Modified.next().next().next(), TimeBasis::Modified);
    assert_eq!(ThemeName::Default.next().next().next().next(), ThemeName::Default);
    assert_eq!(SortKey::Name.next().next().next().next(), SortKey::Name);
    assert_eq!(HomePanel::Mode.next().prev(), HomePanel::Mode);
    assert_eq!(HomePanel::Options.next(), HomePanel::Mode);
}

#[test]
fn inactive_filter_accepts_everything() {
    let f = Filter::default();
    assert!(!f.is_active());
    for e in three() {
        assert!(f.matches(&e));
    }
    let named = Filter { name_contains: Some("a.".to_string()), ..Filter::default() };
    assert!(named.is_active());
    assert!(named.matches(&three()[1]));
    assert!(!named.matches(&three()[0]));
}

#[test]
fn delete_report_accounts_for_every_file() {
    let victims = vec![file("/w/x", 10, None, "txt"), file("/w/y", 32, None, "txt")];
    let report = tally_outcomes(&victims, vec![Ok(()), Err("permission denied".to_string())]);
    assert_eq!(report.deleted, 1);
    assert_eq!(report.bytes_freed, 10);
    assert_eq!(report.failed.len(), 1);
    assert_eq!(report.failed[0].0, "/w/y");
}

#[test]
fn digests_are_lower_case_sha256() {
    let d = content_digests(&vec![Some(b"abc".to_vec()), None]);
    assert_eq!(
        d[0].as_deref(),
        Some("ba7816bf8f01cfea414140de5dae2223b00361a396177a9cb410ff61f20015ad")
    );
    assert_eq!(d[1], None);
}

#[test]
fn one_file_digest_is_lower_case_sha256() {
    assert_eq!(file_digest(b"abc"), "ba7816bf8f01cfea414140de5dae2223b00361a396177a9cb410ff61f20015ad");
    assert_eq!(file_digest(b""), "e3b0c44298fc1c149afbf4c8996fb92427ae41e4649b934ca495991b7852b855");
}

#[test]
fn unused_compares_access_times_in_whole_seconds() {
    let sec: i128 = 1_000_000_000;
    let day: i128 = 86_400 * sec;
    // one day back from `now` is 10.3 s after the epoch
    let now = day + 10 * sec + 300_000_000;
    let at = |path: &str, t: i128| {
        let mut e = file(path, 1, None, "txt");
        e.accessed = Some(t);
        e
    };
    let entries = vec![
        at("/w/same_second_after", 10 * sec + 500_000_000),
        at("/w/before", 9 * sec + 900_000_000),
        at("/w/next_second", 11 * sec),
        file("/w/never", 1, None, "txt"),
    ];
    let v = get_unused_at(&entries, 1, now);
    let paths: Vec<&str> = v.iter().map(|e| e.path.as_str()).collect();
    assert_eq!(paths, vec!["/w/same_second_after", "/w/before"]);
}

#[test]
fn size_texts_split_into_number_and_unit() {
    let parts = size_text_parts;
    assert_eq!(parts("10"), Some(("10".to_string(), 1)));
    assert_eq!(parts(" 512KB "), Some(("512".to_string(), 1_000)));
    assert_eq!(parts("1.5 GB"), Some(("1.5".to_string(), 1_000_000_000)));
    assert_eq!(parts("2 KiB"), Some(("2".to_string(), 1_024)));
    assert_eq!(parts("3mib"), Some(("3".to_string(), 1_048_576)));
    assert_eq!(parts("4 gib"), Some(("4".to_string(), 1_073_741_824)));
    assert_eq!(parts("7b"), Some(("7".to_string(), 1)));
    assert_eq!(parts("3 t"), Some(("3".to_string(), 1_000_000_000_000)));
    assert_eq!(parts("8 M"), Some(("8".to_string(), 1_000_000)));
    assert_eq!(parts(""), None);
    assert_eq!(parts("   "), None);
    assert_eq!(parts("5 parsecs"), None);
    assert_eq!(parts("9 tib"), None);
    assert_eq!(parts("nonsense"), None);
    assert_eq!(parts("1kib"), Some(("1".to_string(), 1_024)));
    assert_eq!(parts("  3 GB "), Some(("3".to_string(), 1_000_000_000)));
}

#[test]
fn only_a_single_local_instant_is_kept() {
    assert_eq!(single_instant_of(LocalTimes::Single(86_400)), Some(86_400));
    assert_eq!(single_instant_of(LocalTimes::Ambiguous(3_600, 7_200)), None);
    assert_eq!(single_instant_of(LocalTimes::Missing), None);
    assert_eq!(single_instant_of(LocalTimes::Invalid), None);
}

#[test]
fn only_shared_nonzero_sizes_are_hashed() {
    let entries = vec![
        file("/w/a", 5, None, "txt"),
        file("/w/b", 5, None, "txt"),
        file("/w/c", 6, None, "txt"),
        file("/w/z1", 0, None, "txt"),
        file("/w/z2", 0, None, "txt"),
    ];
    assert_eq!(duplicate_candidates(&entries), vec![true, true, false, false, false]);
}

#[test]
fn age_selection_uses_the_cutoff() {
    let day: i128 = 86_400_000_000_000;
    let now: i128 = 100 * day;
    let entries = vec![
        file("/w/old", 1, Some(now - 31 * day), "txt"),
        file("/w/new", 1, Some(now - 29 * day), "txt"),
        file("/w/unknown", 1, None, "txt"),
    ];
    let old = find_by_age_at(&entries, 30, TimeBasis::Modified, now);
    assert_eq!(old.len(), 1);
    assert_eq!(old[0].path, "/w/old");
}

#[test]
fn scan_outcome_lays_groups_end_to_end() {
    let all = vec![
        file("/w/a", 3, None, "txt"),
        file("/w/u", 9, None, "txt"),
        file("/w/b", 3, None, "txt"),
    ];
    let digests = content_digests(&vec![Some(b"abc".to_vec()), None, Some(b"abc".to_vec())]);
    let out = run_scan(ScanMode::Duplicates, all, &digests, 30);
    assert_eq!(out.entries.len(), 2);
    assert_eq!(out.entries[0].path, "/w/a");
    assert_eq!(out.entries[1].path, "/w/b");
    assert_eq!(out.dup_groups, Some(vec![vec![0, 1]]));

    let all = vec![file("/w/a", 3, None, "txt")];
    let out = run_scan(ScanMode::AllFiles, all, &Vec::new(), 30);
    assert_eq!(out.entries.len(), 1);
    assert!(out.dup_groups.is_none());
}

#[test]
fn home_screen_commands() {
    let mut app = App::new(Config::default(), "/w".to_string(), 0);
    assert!(matches!(app.on_key(key(KeyCode::Char('e'))), Effect::CountTrash));
    app.trash_counted(0);
    assert_eq!(app.status, "Trash is already empty");
    app.trash_counted(3);
    assert!(app.confirm_empty_trash);
    assert!(matches!(app.on_key(key(KeyCode::Char('y'))), Effect::EmptyTrash));
    app.trash_emptied(Ok(3));
    assert_eq!(app.status, "Emptied trash (3 item(s) purged)");
    assert!(!app.confirm_empty_trash);

    app.on_key(key(KeyCode::Char(',')));
    assert!(app.show_settings);
    app.on_key(key(KeyCode::Down));
    app.on_key(key(KeyCode::Enter));
    assert_eq!(app.config.theme, ThemeName::Ocean);
    assert!(matches!(app.on_key(key(KeyCode::Esc)), Effect::SaveConfig));
    app.config_saved(Err("disk full".to_string()));
    assert_eq!(app.status, "Could not save settings: disk full");

    // Options: step the age, type a depth.
    app.on_key(key(KeyCode::BackTab));
    assert_eq!(app.home_panel, HomePanel::Options);
    app.on_key(key(KeyCode::Right));
    assert_eq!(app.age_input, "31");
    app.on_key(key(KeyCode::Down));
    app.on_key(key(KeyCode::Char('4')));
    assert_eq!(app.depth_input, "4");
    match app.on_key(key(KeyCode::Char('s'))) {
        Effect::Scan(r) => {
            assert_eq!(r.age, 31);
            assert_eq!(r.opts.max_depth, Some(4));
        },
        other => panic!("expected a scan, got {:?}", other),
    }
    assert!(matches!(app.on_key(key(KeyCode::Esc)), Effect::Nothing));
    assert!(!app.running);
}

#[test]
fn ctrl_c_quits_and_releases_are_ignored() {
    let mut app = App::new(Config::default(), "/w".to_string(), 0);
    app.on_key(Key { code: KeyCode::Down, ctrl: false, kind: crab_clean::tui::app::KeyKind::Release });
    assert_eq!(app.mode_index, 0);
    app.on_key(Key { code: KeyCode::Char('c'), ctrl: true, kind: crab_clean::tui::app::KeyKind::Press });
    assert!(!app.running);
}

#[test]
fn scan_messages_update_the_state() {
    let mut app = App::new(Config::default(), "/w".to_string(), 0);
    app.scan_refused();
    assert_eq!(app.status, "Not a directory: /w");
    app.scan_started(ScanMode::Old);
    app.scan_progress("Hashing".to_string(), 12);
    assert_eq!(app.scan_count, 12);
    assert!(matches!(app.on_key(key(KeyCode::Esc)), Effect::DetachScan));
    assert_eq!(app.screen, Screen::Home);
    app.scan_failed("boom".to_string());
    assert_eq!(app.status, "Scan failed: boom");
}

#[test]
fn walk_records_and_filters() {
    let e = entry_from_walk("/w/Photo.JPG".to_string(), 7, Some(1), None, None);
    assert_eq!(e.extension.as_deref(), Some("jpg"));
    let opts = ScanOptions::default();
    assert!(!keep_entry(&opts, 1, &Some(".git".to_string())));
    assert!(keep_entry(&opts, 0, &Some(".".to_string())));
    assert!(progress_due(512));
    assert!(!progress_due(513));
}

#[test]
fn numbers_and_text() {
    assert_eq!(decimal_string(0), "0");
    assert_eq!(decimal_string(1_234_567), "1234567");
    assert_eq!(parse_unsigned_exec("42", 100), Some(42));
    assert_eq!(parse_unsigned_exec("420", 100), None);
    assert_eq!(parse_i64_exec("-17"), Some(-17));
    assert_eq!(trim_str("  x y \t"), "x y");
    let name: String = file_name_chars(&to_chars("/a/b/notes.txt")).into_iter().collect();
    assert_eq!(name, "notes.txt");
    assert_eq!(nanos_to_secs(-1), Some((-1, 999_999_999)));
    assert_eq!(nanos_to_secs(2_500_000_000), Some((2, 500_000_000)));
}

#[test]
fn stable_order_keeps_ties_in_place() {
    let keys = vec![
        SortVal { major: 2, minor: 0, text: vec![] },
        SortVal { major: 1, minor: 0, text: vec![] },
        SortVal { major: 2, minor: 0, text: vec![] },
    ];
    assert_eq!(stable_order(&keys, false), vec![1, 0, 2]);
    assert_eq!(stable_order(&keys, true), vec![0, 2, 1]);
}

#[test]
fn errors_and_reports() {
    assert_eq!(CrabError::Io("gone".to_string()).message(), "I/O error: gone");
    match CrabError::not_a_directory("/x") {
        CrabError::InvalidArgument(m) => assert_eq!(m, "'/x' is not a directory or does not exist"),
        other => panic!("unexpected {:?}", other),
    }
    let lines = get_group(&vec!["/a/x.rs".to_string(), "/a/y.rs".to_string()], "extension");
    assert_eq!(lines[0], "File Tree by Extension:");
    assert_eq!(lines[1], "├── rs");
    assert_eq!(lines[2], "│   ├── x.rs");
    assert_eq!(lines[3], "│   └── y.rs");
    assert!(get_group(&vec!["/a/x.rs".to_string()], "size").is_empty());
}

#[test]
fn browser_lists_folders_ignoring_ascii_case() {
    let mut app = App::new(Config::default(), "/r".to_string(), 0);
    app.finish_refresh(
        vec!["/r/b".to_string(), "/r/A".to_string(), "/r/C".to_string()],
        crab_clean::tui::app::Reselect::Top,
    );
    let labels: Vec<&str> = app.browse_items.iter().map(|i| i.label.as_str()).collect();
    assert_eq!(labels, vec!["../", "A/", "b/", "C/"]);
    assert_eq!(app.browse_selected, Some(0));
}

#[test]
fn filter_form_shows_dates_as_typed() {
    let mut app = review_app(three());
    app.filter.after = parse_date("2020-01-01");
    assert!(app.filter.after.is_some());
    app.on_key(key(KeyCode::Char('f')));
    let d = app.filter_draft.as_ref().unwrap();
    assert_eq!(d.fields[4], "2020-01-01");
    assert_eq!(d.fields[5], "");
    assert_eq!(d.focus, 0);
}

#[test]
fn midnight_seconds_become_nanoseconds() {
    assert_eq!(midnight_nanos(Some(-2)), Some(-2_000_000_000));
    assert_eq!(midnight_nanos(None), None);
}

#[test]
fn marked_entries_are_listed_by_path_components() {
    let mut app = review_app(vec![
        file("/w/a.txt", 300, None, "txt"),
        file("/w/a/b", 100, None, "txt"),
        file("/w/b", 5, None, "txt"),
    ]);
    app.selected = vec![2, 0, 1];
    let paths: Vec<String> = app.selected_entries().into_iter().map(|e| e.path).collect();
    assert_eq!(paths, vec!["/w/a/b", "/w/a.txt", "/w/b"]);
    assert!(app.selected_size_fits());
    assert_eq!(app.selected_total_size(), 405);
}

#[test]
fn shown_rows_are_those_the_filter_accepts() {
    let mut app = review_app(three());
    app.on_key(key(KeyCode::Char('f')));
    app.on_key(key(KeyCode::Tab));
    app.on_key(key(KeyCode::Tab));
    for c in "150".chars() {
        app.on_key(key(KeyCode::Char(c)));
    }
    app.on_key(key(KeyCode::Enter));
    app.apply_filter_draft(Some(Some(150)), None);
    assert_eq!(app.filter.min_size, Some(150));
    // sizes 300 and 200 pass, largest first
    assert_eq!(app.filtered, vec![0, 2]);
    assert_eq!(app.status, "2 file(s) match filters");
}

#[test]
fn marked_entries_follow_the_standard_path_order() {
    let paths = [
        "/a/b", "/a-b", "/a.b", "/a/./c", "/a//d", "/a/..", "./x", "x", "../y", "/", "/a", "/a/",
        "/A", "/a b", "/ab",
    ];
    let entries: Vec<FileEntry> = paths.iter().map(|p| file(p, 1, None, "")).collect();
    let mut app = review_app(entries);
    app.selected = (0..paths.len()).rev().collect();
    let listed: Vec<String> = app.selected_entries().into_iter().map(|e| e.path).collect();

    let mut expected: Vec<&str> = paths.to_vec();
    expected.sort_by(|a, b| std::path::Path::new(a).cmp(std::path::Path::new(b)));
    // equal paths ("/a" and "/a/") keep the order in which they were marked
    let listed_paths: Vec<&std::path::Path> = listed.iter().map(|p| std::path::Path::new(p.as_str())).collect();
    let expected_paths: Vec<&std::path::Path> = expected.iter().map(|p| std::path::Path::new(*p)).collect();
    assert_eq!(listed_paths, expected_paths);
}

#[test]
fn clock_readings_become_signed_nanoseconds() {
    assert_eq!(crab_clean::clean_core::algorithms::reading_nanos(true, 2, 5), 2_000_000_005);
    assert_eq!(crab_clean::clean_core::algorithms::reading_nanos(false, 1, 500), -1_000_000_500);
}

#[test]
fn name_filter_ignores_case_on_both_sides() {
    let f = Filter { name_contains: Some("Photo".to_string()), ..Filter::default() };
    assert!(f.matches(&file("/w/photo.jpg", 5_000_000, None, "jpg")));
    assert!(f.matches(&file("/w/MyPHOTOS.png", 1, None, "png")));
    assert!(!f.matches(&file("/w/notes.txt", 1, None, "txt")));
}

#[test]
fn parsed_dates_lie_within_a_day_of_utc_midnight() {
    let day: i128 = 86_400_000_000_000;
    let utc_midnight: i128 = 1_577_836_800 * 1_000_000_000; // 2020-01-01T00:00:00Z
    let t = parse_date(" 2020-01-01 ").expect("a single local midnight");
    assert!(utc_midnight - day < t && t < utc_midnight + day);
    assert_eq!(t % 1_000_000_000, 0);
    assert!(parse_date("2020-02-30").is_none());
}

#[test]
fn local_midnight_is_within_a_day_of_utc_midnight() {
    let utc_midnight: i64 = 1_577_836_800; // 2020-01-01T00:00:00Z
    let s = local_midnight_secs(2020, 1, 1).expect("a single local midnight");
    assert!(utc_midnight - 86_400 < s && s < utc_midnight + 86_400);
    assert_eq!(local_midnight_secs(2021, 2, 30), None);
    assert_eq!(local_midnight_secs(2021, 13, 1), None);
}

#[test]
fn unused_refuses_age_zero() {
    let entries = vec![file("/w/a", 1, None, "txt")];
    match get_unused(&entries, 0) {
        Err(CrabError::InvalidArgument(m)) => {
            assert_eq!(m, "Age cannot be zero. Please provide a positive age in days.")
        },
        other => panic!("unexpected {:?}", other),
    }
    let mut old = file("/w/b", 1, None, "txt");
    old.accessed = Some(0);
    let v = get_unused(&vec![old, file("/w/c", 1, None, "txt")], 1).unwrap();
    assert_eq!(v.len(), 1);
    assert_eq!(v[0].path, "/w/b");
}

#[test]
fn duplicates_keep_the_first_of_each_group() {
    let all = vec![
        file("/w/a", 3, None, "txt"),
        file("/w/b", 3, None, "txt"),
        file("/w/c", 3, None, "txt"),
        file("/w/d", 3, None, "txt"),
    ];
    let digests = content_digests(&vec![
        Some(b"abc".to_vec()),
        Some(b"abc".to_vec()),
        Some(b"xyz".to_vec()),
        Some(b"abc".to_vec()),
    ]);
    let extra = get_duplicates(&all, &digests);
    let paths: Vec<&str> = extra.iter().map(|e| e.path.as_str()).collect();
    assert_eq!(paths, vec!["/w/b", "/w/d"]);
}
