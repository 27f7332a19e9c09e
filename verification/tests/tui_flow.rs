//! Drives the application state machine with key presses and hands it the
//! results of the outside work it asks for, as the program around it would.

use crab_clean::clean_core::delete::{DeleteMode, tally_outcomes};
use crab_clean::clean_core::model::{FileEntry, ScanMode};
use crab_clean::config::Config;
use crab_clean::tui::app::{App, Effect, HomePanel, Key, KeyCode, Reselect, Screen};

fn key(code: KeyCode) -> Key {
    Key::press(code)
}

fn file(path: &str, size: u64, modified: Option<i128>) -> FileEntry {
    FileEntry {
        path: path.to_string(),
        size,
        modified,
        accessed: None,
        created: None,
        extension: Some("txt".to_string()),
    }
}

fn review_app(entries: Vec<FileEntry>) -> App {
    let mut app = App::new(Config::default(), "/work".to_string(), 0);
    let n = entries.len();
    app.entries = entries;
    app.group_of = vec![None; n];
    app.filtered = (0..n).collect();
    app.table_selected = if n > 0 { Some(0) } else { None };
    app.screen = Screen::Review;
    app
}

#[test]
fn state_machine_drives_full_flow() {
    let mut app = App::new(Config::default(), "/work".to_string(), 0);
    app.on_key(key(KeyCode::Down));
    assert_eq!(app.mode_index, 1);
    app.on_key(key(KeyCode::Up));
    assert_eq!(app.mode_index, 0);
    app.on_key(key(KeyCode::F(1)));
    assert!(app.show_help);
    app.on_key(key(KeyCode::Esc)); // any key closes help
    assert!(!app.show_help);
    assert!(app.running);

    let mut app = review_app(vec![file("/work/mock.txt", 9, None)]);

    // Filter popup opens and closes.
    app.on_key(key(KeyCode::Char('f')));
    assert!(app.filter_draft.is_some());
    app.on_key(key(KeyCode::Esc));
    assert!(app.filter_draft.is_none());

    // Mark the file, go to confirm, switch to permanent.
    app.on_key(key(KeyCode::Char(' ')));
    assert_eq!(app.selected.len(), 1);
    app.on_key(key(KeyCode::Char('d')));
    assert_eq!(app.screen, Screen::Confirm);
    app.on_key(key(KeyCode::Char('t')));
    assert_eq!(app.delete_mode, DeleteMode::Permanent);

    // Confirming asks to delete exactly the marked file.
    let eff = app.on_key(key(KeyCode::Char('y')));
    let (victims, mode) = match eff {
        Effect::Delete(v, m) => (v, m),
        other => panic!("expected a delete, got {:?}", other),
    };
    assert_eq!(victims.len(), 1);
    assert_eq!(victims[0].path, "/work/mock.txt");
    assert_eq!(mode, DeleteMode::Permanent);

    let report = tally_outcomes(&victims, vec![Ok(())]);
    app.deleted(report, Some(0));
    assert_eq!(app.screen, Screen::Summary);
    assert_eq!(app.report.as_ref().expect("report present").deleted, 1);
    assert_eq!(app.status, "Deleted 1 file(s), 0 failed");

    // Return home.
    app.on_key(key(KeyCode::Enter));
    assert_eq!(app.screen, Screen::Home);
    assert!(app.entries.is_empty());
}

#[test]
fn home_browser_navigates_and_scans() {
    let mut app = App::new(Config::default(), "/root".to_string(), 0);
    app.finish_refresh(vec!["/root/sub".to_string(), "/root/.git".to_string()], Reselect::Keep);
    assert_eq!(app.browse_items.len(), 2); // "../" and "sub/", the hidden one left out
    assert_eq!(app.browse_items[1].label, "sub/");

    // Focus the browser, descend into "sub", then go back up.
    app.on_key(key(KeyCode::Tab));
    assert_eq!(app.home_panel, HomePanel::Browser);
    app.on_key(key(KeyCode::Down));
    let eff = app.on_key(key(KeyCode::Enter));
    assert_eq!(app.browse_dir, "/root/sub");
    match eff {
        Effect::Refresh(r) => app.finish_refresh(Vec::new(), r),
        other => panic!("expected a refresh, got {:?}", other),
    };
    let eff = app.on_key(key(KeyCode::Left));
    assert_eq!(app.browse_dir, "/root");
    match eff {
        Effect::Refresh(r) => app.finish_refresh(vec!["/root/sub".to_string()], r),
        other => panic!("expected a refresh, got {:?}", other),
    };
    // Coming back up highlights the directory we came from.
    assert_eq!(app.browse_selected, Some(1));

    // Mode defaults to duplicates; 's' asks for a scan of the browsed folder.
    let eff = app.on_key(key(KeyCode::Char('s')));
    let req = match eff {
        Effect::Scan(r) => r,
        other => panic!("expected a scan, got {:?}", other),
    };
    assert_eq!(req.root, "/root");
    assert_eq!(req.mode, ScanMode::Duplicates);
    assert_eq!(req.age, 30);
    app.scan_started(req.mode);
    assert_eq!(app.screen, Screen::Scanning);

    // Two identical files form one group; all but the newest is marked.
    let entries = vec![file("/root/dup_a.txt", 26, Some(10)), file("/root/dup_b.txt", 26, Some(20))];
    app.on_scan_done(entries, Some(vec![vec![0, 1]]));
    assert_eq!(app.screen, Screen::Review);
    assert_eq!(app.entries.len(), 2);
    assert_eq!(app.selected, vec![0]);
    assert_eq!(app.group_of, vec![Some(0), Some(0)]);
    assert_eq!(app.status, "2 candidate file(s) found (1 pre-selected)");
}
