//! Dispatching key presses: to the open modal, else to the current screen.

use vstd::prelude::*;

use crate::tui::app::{App, Effect, Key, KeyCode, KeyKind, Screen, home_key, is_char};
use crate::tui::filters::filter_key;
use crate::tui::modals::{confirm_key, empty_trash_key, marked_entries, returned_home, settings_key};
use crate::tui::review::{
    confirm_opened, current_toggled, cursor_moved, cursor_set, direction_flipped, filters_reset,
    marks_and_status, marks_now, shown, sort_key_cycled, sym_diff,
};

verus! {

/// What a key does on the review screen.
#[derive(Debug, Clone, Copy, PartialEq, Eq, Structural)]
pub enum ReviewAction {
    Leave,
    Move(i64),
    First,
    Last,
    ChordG,
    Toggle,
    SelectAll,
    Clear,
    Invert,
    OpenFilter,
    ResetFilters,
    NextSortKey,
    FlipDirection,
    Settings,
    Help,
    Confirm,
    Nothing,
}

/// The action of `key` on the review screen (`vim`: vim-style navigation is
/// on; `rows`: some row is shown).
pub open spec fn review_action(key: Key, vim: bool, rows: bool) -> ReviewAction {
    let c = key.code;
    if c == KeyCode::Esc || is_char(key, 'q') {
        ReviewAction::Leave
    } else if c == KeyCode::Up || is_char(key, 'k') {
        ReviewAction::Move(-1i64)
    } else if c == KeyCode::Down || is_char(key, 'j') {
        ReviewAction::Move(1i64)
    } else if c == KeyCode::PageUp {
        ReviewAction::Move(-10i64)
    } else if c == KeyCode::PageDown {
        ReviewAction::Move(10i64)
    } else if c == KeyCode::Home {
        ReviewAction::First
    } else if c == KeyCode::End && rows {
        ReviewAction::Last
    } else if is_char(key, 'g') {
        if vim {
            ReviewAction::ChordG
        } else {
            ReviewAction::First
        }
    } else if is_char(key, 'G') && rows {
        ReviewAction::Last
    } else if is_char(key, ' ') || is_char(key, 'x') {
        ReviewAction::Toggle
    } else if is_char(key, 'a') {
        ReviewAction::SelectAll
    } else if is_char(key, 'c') {
        ReviewAction::Clear
    } else if is_char(key, 'i') {
        ReviewAction::Invert
    } else if is_char(key, 'f') || is_char(key, '/') {
        ReviewAction::OpenFilter
    } else if is_char(key, 'F') {
        ReviewAction::ResetFilters
    } else if is_char(key, 's') {
        ReviewAction::NextSortKey
    } else if is_char(key, 'S') {
        ReviewAction::FlipDirection
    } else if is_char(key, ',') {
        ReviewAction::Settings
    } else if is_char(key, '?') {
        ReviewAction::Help
    } else if c == KeyCode::Enter || is_char(key, 'd') {
        ReviewAction::Confirm
    } else {
        ReviewAction::Nothing
    }
}

/// The action of `key` on the review screen.
pub fn classify_review_key(key: Key, vim: bool, rows: bool) -> (r: ReviewAction)
    ensures
        r == review_action(key, vim, rows),
{
    let c = key.code;
    if c == KeyCode::Esc || c == KeyCode::Char('q') {
        ReviewAction::Leave
    } else if c == KeyCode::Up || c == KeyCode::Char('k') {
        ReviewAction::Move(-1)
    } else if c == KeyCode::Down || c == KeyCode::Char('j') {
        ReviewAction::Move(1)
    } else if c == KeyCode::PageUp {
        ReviewAction::Move(-10)
    } else if c == KeyCode::PageDown {
        ReviewAction::Move(10)
    } else if c == KeyCode::Home {
        ReviewAction::First
    } else if c == KeyCode::End && rows {
        ReviewAction::Last
    } else if c == KeyCode::Char('g') {
        if vim {
            ReviewAction::ChordG
        } else {
            ReviewAction::First
        }
    } else if c == KeyCode::Char('G') && rows {
        ReviewAction::Last
    } else if c == KeyCode::Char(' ') || c == KeyCode::Char('x') {
        ReviewAction::Toggle
    } else if c == KeyCode::Char('a') {
        ReviewAction::SelectAll
    } else if c == KeyCode::Char('c') {
        ReviewAction::Clear
    } else if c == KeyCode::Char('i') {
        ReviewAction::Invert
    } else if c == KeyCode::Char('f') || c == KeyCode::Char('/') {
        ReviewAction::OpenFilter
    } else if c == KeyCode::Char('F') {
        ReviewAction::ResetFilters
    } else if c == KeyCode::Char('s') {
        ReviewAction::NextSortKey
    } else if c == KeyCode::Char('S') {
        ReviewAction::FlipDirection
    } else if c == KeyCode::Char(',') {
        ReviewAction::Settings
    } else if c == KeyCode::Char('?') {
        ReviewAction::Help
    } else if c == KeyCode::Enter || c == KeyCode::Char('d') {
        ReviewAction::Confirm
    } else {
        ReviewAction::Nothing
    }
}

/// `n` is `o` after `key` on the review screen (no modal open).
#[verifier::opaque]
pub open spec fn review_key(o: App, key: Key, n: App) -> bool {
    match review_action(key, o.vim_mode, o.filtered@.len() > 0) {
        ReviewAction::Leave => returned_home(o, n),
        ReviewAction::Move(d) => cursor_moved(o, n, d as int),
        ReviewAction::First => cursor_set(o, n, 0),
        ReviewAction::Last => cursor_set(o, n, o.filtered@.len() - 1),
        ReviewAction::ChordG => if o.pending_g {
            cursor_set(App { pending_g: false, ..o }, n, 0)
        } else {
            n == (App { pending_g: true, ..o })
        },
        ReviewAction::Toggle => current_toggled(o, n),
        ReviewAction::SelectAll => marks_and_status(
            o,
            n,
            o.marked().union(shown(o)),
            crate::numbers::decimal(n.selected@.len()) + " file(s) selected"@,
        ),
        ReviewAction::Clear => marks_and_status(o, n, Set::empty(), "Selection cleared"@),
        ReviewAction::Invert => marks_now(o, n, sym_diff(o.marked(), shown(o))),
        ReviewAction::OpenFilter => n == (App { filter_draft: n.filter_draft, ..o }) && (n.filter_draft matches Some(
            d,
        ) && crate::tui::filters::form_opened(o.filter, d)),
        ReviewAction::ResetFilters => filters_reset(o, n),
        ReviewAction::NextSortKey => sort_key_cycled(o, n),
        ReviewAction::FlipDirection => direction_flipped(o, n),
        ReviewAction::Settings => n == (App { settings_index: 0, show_settings: true, ..o }),
        ReviewAction::Help => n == (App { show_help: true, ..o }),
        ReviewAction::Confirm => confirm_opened(o, n),
        ReviewAction::Nothing => n == o,
    }
}

impl App {
    fn review_move(&mut self, key: Key, act: ReviewAction)
        requires
            old(self).wf(),
            act == review_action(key, old(self).vim_mode, old(self).filtered@.len() > 0),
            act is Leave || act is Move || act is First || act is Last || act is ChordG,
        ensures
            final(self).wf(),
            review_key(*old(self), key, *final(self)),
    {
        reveal(review_key);
        match act {
            ReviewAction::Leave => self.back_to_home(),
            ReviewAction::Move(d) => self.move_cursor(d),
            ReviewAction::First => self.set_cursor(0),
            ReviewAction::Last => {
                let last = self.filtered.len() - 1;
                self.set_cursor(last);
            },
            ReviewAction::ChordG => {
                if self.pending_g {
                    self.pending_g = false;
                    self.set_cursor(0);
                } else {
                    self.pending_g = true;
                }
            },
            _ => {},
        }
    }

    fn review_mark(&mut self, key: Key, act: ReviewAction)
        requires
            old(self).wf(),
            act == review_action(key, old(self).vim_mode, old(self).filtered@.len() > 0),
            act is Toggle || act is SelectAll || act is Clear || act is Invert,
        ensures
            final(self).wf(),
            review_key(*old(self), key, *final(self)),
    {
        reveal(review_key);
        match act {
            ReviewAction::Toggle => self.toggle_current(),
            ReviewAction::SelectAll => self.select_all_filtered(),
            ReviewAction::Clear => self.clear_selection(),
            ReviewAction::Invert => self.invert_filtered(),
            _ => {},
        }
    }

    fn review_view(&mut self, key: Key, act: ReviewAction)
        requires
            old(self).wf(),
            act == review_action(key, old(self).vim_mode, old(self).filtered@.len() > 0),
            act is OpenFilter || act is ResetFilters || act is NextSortKey || act is FlipDirection,
        ensures
            final(self).wf(),
            review_key(*old(self), key, *final(self)),
    {
        reveal(review_key);
        match act {
            ReviewAction::OpenFilter => self.open_filter(),
            ReviewAction::ResetFilters => self.reset_filters(),
            ReviewAction::NextSortKey => self.cycle_sort_key(),
            ReviewAction::FlipDirection => self.flip_direction(),
            _ => {},
        }
    }

    fn review_other(&mut self, key: Key, act: ReviewAction)
        requires
            old(self).wf(),
            act == review_action(key, old(self).vim_mode, old(self).filtered@.len() > 0),
            act is Settings || act is Help || act is Confirm || act is Nothing,
        ensures
            final(self).wf(),
            review_key(*old(self), key, *final(self)),
    {
        reveal(review_key);
        match act {
            ReviewAction::Settings => {
                self.settings_index = 0;
                self.show_settings = true;
            },
            ReviewAction::Help => {
                self.show_help = true;
            },
            ReviewAction::Confirm => self.go_to_confirm(),
            _ => {},
        }
    }

    /// React to `key` on the review screen.
    pub(crate) fn on_key_review(&mut self, key: Key)
        requires
            old(self).wf(),
        ensures
            final(self).wf(),
            review_key(*old(self), key, *final(self)),
    {
        let act = classify_review_key(key, self.vim_mode, self.filtered.len() > 0);
        match act {
            ReviewAction::Leave | ReviewAction::Move(_) | ReviewAction::First | ReviewAction::Last
            | ReviewAction::ChordG => self.review_move(key, act),
            ReviewAction::Toggle | ReviewAction::SelectAll | ReviewAction::Clear | ReviewAction::Invert => self.review_mark(
                key,
                act,
            ),
            ReviewAction::OpenFilter | ReviewAction::ResetFilters | ReviewAction::NextSortKey
            | ReviewAction::FlipDirection => self.review_view(key, act),
            _ => self.review_other(key, act),
        }
    }
}


/// Where a key goes: ignored, a global command, the open modal, or the
/// current screen.
#[derive(Debug, Clone, Copy, PartialEq, Eq, Structural)]
pub enum KeyRoute {
    Ignore,
    Quit,
    CloseHelp,
    OpenHelp,
    EmptyTrash,
    Settings,
    Filter,
    Home,
    LeaveScan,
    Review,
    Confirm,
    LeaveSummary,
    Nothing,
}

/// Where `key` goes in state `o`. Releases are ignored; Ctrl-C / Ctrl-Q quit;
/// the help overlay is closed by any key and opened by F1; then the open modal
/// (empty-trash prompt, settings, filter form) takes the key, else the screen.
pub open spec fn key_route(o: App, key: Key) -> KeyRoute {
    if key.kind == KeyKind::Release {
        KeyRoute::Ignore
    } else if key.ctrl && (is_char(key, 'c') || is_char(key, 'q')) {
        KeyRoute::Quit
    } else if o.show_help {
        KeyRoute::CloseHelp
    } else if key.code == KeyCode::F(1) {
        KeyRoute::OpenHelp
    } else if o.confirm_empty_trash {
        KeyRoute::EmptyTrash
    } else if o.show_settings {
        KeyRoute::Settings
    } else if o.filter_draft is Some {
        KeyRoute::Filter
    } else {
        match o.screen {
            Screen::Home => KeyRoute::Home,
            Screen::Scanning => if key.code == KeyCode::Esc || is_char(key, 'q') {
                KeyRoute::LeaveScan
            } else {
                KeyRoute::Nothing
            },
            Screen::Review => KeyRoute::Review,
            Screen::Confirm => KeyRoute::Confirm,
            Screen::Summary => if key.code == KeyCode::Enter || key.code == KeyCode::Esc || is_char(key, 'q') {
                KeyRoute::LeaveSummary
            } else {
                KeyRoute::Nothing
            },
        }
    }
}

/// Where `key` goes in state `o`.
pub fn route_key(o: &App, key: Key) -> (r: KeyRoute)
    ensures
        r == key_route(*o, key),
{
    let c = key.code;
    if key.kind == KeyKind::Release {
        KeyRoute::Ignore
    } else if key.ctrl && (c == KeyCode::Char('c') || c == KeyCode::Char('q')) {
        KeyRoute::Quit
    } else if o.show_help {
        KeyRoute::CloseHelp
    } else if c == KeyCode::F(1) {
        KeyRoute::OpenHelp
    } else if o.confirm_empty_trash {
        KeyRoute::EmptyTrash
    } else if o.show_settings {
        KeyRoute::Settings
    } else if o.filter_draft.is_some() {
        KeyRoute::Filter
    } else {
        match o.screen {
            Screen::Home => KeyRoute::Home,
            Screen::Scanning => if c == KeyCode::Esc || c == KeyCode::Char('q') {
                KeyRoute::LeaveScan
            } else {
                KeyRoute::Nothing
            },
            Screen::Review => KeyRoute::Review,
            Screen::Confirm => KeyRoute::Confirm,
            Screen::Summary => if c == KeyCode::Enter || c == KeyCode::Esc || c == KeyCode::Char('q') {
                KeyRoute::LeaveSummary
            } else {
                KeyRoute::Nothing
            },
        }
    }
}

/// `o` with a pending `g` chord cancelled, unless `key` is `g` itself.
pub open spec fn unchorded(o: App, key: Key) -> App {
    if key.code != KeyCode::Char('g') {
        App { pending_g: false, ..o }
    } else {
        o
    }
}

/// `n`/`eff` describe the whole application reacting to `key`.
#[verifier::opaque]
pub open spec fn key_handled(o: App, key: Key, n: App, eff: Effect) -> bool {
    let m = unchorded(o, key);
    match key_route(o, key) {
        KeyRoute::Ignore => n == o && eff is Nothing,
        KeyRoute::Quit => n == (App { running: false, ..o }) && eff is Nothing,
        KeyRoute::CloseHelp => n == (App { show_help: false, ..m }) && eff is Nothing,
        KeyRoute::OpenHelp => n == (App { show_help: true, ..m }) && eff is Nothing,
        KeyRoute::EmptyTrash => empty_trash_key(m, key, n, eff),
        KeyRoute::Settings => settings_key(m, key, n, eff),
        KeyRoute::Filter => filter_key(m, key, n) && if key.code == KeyCode::Enter {
            eff is ApplyFilter
        } else {
            eff is Nothing
        },
        KeyRoute::Home => home_key(m, key, n, eff),
        KeyRoute::LeaveScan => n == (App { scan_attached: false, screen: Screen::Home, ..m }) && eff is DetachScan,
        KeyRoute::Review => review_key(m, key, n) && eff is Nothing,
        KeyRoute::Confirm => confirm_key(m, key, n, eff),
        KeyRoute::LeaveSummary => returned_home(m, n) && eff is Nothing,
        KeyRoute::Nothing => n == m && eff is Nothing,
    }
}

impl App {
    fn unchord(&mut self, key: Key)
        requires
            old(self).wf(),
        ensures
            final(self).wf(),
            *final(self) == unchorded(*old(self), key),
    {
        if key.code != KeyCode::Char('g') {
            self.pending_g = false;
        }
    }

    fn key_global(&mut self, key: Key, route: KeyRoute) -> (eff: Effect)
        requires
            old(self).wf(),
            route == key_route(*old(self), key),
            route is Ignore || route is Quit || route is CloseHelp || route is OpenHelp || route is Nothing
                || route is LeaveScan,
        ensures
            final(self).wf(),
            key_handled(*old(self), key, *final(self), eff),
    {
        reveal(key_handled);
        match route {
            KeyRoute::Ignore => Effect::Nothing,
            KeyRoute::Quit => {
                self.running = false;
                Effect::Nothing
            },
            KeyRoute::CloseHelp => {
                self.unchord(key);
                self.show_help = false;
                Effect::Nothing
            },
            KeyRoute::OpenHelp => {
                self.unchord(key);
                self.show_help = true;
                Effect::Nothing
            },
            KeyRoute::LeaveScan => {
                self.unchord(key);
                self.scan_attached = false;
                self.screen = Screen::Home;
                Effect::DetachScan
            },
            _ => {
                self.unchord(key);
                Effect::Nothing
            },
        }
    }

    fn key_modal(&mut self, key: Key, route: KeyRoute) -> (eff: Effect)
        requires
            old(self).wf(),
            route == key_route(*old(self), key),
            route is EmptyTrash || route is Settings || route is Filter,
        ensures
            final(self).wf(),
            key_handled(*old(self), key, *final(self), eff),
    {
        reveal(key_handled);
        self.unchord(key);
        match route {
            KeyRoute::EmptyTrash => self.on_key_empty_trash(key),
            KeyRoute::Settings => self.on_key_settings(key),
            _ => self.on_key_filter(key),
        }
    }

    fn key_screen(&mut self, key: Key, route: KeyRoute) -> (eff: Effect)
        requires
            old(self).wf(),
            route == key_route(*old(self), key),
            route is Home || route is Review || route is Confirm || route is LeaveSummary,
        ensures
            final(self).wf(),
            key_handled(*old(self), key, *final(self), eff),
    {
        reveal(key_handled);
        self.unchord(key);
        match route {
            KeyRoute::Home => self.on_key_home(key),
            KeyRoute::Review => {
                self.on_key_review(key);
                Effect::Nothing
            },
            KeyRoute::Confirm => self.on_key_confirm(key),
            _ => {
                self.back_to_home();
                Effect::Nothing
            },
        }
    }

    /// React to `key`; the returned effect is the outside work it asks for.
    pub fn on_key(&mut self, key: Key) -> (eff: Effect)
        requires
            old(self).wf(),
        ensures
            final(self).wf(),
            key_handled(*old(self), key, *final(self), eff),
    {
        let route = route_key(self, key);
        match route {
            KeyRoute::EmptyTrash | KeyRoute::Settings | KeyRoute::Filter => self.key_modal(key, route),
            KeyRoute::Home | KeyRoute::Review | KeyRoute::Confirm | KeyRoute::LeaveSummary => self.key_screen(
                key,
                route,
            ),
            _ => self.key_global(key, route),
        }
    }
}

/// Nothing is deleted without confirmation: the only key that asks for a
/// delete is `y` or Enter pressed on the confirm screen with no modal open,
/// and it asks to delete exactly the marked entries, in the chosen mode.
pub proof fn law_delete_needs_confirmation(o: App, key: Key, n: App, eff: Effect)
    requires
        key_handled(o, key, n, eff),
        eff is Delete,
    ensures
        o.screen == Screen::Confirm,
        !o.show_help && !o.confirm_empty_trash && !o.show_settings && o.filter_draft is None,
        key.kind != KeyKind::Release,
        is_char(key, 'y') || key.code == KeyCode::Enter,
        eff->Delete_0@ == marked_entries(o),
        eff->Delete_1 == o.delete_mode,
{
    reveal(key_handled);
    let m = unchorded(o, key);
    match key_route(o, key) {
        KeyRoute::EmptyTrash => {
            reveal(empty_trash_key);
        },
        KeyRoute::Settings => {
            reveal(settings_key);
            reveal(crate::tui::modals::setting_changed);
        },
        KeyRoute::Home => {
            reveal(home_key);
            reveal(crate::tui::app::browser_key);
            reveal(crate::tui::app::options_key);
            reveal(crate::tui::app::adjusted);
            reveal(crate::tui::app::opened_row);
            reveal(crate::tui::app::went_up);
            reveal(crate::tui::app::mode_key);
            reveal(crate::tui::app::moved_browse);
        },
        KeyRoute::Confirm => {
            reveal(confirm_key);
            assert(marked_entries(m) == marked_entries(o));
        },
        _ => {},
    }
}
} // verus!
