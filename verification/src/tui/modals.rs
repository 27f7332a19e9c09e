//! The modal dialogs (settings, empty-trash prompt) and the delete
//! confirmation.

use vstd::prelude::*;

use crate::clean_core::delete::{DeleteMode, DeleteReport, delete_mode_toggled};
use crate::clean_core::filter::Filter;
use crate::clean_core::model::{FileEntry, TimeBasis, time_basis_next};
use crate::config::{Config, ThemeName, theme_next};
use crate::numbers::{decimal, decimal_string};
use crate::tui::app::{
    App, Effect, Key, KeyCode, Reselect, Screen, SETTING_BASIS, SETTING_DELETE, SETTING_HIDDEN,
    SETTING_THEME, SETTING_VIM, is_char,
};

verus! {

// ------------------------------------------------------------------ modals

/// `o` with vim-style navigation switched on or off, in the configuration and
/// in the running state.
pub open spec fn vim_flipped(o: App) -> App {
    App { config: Config { vim_mode: !o.config.vim_mode, ..o.config }, vim_mode: !o.config.vim_mode, ..o }
}

/// `o` with the next colour theme.
pub open spec fn theme_cycled(o: App) -> App {
    App { config: Config { theme: theme_next(o.config.theme), ..o.config }, ..o }
}

/// `o` with the default delete mode switched, for the next delete too.
pub open spec fn delete_mode_flipped(o: App) -> App {
    App {
        config: Config { delete_mode: delete_mode_toggled(o.config.delete_mode), ..o.config },
        delete_mode: delete_mode_toggled(o.config.delete_mode),
        ..o
    }
}

/// `o` with the next time basis, for the date filters too.
pub open spec fn basis_cycled(o: App) -> App {
    App {
        config: Config { time_basis: time_basis_next(o.config.time_basis), ..o.config },
        filter: Filter { time_basis: time_basis_next(o.config.time_basis), ..o.filter },
        ..o
    }
}

/// `o` with hidden entries shown or hidden, in the configuration and on the
/// home screen.
pub open spec fn hidden_flipped(o: App) -> App {
    App {
        config: Config { include_hidden: !o.config.include_hidden, ..o.config },
        include_hidden: !o.config.include_hidden,
        ..o
    }
}

/// `n`/`eff` describe changing the highlighted setting of `o`.
#[verifier::opaque]
pub open spec fn setting_changed(o: App, n: App, eff: Effect) -> bool {
    if o.settings_index == SETTING_VIM {
        n == vim_flipped(o) && eff is Nothing
    } else if o.settings_index == SETTING_THEME {
        n == theme_cycled(o) && eff is Nothing
    } else if o.settings_index == SETTING_DELETE {
        n == delete_mode_flipped(o) && eff is Nothing
    } else if o.settings_index == SETTING_BASIS {
        n == basis_cycled(o) && eff is Nothing
    } else {
        n == hidden_flipped(o) && eff matches Effect::Refresh(Reselect::Keep)
    }
}

/// `n`/`eff` describe the settings modal reacting to `key`.
#[verifier::opaque]
pub open spec fn settings_key(o: App, key: Key, n: App, eff: Effect) -> bool {
    let vim = o.vim_mode;
    if key.code == KeyCode::Esc || is_char(key, ',') {
        n == (App { show_settings: false, ..o }) && eff is SaveConfig
    } else if key.code == KeyCode::Up || (vim && is_char(key, 'k')) {
        n == (App { settings_index: ((o.settings_index + 4) % 5) as usize, ..o }) && eff is Nothing
    } else if key.code == KeyCode::Down || (vim && is_char(key, 'j')) {
        n == (App { settings_index: ((o.settings_index + 1) % 5) as usize, ..o }) && eff is Nothing
    } else if key.code == KeyCode::Left || key.code == KeyCode::Right || key.code == KeyCode::Enter
        || is_char(key, ' ') || is_char(key, 'h') || is_char(key, 'l') {
        setting_changed(o, n, eff)
    } else {
        n == o && eff is Nothing
    }
}

/// `n`/`eff` describe the empty-trash prompt reacting to `key`.
#[verifier::opaque]
pub open spec fn empty_trash_key(o: App, key: Key, n: App, eff: Effect) -> bool {
    if is_char(key, 'y') || key.code == KeyCode::Enter {
        n == o && eff is EmptyTrash
    } else if key.code == KeyCode::Esc || is_char(key, 'n') {
        n == (App { confirm_empty_trash: false, ..o }) && eff is Nothing
    } else {
        n == o && eff is Nothing
    }
}

/// The entries marked for deletion, in the order they were marked.
pub open spec fn marked_entries(o: App) -> Seq<FileEntry> {
    o.selected@.map_values(|i: usize| o.entries@[i as int])
}

/// `n`/`eff` describe the confirm screen reacting to `key`.
#[verifier::opaque]
pub open spec fn confirm_key(o: App, key: Key, n: App, eff: Effect) -> bool {
    if is_char(key, 't') || key.code == KeyCode::Tab {
        n == (App { delete_mode: delete_mode_toggled(o.delete_mode), ..o }) && eff is Nothing
    } else if is_char(key, 'y') || key.code == KeyCode::Enter {
        n == o && (eff matches Effect::Delete(v, m) && v@ == marked_entries(o) && m == o.delete_mode)
    } else if key.code == KeyCode::Esc || is_char(key, 'n') {
        n == (App { screen: Screen::Review, ..o }) && eff is Nothing
    } else {
        n == o && eff is Nothing
    }
}

/// `n` is `o` back on the home screen with the results dropped.
pub open spec fn returned_home(o: App, n: App) -> bool {
    &&& n == (App {
        screen: Screen::Home,
        entries: n.entries,
        filtered: n.filtered,
        selected: n.selected,
        group_of: n.group_of,
        dup_groups: None,
        report: None,
        table_selected: None,
        ..o
    })
    &&& n.entries@.len() == 0
    &&& n.filtered@.len() == 0
    &&& n.selected@.len() == 0
    &&& n.group_of@.len() == 0
}

impl App {
    fn flip_vim(&mut self)
        requires
            old(self).wf(),
        ensures
            final(self).wf(),
            *final(self) == vim_flipped(*old(self)),
    {
        self.config.vim_mode = !self.config.vim_mode;
        self.vim_mode = self.config.vim_mode;
    }

    fn set_theme(&mut self, t: ThemeName)
        requires
            old(self).wf(),
        ensures
            final(self).wf(),
            *final(self) == (App { config: Config { theme: t, ..old(self).config }, ..*old(self) }),
    {
        self.config.theme = t;
    }

    fn set_delete_mode(&mut self, m: DeleteMode)
        requires
            old(self).wf(),
        ensures
            final(self).wf(),
            *final(self) == (App {
                config: Config { delete_mode: m, ..old(self).config },
                delete_mode: m,
                ..*old(self)
            }),
    {
        self.config.delete_mode = m;
        self.delete_mode = m;
    }

    fn set_basis(&mut self, b: TimeBasis)
        requires
            old(self).wf(),
        ensures
            final(self).wf(),
            *final(self) == (App {
                config: Config { time_basis: b, ..old(self).config },
                filter: Filter { time_basis: b, ..old(self).filter },
                ..*old(self)
            }),
    {
        self.config.time_basis = b;
        self.filter.time_basis = b;
    }

    fn flip_hidden_setting(&mut self)
        requires
            old(self).wf(),
        ensures
            final(self).wf(),
            *final(self) == hidden_flipped(*old(self)),
    {
        self.config.include_hidden = !self.config.include_hidden;
        self.include_hidden = self.config.include_hidden;
    }

    fn change_vim(&mut self) -> (eff: Effect)
        requires
            old(self).wf(),
            old(self).settings_index == SETTING_VIM,
        ensures
            final(self).wf(),
            setting_changed(*old(self), *final(self), eff),
    {
        reveal(setting_changed);
        self.flip_vim();
        Effect::Nothing
    }

    fn change_theme(&mut self) -> (eff: Effect)
        requires
            old(self).wf(),
            old(self).settings_index == SETTING_THEME,
        ensures
            final(self).wf(),
            setting_changed(*old(self), *final(self), eff),
    {
        reveal(setting_changed);
        let t = self.config.theme.next();
        self.set_theme(t);
        Effect::Nothing
    }

    fn change_delete_mode(&mut self) -> (eff: Effect)
        requires
            old(self).wf(),
            old(self).settings_index == SETTING_DELETE,
        ensures
            final(self).wf(),
            setting_changed(*old(self), *final(self), eff),
    {
        reveal(setting_changed);
        let m = self.config.delete_mode.toggled();
        self.set_delete_mode(m);
        Effect::Nothing
    }

    fn change_basis(&mut self) -> (eff: Effect)
        requires
            old(self).wf(),
            old(self).settings_index == SETTING_BASIS,
        ensures
            final(self).wf(),
            setting_changed(*old(self), *final(self), eff),
    {
        reveal(setting_changed);
        let b = self.config.time_basis.next();
        self.set_basis(b);
        Effect::Nothing
    }

    fn change_hidden(&mut self) -> (eff: Effect)
        requires
            old(self).wf(),
            old(self).settings_index == SETTING_HIDDEN,
        ensures
            final(self).wf(),
            setting_changed(*old(self), *final(self), eff),
    {
        reveal(setting_changed);
        self.flip_hidden_setting();
        Effect::Refresh(Reselect::Keep)
    }

    /// Toggle / cycle the highlighted setting and apply it at once.
    fn settings_change(&mut self) -> (eff: Effect)
        requires
            old(self).wf(),
        ensures
            final(self).wf(),
            setting_changed(*old(self), *final(self), eff),
    {
        if self.settings_index == SETTING_VIM {
            self.change_vim()
        } else if self.settings_index == SETTING_THEME {
            self.change_theme()
        } else if self.settings_index == SETTING_DELETE {
            self.change_delete_mode()
        } else if self.settings_index == SETTING_BASIS {
            self.change_basis()
        } else {
            self.change_hidden()
        }
    }

    pub(crate) fn on_key_settings(&mut self, key: Key) -> (eff: Effect)
        requires
            old(self).wf(),
        ensures
            final(self).wf(),
            settings_key(*old(self), key, *final(self), eff),
    {
        reveal(settings_key);
        let vim = self.vim_mode;
        let code = key.code;
        if code == KeyCode::Esc || code == KeyCode::Char(',') {
            self.show_settings = false;
            Effect::SaveConfig
        } else if code == KeyCode::Up || (vim && code == KeyCode::Char('k')) {
            self.settings_index = (self.settings_index + 4) % 5;
            Effect::Nothing
        } else if code == KeyCode::Down || (vim && code == KeyCode::Char('j')) {
            self.settings_index = (self.settings_index + 1) % 5;
            Effect::Nothing
        } else if code == KeyCode::Left || code == KeyCode::Right || code == KeyCode::Enter
            || code == KeyCode::Char(' ') || code == KeyCode::Char('h') || code == KeyCode::Char('l') {
            self.settings_change()
        } else {
            Effect::Nothing
        }
    }

    pub(crate) fn on_key_empty_trash(&mut self, key: Key) -> (eff: Effect)
        requires
            old(self).wf(),
        ensures
            final(self).wf(),
            empty_trash_key(*old(self), key, *final(self), eff),
    {
        reveal(empty_trash_key);
        let code = key.code;
        if code == KeyCode::Char('y') || code == KeyCode::Enter {
            Effect::EmptyTrash
        } else if code == KeyCode::Esc || code == KeyCode::Char('n') {
            self.confirm_empty_trash = false;
            Effect::Nothing
        } else {
            Effect::Nothing
        }
    }

    /// The entries marked for deletion, in the order they were marked.
    pub(crate) fn marked_copies(&self) -> (r: Vec<FileEntry>)
        requires
            self.wf(),
        ensures
            r@ == marked_entries(*self),
    {
        let mut out: Vec<FileEntry> = Vec::new();
        let mut k: usize = 0;
        while k < self.selected.len()
            invariant
                self.wf(),
                k <= self.selected@.len(),
                out@ == marked_entries(*self).take(k as int),
            decreases self.selected@.len() - k,
        {
            let i = self.selected[k];
            out.push(self.entries[i].duplicate());
            assert(marked_entries(*self).take(k + 1) =~= marked_entries(*self).take(k as int).push(
                self.entries@[i as int],
            ));
            k += 1;
        }
        assert(marked_entries(*self).take(self.selected@.len() as int) =~= marked_entries(*self));
        out
    }

    pub(crate) fn on_key_confirm(&mut self, key: Key) -> (eff: Effect)
        requires
            old(self).wf(),
        ensures
            final(self).wf(),
            confirm_key(*old(self), key, *final(self), eff),
    {
        reveal(confirm_key);
        let code = key.code;
        if code == KeyCode::Char('t') || code == KeyCode::Tab {
            self.delete_mode = self.delete_mode.toggled();
            Effect::Nothing
        } else if code == KeyCode::Char('y') || code == KeyCode::Enter {
            Effect::Delete(self.marked_copies(), self.delete_mode)
        } else if code == KeyCode::Esc || code == KeyCode::Char('n') {
            self.screen = Screen::Review;
            Effect::Nothing
        } else {
            Effect::Nothing
        }
    }

    /// The delete action finished with `report`; `trash` is the new number of
    /// items in the system trash, when it could be read.
    pub fn deleted(&mut self, report: DeleteReport, trash: Option<usize>)
        requires
            old(self).wf(),
        ensures
            final(self).wf(),
            *final(self) == (App {
                status: final(self).status,
                report: final(self).report,
                trash_count: match trash {
                    Some(t) => t,
                    None => old(self).trash_count,
                },
                screen: Screen::Summary,
                ..*old(self)
            }),
            final(self).report == Some(report),
            final(self).status@ == "Deleted "@ + decimal(report.deleted as nat) + " file(s), "@
                + decimal(report.failed@.len()) + " failed"@,
    {
        self.status = String::from_str("Deleted ").concat(decimal_string(report.deleted as u64).as_str()).concat(
            " file(s), ",
        ).concat(decimal_string(report.failed.len() as u64).as_str()).concat(" failed");
        self.report = Some(report);
        match trash {
            Some(t) => {
                self.trash_count = t;
            },
            None => {},
        }
        self.screen = Screen::Summary;
    }

    pub(crate) fn back_to_home(&mut self)
        requires
            old(self).wf(),
        ensures
            final(self).wf(),
            returned_home(*old(self), *final(self)),
    {
        self.screen = Screen::Home;
        self.entries = Vec::new();
        self.filtered = Vec::new();
        self.selected = Vec::new();
        self.group_of = Vec::new();
        self.dup_groups = None;
        self.report = None;
        self.table_selected = None;
    }
}

} // verus!
