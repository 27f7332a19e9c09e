//! Application state and the update logic that reacts to input and to the
//! results of outside work.
//!
//! The state machine never touches the terminal or the filesystem. A key press
//! (or the completion of earlier work) yields an [`Effect`] that the program
//! around it performs; the result is handed back through one of the `on_*` /
//! `finish_*` methods, which may in turn ask for more work.

use vstd::prelude::*;

use crate::clean_core::delete::{DeleteMode, DeleteReport};
use crate::clean_core::filter::{Filter, empty_filter};
use crate::clean_core::model::{FileEntry, ScanMode, TimeBasis, scan_mode_at};
use crate::clean_core::scanner::ScanOptions;
use crate::config::Config;
use crate::numbers::{decimal, decimal_string, parse_i64, parse_i64_exec, parse_unsigned, parse_unsigned_exec};
use crate::text::{file_name_chars, file_name_of, from_chars, to_chars};

verus! {

/// Top-level screen (page) the user is on. Yes/no prompts and forms are modals
/// layered on top of these.
#[derive(Debug, Clone, Copy, PartialEq, Eq, Structural)]
pub enum Screen {
    Home,
    Scanning,
    Review,
    Confirm,
    Summary,
}

/// Rows in the settings modal.
pub const SETTING_COUNT: usize = 5;
pub const SETTING_VIM: usize = 0;
pub const SETTING_THEME: usize = 1;
pub const SETTING_DELETE: usize = 2;
pub const SETTING_BASIS: usize = 3;
pub const SETTING_HIDDEN: usize = 4;

/// Which panel on the home screen currently has focus.
#[derive(Debug, Clone, Copy, PartialEq, Eq, Structural)]
pub enum HomePanel {
    Mode,
    Browser,
    Options,
}

pub open spec fn panel_next(p: HomePanel) -> HomePanel {
    match p {
        HomePanel::Mode => HomePanel::Browser,
        HomePanel::Browser => HomePanel::Options,
        HomePanel::Options => HomePanel::Mode,
    }
}

pub open spec fn panel_prev(p: HomePanel) -> HomePanel {
    match p {
        HomePanel::Mode => HomePanel::Options,
        HomePanel::Browser => HomePanel::Mode,
        HomePanel::Options => HomePanel::Browser,
    }
}

impl HomePanel {
    /// The next panel in the order Mode → Browser → Options → Mode.
    pub fn next(self) -> (r: HomePanel)
        ensures
            r == panel_next(self),
    {
        match self {
            HomePanel::Mode => HomePanel::Browser,
            HomePanel::Browser => HomePanel::Options,
            HomePanel::Options => HomePanel::Mode,
        }
    }

    /// The previous panel.
    pub fn prev(self) -> (r: HomePanel)
        ensures
            r == panel_prev(self),
    {
        match self {
            HomePanel::Mode => HomePanel::Options,
            HomePanel::Browser => HomePanel::Mode,
            HomePanel::Options => HomePanel::Browser,
        }
    }
}

/// Moving focus forward then back (or back then forward) returns to the same
/// panel, and three steps go all the way round.
pub proof fn law_panel_cycle(p: HomePanel)
    ensures
        panel_prev(panel_next(p)) == p,
        panel_next(panel_prev(p)) == p,
        panel_next(panel_next(panel_next(p))) == p,
{
}

/// Rows in the options panel, navigated with up/down.
pub const OPTION_COUNT: usize = 4;
pub const OPTION_AGE: usize = 0;
pub const OPTION_DEPTH: usize = 1;
pub const OPTION_HIDDEN: usize = 2;
pub const OPTION_SYMLINKS: usize = 3;

/// One entry in the directory browser: a display label and where it leads.
#[derive(Debug)]
pub struct BrowseItem {
    pub label: String,
    pub path: String,
    pub is_parent: bool,
}

/// Sort key for the review table.
#[derive(Debug, Clone, Copy, PartialEq, Eq, Structural)]
pub enum SortKey {
    Name,
    Size,
    Modified,
    Extension,
}

pub open spec fn sort_key_next(k: SortKey) -> SortKey {
    match k {
        SortKey::Name => SortKey::Size,
        SortKey::Size => SortKey::Modified,
        SortKey::Modified => SortKey::Extension,
        SortKey::Extension => SortKey::Name,
    }
}

pub open spec fn sort_key_label(k: SortKey) -> Seq<char> {
    match k {
        SortKey::Name => "name"@,
        SortKey::Size => "size"@,
        SortKey::Modified => "modified"@,
        SortKey::Extension => "extension"@,
    }
}

impl SortKey {
    pub fn label(&self) -> (r: &'static str)
        ensures
            r@ == sort_key_label(*self),
    {
        match self {
            SortKey::Name => "name",
            SortKey::Size => "size",
            SortKey::Modified => "modified",
            SortKey::Extension => "extension",
        }
    }

    /// The next key in the order name → size → modified → extension → name.
    pub fn next(self) -> (r: SortKey)
        ensures
            r == sort_key_next(self),
    {
        match self {
            SortKey::Name => SortKey::Size,
            SortKey::Size => SortKey::Modified,
            SortKey::Modified => SortKey::Extension,
            SortKey::Extension => SortKey::Name,
        }
    }
}

/// Cycling the sort key comes back after four steps.
pub proof fn law_sort_key_cycle(k: SortKey)
    ensures
        sort_key_next(sort_key_next(sort_key_next(sort_key_next(k)))) == k,
{
}

/// The labels of the six filter form fields, in order.
pub const FILTER_LABELS: [&'static str; 6] = [
    "Extensions (comma sep, e.g. jpg,png)",
    "Name contains",
    "Min size (e.g. 10MB)",
    "Max size (e.g. 2GB)",
    "Modified after (YYYY-MM-DD)",
    "Modified before (YYYY-MM-DD)",
];

/// Draft state for the filter popup (raw strings, parsed on apply).
#[derive(Debug)]
pub struct FilterDraft {
    pub fields: Vec<String>,
    pub focus: usize,
    pub error: Option<String>,
}

// ------------------------------------------------------------------ input

/// A key of the keyboard, as the state machine sees it.
#[derive(Debug, Clone, Copy, PartialEq, Eq, Structural)]
pub enum KeyCode {
    Char(char),
    F(u8),
    Up,
    Down,
    Left,
    Right,
    Tab,
    BackTab,
    Enter,
    Esc,
    Backspace,
    PageUp,
    PageDown,
    Home,
    End,
    Other,
}

/// Whether the key went down, repeats, or went up.
#[derive(Debug, Clone, Copy, PartialEq, Eq, Structural)]
pub enum KeyKind {
    Press,
    Repeat,
    Release,
}

/// A key event: the key, whether Control was held, and its kind.
#[derive(Debug, Clone, Copy, PartialEq, Eq, Structural)]
pub struct Key {
    pub code: KeyCode,
    pub ctrl: bool,
    pub kind: KeyKind,
}

impl Key {
    /// A plain press of `code`.
    pub fn press(code: KeyCode) -> (r: Key)
        ensures
            r == (Key { code, ctrl: false, kind: KeyKind::Press }),
    {
        Key { code, ctrl: false, kind: KeyKind::Press }
    }
}

// ------------------------------------------------------------------ effects

/// How the browser highlight is placed after the listing is refreshed.
#[derive(Debug)]
pub enum Reselect {
    /// Keep the current highlight, clamped to the new list.
    Keep,
    /// Highlight the first row.
    Top,
    /// Highlight the row leading to this path (the directory we came from), or
    /// the first row.
    Previous(String),
}

/// What the scan thread should do.
#[derive(Debug)]
pub struct ScanRequest {
    pub root: String,
    pub opts: ScanOptions,
    pub mode: ScanMode,
    pub age: u32,
}

/// Outside work requested by the state machine.
#[derive(Debug)]
pub enum Effect {
    /// Nothing to do.
    Nothing,
    /// List the sub-directories of `browse_dir` and call `finish_refresh`.
    Refresh(Reselect),
    /// Look up the home directory and call `go_home`.
    OpenHome,
    /// Check that `root` is a directory; if so start the scan and call
    /// `scan_started`, otherwise call `scan_refused`.
    Scan(ScanRequest),
    /// Stop listening to the running scan.
    DetachScan,
    /// Count the items in the system trash and call `trash_counted`.
    CountTrash,
    /// Purge the system trash and call `trash_emptied`.
    EmptyTrash,
    /// Delete these entries with this mode and call `deleted`.
    Delete(Vec<FileEntry>, DeleteMode),
    /// Write the configuration to disk and call `config_saved`.
    SaveConfig,
    /// Read the size fields of the open filter form and call
    /// `apply_filter_draft`.
    ApplyFilter,
}


// ------------------------------------------------------------------ state

/// The whole application state.
#[derive(Debug)]
pub struct App {
    pub running: bool,
    pub config: Config,
    pub screen: Screen,
    pub status: String,
    pub trash_count: usize,
    /// Animation frame counter (drives the scan spinner).
    pub frame: u64,
    /// Vim-style navigation (hjkl, gg/G).
    pub vim_mode: bool,
    /// Tracks a pending `g` for the vim `gg` (go-to-top) chord.
    pub pending_g: bool,
    // --- Modals (layered over the current screen) ---
    pub show_help: bool,
    pub confirm_empty_trash: bool,
    pub show_settings: bool,
    pub settings_index: usize,
    // --- Home screen ---
    pub mode_index: usize,
    pub home_panel: HomePanel,
    pub option_index: usize,
    pub age_input: String,
    pub depth_input: String,
    pub include_hidden: bool,
    pub follow_symlinks: bool,
    // --- Directory browser ---
    pub browse_dir: String,
    pub browse_items: Vec<BrowseItem>,
    pub browse_selected: Option<usize>,
    // --- Scanning ---
    /// A scan is running and its messages are being listened to.
    pub scan_attached: bool,
    pub scan_stage: String,
    pub scan_count: usize,
    pub scanning_mode: ScanMode,
    // --- Review ---
    pub entries: Vec<FileEntry>,
    pub dup_groups: Option<Vec<Vec<usize>>>,
    pub group_of: Vec<Option<usize>>,
    pub filtered: Vec<usize>,
    pub selected: Vec<usize>,
    pub table_selected: Option<usize>,
    pub filter: Filter,
    pub sort_key: SortKey,
    pub sort_desc: bool,
    pub filter_draft: Option<FilterDraft>,
    // --- Confirm ---
    pub delete_mode: DeleteMode,
    // --- Summary ---
    pub report: Option<DeleteReport>,
}

/// Every character is an ASCII digit.
pub open spec fn digits_only(s: Seq<char>) -> bool {
    forall|i: int| 0 <= i < s.len() ==> '0' <= #[trigger] s[i] <= '9'
}

impl App {
    /// The invariant kept by every transition.
    pub open spec fn wf(&self) -> bool {
        &&& self.mode_index < 4
        &&& self.option_index < OPTION_COUNT
        &&& self.settings_index < SETTING_COUNT
        &&& digits_only(self.age_input@)
        &&& digits_only(self.depth_input@)
        &&& self.group_of@.len() == self.entries@.len()
        &&& forall|k: int|
            0 <= k < self.filtered@.len() ==> (#[trigger] self.filtered@[k] as int)
                < self.entries@.len()
        &&& self.filtered@.no_duplicates()
        &&& forall|k: int|
            0 <= k < self.selected@.len() ==> (#[trigger] self.selected@[k] as int)
                < self.entries@.len()
        &&& self.selected@.no_duplicates()
        &&& match self.table_selected {
            Some(s) => s < self.filtered@.len(),
            None => true,
        }
        &&& match &self.filter_draft {
            Some(d) => d.fields@.len() == 6 && d.focus < 6,
            None => true,
        }
    }

    /// The set of entry indices marked for deletion.
    pub open spec fn marked(&self) -> Set<usize> {
        self.selected@.to_set()
    }

    /// The mode highlighted on the home screen.
    pub open spec fn mode(&self) -> ScanMode {
        scan_mode_at(self.mode_index as int)
    }

    pub fn current_mode(&self) -> (r: ScanMode)
        requires
            self.wf(),
        ensures
            r == self.mode(),
    {
        ScanMode::at(self.mode_index)
    }
}

/// The initial state for `config`, browsing `start_dir`, with `trash_count`
/// items in the system trash. The browser listing is filled in by the
/// [`Effect::Refresh`] that should follow.
pub open spec fn initial_state(a: App, config: Config, start_dir: Seq<char>, trash_count: usize) -> bool {
    &&& a.wf()
    &&& a.running
    &&& a.config == config
    &&& a.screen == Screen::Home
    &&& a.status@ == "Pick a mode (left), browse to a folder (Tab), then press 's' to scan."@
    &&& a.trash_count == trash_count
    &&& a.frame == 0
    &&& a.vim_mode == config.vim_mode
    &&& !a.pending_g && !a.show_help && !a.confirm_empty_trash && !a.show_settings
    &&& a.settings_index == 0 && a.mode_index == 0 && a.option_index == 0
    &&& a.home_panel == HomePanel::Mode
    &&& a.age_input@ == decimal(config.default_age_days as nat)
    &&& a.depth_input@ == match config.max_depth {
        Some(d) => decimal(d as nat),
        None => Seq::empty(),
    }
    &&& a.include_hidden == config.include_hidden
    &&& a.follow_symlinks == config.follow_symlinks
    &&& a.browse_dir@ == start_dir
    &&& a.browse_items@.len() == 0
    &&& a.browse_selected is None
    &&& !a.scan_attached
    &&& a.scan_stage@.len() == 0
    &&& a.scan_count == 0
    &&& a.scanning_mode == ScanMode::Duplicates
    &&& a.entries@.len() == 0 && a.dup_groups is None && a.filtered@.len() == 0
    &&& a.selected@.len() == 0 && a.table_selected is None
    &&& empty_filter(a.filter, TimeBasis::Modified)
    &&& a.sort_key == SortKey::Size && a.sort_desc
    &&& a.filter_draft is None
    &&& a.delete_mode == config.delete_mode
    &&& a.report is None
}

proof fn lemma_decimal_digits(n: nat)
    ensures
        digits_only(decimal(n)),
    decreases n,
{
    if n >= 10 {
        lemma_decimal_digits(n / 10);
        let d = n % 10;
        assert(digits_only(decimal(n / 10).push(crate::numbers::digit_char(d)))) by {
            assert(('0' as u32) <= (d + 48) as u32 <= ('9' as u32));
        }
    } else {
        assert(('0' as u32) <= (n + 48) as u32 <= ('9' as u32));
    }
}

impl App {
    pub fn new(config: Config, start_dir: String, trash_count: usize) -> (r: App)
        ensures
            initial_state(r, config, start_dir@, trash_count),
    {
        let depth_input = match config.max_depth {
            Some(d) => decimal_string(d as u64),
            None => String::new(),
        };
        let age_input = decimal_string(config.default_age_days as u64);
        proof {
            lemma_decimal_digits(config.default_age_days as nat);
            match config.max_depth {
                Some(d) => lemma_decimal_digits(d as nat),
                None => {},
            }
        }
        let vim_mode = config.vim_mode;
        let include_hidden = config.include_hidden;
        let follow_symlinks = config.follow_symlinks;
        let delete_mode = config.delete_mode;
        let app = App {
            running: true,
            screen: Screen::Home,
            status: String::from_str(
                "Pick a mode (left), browse to a folder (Tab), then press 's' to scan.",
            ),
            trash_count,
            frame: 0,
            vim_mode,
            pending_g: false,
            show_help: false,
            confirm_empty_trash: false,
            show_settings: false,
            settings_index: 0,
            mode_index: 0,
            home_panel: HomePanel::Mode,
            option_index: 0,
            age_input,
            depth_input,
            include_hidden,
            follow_symlinks,
            browse_dir: start_dir,
            browse_items: Vec::new(),
            browse_selected: None,
            scan_attached: false,
            scan_stage: String::new(),
            scan_count: 0,
            scanning_mode: ScanMode::Duplicates,
            entries: Vec::new(),
            dup_groups: None,
            group_of: Vec::new(),
            filtered: Vec::new(),
            selected: Vec::new(),
            table_selected: None,
            filter: Filter::default(),
            sort_key: SortKey::Size,
            sort_desc: true,
            filter_draft: None,
            delete_mode,
            report: None,
            config,
        };
        proof {
            assert(app.depth_input@ == match config.max_depth {
                Some(d) => decimal(d as nat),
                None => Seq::empty(),
            });
        }
        app
    }
}


// ------------------------------------------------------------------ home screen

/// The age after stepping the age option by `delta`: the current value (30
/// when it does not parse) moved by `delta` and clamped to 1..=99999.
pub open spec fn stepped_age(input: Seq<char>, delta: i64) -> int {
    let cur: int = match parse_i64(crate::text::trim(input)) {
        Some(v) => v as int,
        None => 30,
    };
    let next = cur + delta;
    if next < 1 {
        1
    } else if next > 99_999 {
        99_999
    } else {
        next
    }
}

/// The depth after stepping the depth option by `delta` (`None`: no change,
/// when unlimited and stepping down). The sum wraps like `i64` arithmetic.
pub open spec fn stepped_depth(input: Seq<char>, delta: i64) -> Option<int> {
    match parse_i64(crate::text::trim(input)) {
        Some(v) => {
            let w = v + delta;
            let wrapped = if w > i64::MAX {
                w - 18_446_744_073_709_551_616
            } else {
                w
            };
            Some(
                if wrapped < 0 {
                    0
                } else {
                    wrapped
                },
            )
        },
        None => if delta < 0 {
            None
        } else {
            Some(1)
        },
    }
}

/// The scan that the home screen's settings describe.
pub open spec fn scan_request_of(a: App, r: ScanRequest) -> bool {
    let age_trim = crate::text::trim(a.age_input@);
    let depth_trim = crate::text::trim(a.depth_input@);
    let age: nat = match parse_unsigned(age_trim, u32::MAX as nat) {
        Some(v) => v,
        None => a.config.default_age_days as nat,
    };
    &&& r.root@ == a.browse_dir@
    &&& r.mode == a.mode()
    &&& r.age == if age < 1 {
        1
    } else {
        age
    }
    &&& r.opts.include_hidden == a.include_hidden
    &&& r.opts.follow_symlinks == a.follow_symlinks
    &&& r.opts.max_depth == if depth_trim.len() == 0 {
        None::<usize>
    } else {
        match parse_unsigned(depth_trim, usize::MAX as nat) {
            Some(v) => Some(v as usize),
            None => None,
        }
    }
}

pub open spec fn label_of_dir(p: Seq<char>) -> Seq<char> {
    if file_name_of(p).len() == 0 {
        "?/"@
    } else {
        file_name_of(p) + "/"@
    }
}

impl App {
    fn mode_prev(&mut self)
        requires
            old(self).wf(),
        ensures
            *final(self) == (App { mode_index: ((old(self).mode_index + 3) % 4) as usize, ..*old(self) }),
            final(self).wf(),
    {
        self.mode_index = (self.mode_index + 3) % 4;
    }

    fn mode_next(&mut self)
        requires
            old(self).wf(),
        ensures
            *final(self) == (App { mode_index: ((old(self).mode_index + 1) % 4) as usize, ..*old(self) }),
            final(self).wf(),
    {
        self.mode_index = (self.mode_index + 1) % 4;
    }

    /// Step the highlighted option left (`delta` = -1) or right (+1).
    #[verifier::rlimit(40)]
    fn adjust_option(&mut self, delta: i64) -> (eff: Effect)
        requires
            old(self).wf(),
            delta == -1 || delta == 1,
        ensures
            final(self).wf(),
            adjusted(*old(self), delta as int, *final(self), eff),
    {
        reveal(adjusted);
        if self.option_index == OPTION_AGE {
            let t = crate::text::trim_str(self.age_input.as_str());
            let cur: i128 = match parse_i64_exec(t.as_str()) {
                Some(v) => v as i128,
                None => 30,
            };
            let next0: i128 = cur + delta as i128;
            let next: i128 = if next0 < 1 {
                1
            } else if next0 > 99_999 {
                99_999
            } else {
                next0
            };
            self.age_input = decimal_string(next as u64);
            proof {
                lemma_decimal_digits(next as nat);
            }
            Effect::Nothing
        } else if self.option_index == OPTION_DEPTH {
            let t = crate::text::trim_str(self.depth_input.as_str());
            let next: i128 = match parse_i64_exec(t.as_str()) {
                Some(v) => {
                    let w: i128 = v as i128 + delta as i128;
                    let wrapped: i128 = if w > 9_223_372_036_854_775_807i128 {
                        w - 18_446_744_073_709_551_616i128
                    } else {
                        w
                    };
                    if wrapped < 0 {
                        0
                    } else {
                        wrapped
                    }
                },
                None => {
                    if delta < 0 {
                        return Effect::Nothing;
                    }
                    1
                },
            };
            self.depth_input = decimal_string(next as u64);
            proof {
                lemma_decimal_digits(next as nat);
            }
            Effect::Nothing
        } else if self.option_index == OPTION_HIDDEN {
            self.include_hidden = !self.include_hidden;
            Effect::Refresh(Reselect::Keep)
        } else {
            self.follow_symlinks = !self.follow_symlinks;
            Effect::Nothing
        }
    }

    /// The scan the home screen's settings describe.
    fn scan_request(&self) -> (r: ScanRequest)
        requires
            self.wf(),
        ensures
            scan_request_of(*self, r),
    {
        let at = crate::text::trim_str(self.age_input.as_str());
        let parsed = parse_unsigned_exec(at.as_str(), 4_294_967_295u64);
        let age0: u32 = match parsed {
            Some(v) => v as u32,
            None => self.config.default_age_days,
        };
        let age: u32 = if age0 < 1 {
            1
        } else {
            age0
        };
        let dt = crate::text::trim_str(self.depth_input.as_str());
        let dv = to_chars(dt.as_str());
        let max_depth: Option<usize> = if dv.len() == 0 {
            None
        } else {
            match parse_unsigned_exec(dt.as_str(), usize::MAX as u64) {
                Some(v) => Some(v as usize),
                None => None,
            }
        };
        ScanRequest {
            root: self.browse_dir.clone(),
            opts: ScanOptions {
                max_depth,
                include_hidden: self.include_hidden,
                follow_symlinks: self.follow_symlinks,
            },
            mode: self.current_mode(),
            age,
        }
    }

    /// The scan root turned out not to be a directory.
    pub fn scan_refused(&mut self)
        requires
            old(self).wf(),
        ensures
            final(self).wf(),
            *final(self) == (App { status: final(self).status, ..*old(self) }),
            final(self).status@ == "Not a directory: "@ + old(self).browse_dir@,
    {
        self.status = String::from_str("Not a directory: ").concat(self.browse_dir.as_str());
    }

    /// The scan thread for `mode` has been started.
    pub fn scan_started(&mut self, mode: ScanMode)
        requires
            old(self).wf(),
        ensures
            final(self).wf(),
            *final(self) == (App {
                scan_attached: true,
                scanning_mode: mode,
                scan_stage: final(self).scan_stage,
                scan_count: 0,
                screen: Screen::Scanning,
                selected: final(self).selected,
                filter: final(self).filter,
                ..*old(self)
            }),
            final(self).scan_stage@ == "Scanning files"@,
            final(self).selected@.len() == 0,
            empty_filter(final(self).filter, old(self).config.time_basis),
    {
        self.scan_attached = true;
        self.scanning_mode = mode;
        self.scan_stage = String::from_str("Scanning files");
        self.scan_count = 0;
        self.screen = Screen::Scanning;
        self.selected = Vec::new();
        self.filter = Filter::with_basis(self.config.time_basis);
    }

    /// Progress reported by the scan thread.
    pub fn scan_progress(&mut self, stage: String, count: usize)
        requires
            old(self).wf(),
        ensures
            final(self).wf(),
            *final(self) == (App { scan_stage: stage, scan_count: count, ..*old(self) }),
    {
        self.scan_stage = stage;
        self.scan_count = count;
    }

    /// The scan thread failed with `message`.
    pub fn scan_failed(&mut self, message: String)
        requires
            old(self).wf(),
        ensures
            final(self).wf(),
            *final(self) == (App {
                scan_attached: false,
                status: final(self).status,
                screen: Screen::Home,
                ..*old(self)
            }),
            final(self).status@ == "Scan failed: "@ + message@,
    {
        self.scan_attached = false;
        self.status = String::from_str("Scan failed: ").concat(message.as_str());
        self.screen = Screen::Home;
    }

    /// The scan thread went away without a result.
    pub fn scan_disconnected(&mut self)
        requires
            old(self).wf(),
        ensures
            final(self).wf(),
            *final(self) == (App { scan_attached: false, ..*old(self) }),
    {
        self.scan_attached = false;
    }

    /// Advance the animation clock.
    pub fn tick(&mut self)
        requires
            old(self).wf(),
        ensures
            final(self).wf(),
            *final(self) == (App {
                frame: if old(self).frame == u64::MAX {
                    0
                } else {
                    (old(self).frame + 1) as u64
                },
                ..*old(self)
            }),
    {
        self.frame = if self.frame == u64::MAX {
            0
        } else {
            self.frame + 1
        };
    }

    /// The system trash holds `count` items (0 when it could not be read).
    pub fn trash_counted(&mut self, count: usize)
        requires
            old(self).wf(),
        ensures
            final(self).wf(),
            count == 0 ==> *final(self) == (App { trash_count: 0, status: final(self).status, ..*old(self) })
                && final(self).status@ == "Trash is already empty"@,
            count > 0 ==> *final(self) == (App { trash_count: count, confirm_empty_trash: true, ..*old(self) }),
    {
        self.trash_count = count;
        if count == 0 {
            self.status = String::from_str("Trash is already empty");
        } else {
            self.confirm_empty_trash = true;
        }
    }

    /// The system trash was emptied (`Ok` with the number of purged items) or
    /// could not be (`Err` with the reason).
    pub fn trash_emptied(&mut self, outcome: Result<usize, String>)
        requires
            old(self).wf(),
        ensures
            final(self).wf(),
            *final(self) == (App {
                status: final(self).status,
                trash_count: 0,
                confirm_empty_trash: false,
                ..*old(self)
            }),
            final(self).status@ == match outcome {
                Ok(n) => "Emptied trash ("@ + decimal(n as nat) + " item(s) purged)"@,
                Err(e) => "Failed to empty trash: "@ + e@,
            },
    {
        match outcome {
            Ok(n) => {
                self.status = String::from_str("Emptied trash (").concat(
                    decimal_string(n as u64).as_str(),
                ).concat(" item(s) purged)");
            },
            Err(e) => {
                self.status = String::from_str("Failed to empty trash: ").concat(e.as_str());
            },
        }
        self.trash_count = 0;
        self.confirm_empty_trash = false;
    }

    /// The configuration was written (`Ok`) or could not be (`Err`).
    pub fn config_saved(&mut self, outcome: Result<(), String>)
        requires
            old(self).wf(),
        ensures
            final(self).wf(),
            *final(self) == (App { status: final(self).status, ..*old(self) }),
            final(self).status@ == match outcome {
                Ok(_) => "Settings saved"@,
                Err(e) => "Could not save settings: "@ + e@,
            },
    {
        match outcome {
            Ok(()) => {
                self.status = String::from_str("Settings saved");
            },
            Err(e) => {
                self.status = String::from_str("Could not save settings: ").concat(e.as_str());
            },
        }
    }
}


// ------------------------------------------------------------------ browser

/// A sub-directory is shown unless hidden ones are excluded and its name starts
/// with a dot.
pub open spec fn dir_shown(p: Seq<char>, include_hidden: bool) -> bool {
    include_hidden || !(file_name_of(p).len() > 0 && file_name_of(p)[0] == '.')
}

/// The shown sub-directories, in the order given.
pub open spec fn shown_dirs(s: Seq<Seq<char>>, include_hidden: bool) -> Seq<Seq<char>>
    decreases s.len(),
{
    if s.len() == 0 {
        Seq::empty()
    } else {
        let rest = shown_dirs(s.drop_last(), include_hidden);
        if dir_shown(s.last(), include_hidden) {
            rest.push(s.last())
        } else {
            rest
        }
    }
}

pub open spec fn ascii_lower_seq(s: Seq<char>) -> Seq<char> {
    s.map_values(|c: char| crate::text::ascii_lower(c))
}

/// The sort key of a directory in the browser: its name, ASCII-lower-cased.
pub open spec fn dir_key(p: Seq<char>) -> (int, int, Seq<char>) {
    (0, 0, ascii_lower_seq(file_name_of(p)))
}

/// `sorted` is `dirs` stably sorted by name, ignoring ASCII case.
pub open spec fn sorted_by_name(dirs: Seq<Seq<char>>, sorted: Seq<Seq<char>>) -> bool {
    exists|perm: Seq<usize>|
        crate::sorting::is_stable_order(dirs.map_values(|p: Seq<char>| dir_key(p)), false, perm)
            && #[trigger] perm.len() == sorted.len() && forall|k: int|
            0 <= k < sorted.len() ==> sorted[k] == dirs[#[trigger] perm[k] as int]
}

pub open spec fn string_views(v: Seq<String>) -> Seq<Seq<char>> {
    v.map_values(|s: String| s@)
}

fn ascii_lower_chars(v: &[char]) -> (r: Vec<char>)
    ensures
        r@ == ascii_lower_seq(v@),
{
    let mut r: Vec<char> = Vec::new();
    let mut i: usize = 0;
    while i < v.len()
        invariant
            i <= v.len(),
            r@ == ascii_lower_seq(v@.take(i as int)),
        decreases v.len() - i,
    {
        r.push(crate::text::char_ascii_lower(v[i]));
        assert(ascii_lower_seq(v@.take(i + 1)) =~= ascii_lower_seq(v@.take(i as int)).push(
            crate::text::ascii_lower(v@[i as int]),
        ));
        i += 1;
    }
    assert(v@.take(v.len() as int) =~= v@);
    r
}

/// Sub-directories to list: hidden ones dropped unless `include_hidden`, then
/// sorted by name ignoring ASCII case (ties keep their order).
pub fn subdir_listing(subdirs: Vec<String>, include_hidden: bool) -> (r: Vec<String>)
    ensures
        sorted_by_name(shown_dirs(string_views(subdirs@), include_hidden), string_views(r@)),
{
    let ghost all = string_views(subdirs@);
    let mut shown: Vec<String> = Vec::new();
    let mut keys: Vec<crate::sorting::SortVal> = Vec::new();
    let mut i: usize = 0;
    while i < subdirs.len()
        invariant
            i <= subdirs.len(),
            all == string_views(subdirs@),
            string_views(shown@) == shown_dirs(all.take(i as int), include_hidden),
            keys@.len() == shown@.len(),
            forall|k: int|
                0 <= k < keys@.len() ==> crate::sorting::key_view(#[trigger] keys@[k]) == dir_key(
                    shown@[k]@,
                ),
        decreases subdirs.len() - i,
    {
        assert(all.take(i + 1).drop_last() =~= all.take(i as int));
        assert(all.take(i + 1).last() == subdirs@[i as int]@);
        let v = to_chars(subdirs[i].as_str());
        let name = file_name_chars(&v);
        let hidden = name.len() > 0 && name[0] == '.';
        if include_hidden || !hidden {
            let ghost old_shown = shown@;
            shown.push(subdirs[i].clone());
            keys.push(crate::sorting::SortVal { major: 0, minor: 0, text: ascii_lower_chars(&name) });
            assert(string_views(shown@) =~= string_views(old_shown).push(subdirs@[i as int]@));
        }
        i += 1;
    }
    assert(all.take(subdirs.len() as int) =~= all);
    let perm = crate::sorting::stable_order(&keys, false);
    let ghost kv = crate::sorting::keys_view(keys@);
    let ghost sv = string_views(shown@);
    assert(kv =~= sv.map_values(|p: Seq<char>| dir_key(p)));
    let mut out: Vec<String> = Vec::new();
    let mut k: usize = 0;
    while k < perm.len()
        invariant
            k <= perm@.len(),
            crate::sorting::is_permutation(perm@, shown@.len() as int),
            out@.len() == k,
            forall|j: int| 0 <= j < k ==> out@[j] == shown@[#[trigger] perm@[j] as int],
        decreases perm@.len() - k,
    {
        out.push(shown[perm[k]].clone());
        k += 1;
    }
    proof {
        let ov = string_views(out@);
        assert(perm@.len() == ov.len());
        assert forall|j: int| 0 <= j < ov.len() implies ov[j] == sv[#[trigger] perm@[j] as int] by {
            assert(out@[j] == shown@[perm@[j] as int]);
        }
    }
    out
}

pub open spec fn item_view(b: BrowseItem) -> (Seq<char>, Seq<char>, bool) {
    (b.label@, b.path@, b.is_parent)
}

pub open spec fn rows_of(items: Seq<BrowseItem>) -> Seq<(Seq<char>, Seq<char>, bool)> {
    items.map_values(|b: BrowseItem| item_view(b))
}

/// The browser rows for a directory with parent `parent` and (listed)
/// sub-directories `dirs`.
pub open spec fn browser_rows(parent: Option<Seq<char>>, dirs: Seq<Seq<char>>) -> Seq<(Seq<char>, Seq<char>, bool)> {
    let head = match parent {
        Some(p) => seq![("../"@, p, true)],
        None => Seq::empty(),
    };
    head + dirs.map_values(|d: Seq<char>| (label_of_dir(d), d, false))
}

/// Index of the first row leading to `p`, if any.
pub open spec fn row_leading_to(rows: Seq<(Seq<char>, Seq<char>, bool)>, p: Seq<char>) -> Option<int> {
    if exists|i: int| 0 <= i < rows.len() && #[trigger] rows[i].1 == p {
        Some(choose|i: int| 0 <= i < rows.len() && #[trigger] rows[i].1 == p && forall|j: int| 0 <= j < i ==> rows[j].1 != p)
    } else {
        None
    }
}

/// The browser rows for `parent` and the listed sub-directories.
fn build_rows(parent: Option<String>, listed: &Vec<String>) -> (items: Vec<BrowseItem>)
    ensures
        rows_of(items@) == browser_rows(
            match parent {
                Some(p) => Some(p@),
                None => None,
            },
            string_views(listed@),
        ),
{
    let ghost lv = string_views(listed@);
    let mut items: Vec<BrowseItem> = Vec::new();
    match parent {
        Some(parent) => {
            items.push(BrowseItem { label: String::from_str("../"), path: parent, is_parent: true });
        },
        None => {},
    }
    let base = items.len();
    let ghost start = rows_of(items@);
    let mut k: usize = 0;
    while k < listed.len()
        invariant
            k <= listed@.len(),
            lv == string_views(listed@),
            items@.len() == base + k,
            rows_of(items@) == start + lv.take(k as int).map_values(
                |d: Seq<char>| (label_of_dir(d), d, false),
            ),
        decreases listed@.len() - k,
    {
        let v = to_chars(listed[k].as_str());
        let name = file_name_chars(&v);
        let label = if name.len() == 0 {
            String::from_str("?/")
        } else {
            from_chars(&name).concat("/")
        };
        let ghost before = rows_of(items@);
        items.push(BrowseItem { label, path: listed[k].clone(), is_parent: false });
        proof {
            assert(rows_of(items@) =~= before.push(
                (label_of_dir(lv[k as int]), lv[k as int], false),
            ));
            assert(lv.take(k + 1) =~= lv.take(k as int).push(lv[k as int]));
            assert(lv.take(k + 1).map_values(|d: Seq<char>| (label_of_dir(d), d, false)) =~= lv.take(
                k as int,
            ).map_values(|d: Seq<char>| (label_of_dir(d), d, false)).push(
                (label_of_dir(lv[k as int]), lv[k as int], false),
            ));
        }
        k += 1;
    }
    proof {
        assert(lv.take(listed@.len() as int) =~= lv);
    }
    items
}

/// The first row leading to `p`.
fn find_row(items: &Vec<BrowseItem>, p: &String) -> (r: Option<usize>)
    ensures
        match r {
            Some(f) => row_leading_to(rows_of(items@), p@) == Some(f as int),
            None => row_leading_to(rows_of(items@), p@) is None,
        },
{
    let ghost rows = rows_of(items@);
    let mut i: usize = 0;
    while i < items.len()
        invariant
            i <= items@.len(),
            rows == rows_of(items@),
            forall|j: int| 0 <= j < i ==> rows[j].1 != p@,
        decreases items@.len() - i,
    {
        if crate::text::str_eq(items[i].path.as_str(), p.as_str()) {
            proof {
                assert(rows[i as int].1 == p@);
                let c = choose|c: int| 0 <= c < rows.len() && #[trigger] rows[c].1 == p@ && forall|j: int| 0 <= j < c ==> rows[j].1 != p@;
                if c < i {
                } else if c > i {
                    assert(rows[i as int].1 == p@);
                }
            }
            return Some(i);
        }
        i += 1;
    }
    None
}

impl App {
    /// The listing of `browse_dir` is in: rebuild the rows and place the
    /// highlight as `reselect` asks.
    pub fn finish_refresh(&mut self, subdirs: Vec<String>, reselect: Reselect) -> (eff: Effect)
        requires
            old(self).wf(),
        ensures
            final(self).wf(),
            eff is Nothing,
            *final(self) == (App {
                browse_items: final(self).browse_items,
                browse_selected: final(self).browse_selected,
                ..*old(self)
            }),
            exists|listed: Seq<Seq<char>>|
                {
                    &&& #[trigger] sorted_by_name(
                        shown_dirs(string_views(subdirs@), old(self).include_hidden),
                        listed,
                    )
                    &&& rows_of(final(self).browse_items@)
                        == browser_rows(crate::text::path_parent(old(self).browse_dir@), listed)
                },
            ({
                let rows = rows_of(final(self).browse_items@);
                let n = rows.len();
                let kept: Option<usize> = if n == 0 {
                    None
                } else {
                    Some(
                        match old(self).browse_selected {
                            Some(s) => if s < n - 1 { s } else { (n - 1) as usize },
                            None => 0,
                        },
                    )
                };
                final(self).browse_selected == match reselect {
                    Reselect::Keep => kept,
                    Reselect::Top => Some(0usize),
                    Reselect::Previous(p) => match row_leading_to(rows, p@) {
                        Some(i) => Some(i as usize),
                        None => Some(0usize),
                    },
                }
            }),
    {
        let listed = subdir_listing(subdirs, self.include_hidden);
        let parent = crate::text::parent_dir(self.browse_dir.as_str());
        let items = build_rows(parent, &listed);
        let n = items.len();
        let sel: usize = match self.browse_selected {
            Some(s) => s,
            None => 0,
        };
        let kept: Option<usize> = if n == 0 {
            None
        } else {
            Some(if sel < n - 1 { sel } else { n - 1 })
        };
        let chosen: Option<usize> = match reselect {
            Reselect::Keep => kept,
            Reselect::Top => Some(0),
            Reselect::Previous(p) => match find_row(&items, &p) {
                Some(f) => Some(f),
                None => Some(0),
            },
        };
        self.browse_items = items;
        self.browse_selected = chosen;
        Effect::Nothing
    }
}


// ------------------------------------------------------------------ home keys

/// `n` is `o` with the browser highlight moved by `delta` rows (clamped to the
/// list; nothing changes when the list is empty).
#[verifier::opaque]
pub open spec fn moved_browse(o: App, n: App, delta: int) -> bool {
    if o.browse_items@.len() == 0 {
        n == o
    } else {
        let cur: int = match o.browse_selected {
            Some(s) => s as int,
            None => 0,
        };
        let last = o.browse_items@.len() - 1;
        let t = cur + delta;
        let c = if t < 0 {
            0
        } else if t > last {
            last
        } else {
            t
        };
        n == (App { browse_selected: Some(c as usize), ..o })
    }
}

/// `n`/`eff` describe opening the highlighted browser row of `o`.
#[verifier::opaque]
pub open spec fn opened_row(o: App, n: App, eff: Effect) -> bool {
    match o.browse_selected {
        Some(s) if (s as int) < o.browse_items@.len() => {
            &&& n == (App { browse_dir: n.browse_dir, ..o })
            &&& n.browse_dir@ == o.browse_items@[s as int].path@
            &&& eff matches Effect::Refresh(Reselect::Previous(p)) && p@ == o.browse_dir@
        },
        _ => n == o && eff is Nothing,
    }
}

/// `n`/`eff` describe going up to the parent directory of `o`'s browser.
#[verifier::opaque]
pub open spec fn went_up(o: App, n: App, eff: Effect) -> bool {
    match crate::text::path_parent(o.browse_dir@) {
        Some(parent) => {
            &&& n == (App { browse_dir: n.browse_dir, ..o })
            &&& n.browse_dir@ == parent
            &&& eff matches Effect::Refresh(Reselect::Previous(p)) && p@ == o.browse_dir@
        },
        None => n == o && eff is Nothing,
    }
}

pub open spec fn is_char(k: Key, c: char) -> bool {
    k.code == KeyCode::Char(c)
}

pub open spec fn is_digit_key(k: Key) -> bool {
    match k.code {
        KeyCode::Char(c) => '0' <= c <= '9',
        _ => false,
    }
}

pub open spec fn key_char(k: Key) -> char {
    match k.code {
        KeyCode::Char(c) => c,
        _ => ' ',
    }
}

/// `n`/`eff` describe the options panel reacting to `key`.
#[verifier::opaque]
pub open spec fn options_key(o: App, key: Key, n: App, eff: Effect) -> bool {
    let vim = o.vim_mode;
    if key.code == KeyCode::Up || (vim && is_char(key, 'k')) {
        n == (App { option_index: ((o.option_index + 3) % 4) as usize, ..o }) && eff is Nothing
    } else if key.code == KeyCode::Down || (vim && is_char(key, 'j')) {
        n == (App { option_index: ((o.option_index + 1) % 4) as usize, ..o }) && eff is Nothing
    } else if key.code == KeyCode::Left || (vim && is_char(key, 'h')) {
        adjusted(o, -1, n, eff)
    } else if key.code == KeyCode::Right || (vim && is_char(key, 'l')) {
        adjusted(o, 1, n, eff)
    } else if is_char(key, ' ') {
        if o.option_index == OPTION_HIDDEN {
            n == (App { include_hidden: !o.include_hidden, ..o }) && eff matches Effect::Refresh(Reselect::Keep)
        } else if o.option_index == OPTION_SYMLINKS {
            n == (App { follow_symlinks: !o.follow_symlinks, ..o }) && eff is Nothing
        } else {
            n == o && eff is Nothing
        }
    } else if is_digit_key(key) {
        eff is Nothing && if o.option_index == OPTION_AGE && o.age_input@.len() < 5 {
            n == (App { age_input: n.age_input, ..o }) && n.age_input@ == o.age_input@.push(key_char(key))
        } else if o.option_index == OPTION_DEPTH && o.depth_input@.len() < 3 {
            n == (App { depth_input: n.depth_input, ..o }) && n.depth_input@ == o.depth_input@.push(key_char(key))
        } else {
            n == o
        }
    } else if key.code == KeyCode::Backspace {
        eff is Nothing && if o.option_index == OPTION_AGE {
            n == (App { age_input: n.age_input, ..o }) && n.age_input@ == (if o.age_input@.len() > 0 { o.age_input@.drop_last() } else { o.age_input@ })
        } else if o.option_index == OPTION_DEPTH {
            n == (App { depth_input: n.depth_input, ..o }) && n.depth_input@ == (if o.depth_input@.len() > 0 { o.depth_input@.drop_last() } else { o.depth_input@ })
        } else {
            n == o
        }
    } else {
        n == o && eff is Nothing
    }
}

/// `n`/`eff` describe stepping the highlighted option of `o` by `delta`.
#[verifier::opaque]
pub open spec fn adjusted(o: App, delta: int, n: App, eff: Effect) -> bool {
    if o.option_index == OPTION_AGE {
        n == (App { age_input: n.age_input, ..o }) && n.age_input@ == decimal(stepped_age(o.age_input@, delta as i64) as nat) && eff is Nothing
    } else if o.option_index == OPTION_DEPTH {
        n == (App { depth_input: n.depth_input, ..o }) && n.depth_input@ == (match stepped_depth(o.depth_input@, delta as i64) {
            Some(d) => decimal(d as nat),
            None => o.depth_input@,
        }) && eff is Nothing
    } else if o.option_index == OPTION_HIDDEN {
        n == (App { include_hidden: !o.include_hidden, ..o }) && eff matches Effect::Refresh(Reselect::Keep)
    } else {
        n == (App { follow_symlinks: !o.follow_symlinks, ..o }) && eff is Nothing
    }
}

impl App {
    fn browse_move(&mut self, delta: i64)
        requires
            old(self).wf(),
        ensures
            final(self).wf(),
            moved_browse(*old(self), *final(self), delta as int),
    {
        reveal(moved_browse);
        if self.browse_items.len() == 0 {
            return;
        }
        let cur: i128 = match self.browse_selected {
            Some(s) => s as i128,
            None => 0,
        };
        let last: i128 = (self.browse_items.len() - 1) as i128;
        let t: i128 = cur + delta as i128;
        let c: i128 = if t < 0 {
            0
        } else if t > last {
            last
        } else {
            t
        };
        self.browse_selected = Some(c as usize);
    }

    /// Descend into (or go up to) the highlighted directory.
    fn browser_open(&mut self) -> (eff: Effect)
        requires
            old(self).wf(),
        ensures
            final(self).wf(),
            opened_row(*old(self), *final(self), eff),
    {
        reveal(opened_row);
        match self.browse_selected {
            Some(sel) => {
                if sel < self.browse_items.len() {
                    let previous = self.browse_dir.clone();
                    self.browse_dir = self.browse_items[sel].path.clone();
                    Effect::Refresh(Reselect::Previous(previous))
                } else {
                    Effect::Nothing
                }
            },
            None => Effect::Nothing,
        }
    }

    fn browser_up(&mut self) -> (eff: Effect)
        requires
            old(self).wf(),
        ensures
            final(self).wf(),
            went_up(*old(self), *final(self), eff),
    {
        reveal(went_up);
        match crate::text::parent_dir(self.browse_dir.as_str()) {
            Some(parent) => {
                let previous = self.browse_dir.clone();
                self.browse_dir = parent;
                Effect::Refresh(Reselect::Previous(previous))
            },
            None => Effect::Nothing,
        }
    }

    /// The home directory was looked up (`None` when there is none).
    pub fn go_home(&mut self, home: Option<String>) -> (eff: Effect)
        requires
            old(self).wf(),
        ensures
            final(self).wf(),
            match home {
                Some(h) => *final(self) == (App { browse_dir: h, home_panel: HomePanel::Browser, ..*old(self) })
                    && eff matches Effect::Refresh(Reselect::Top),
                None => *final(self) == *old(self) && eff is Nothing,
            },
    {
        match home {
            Some(h) => {
                self.browse_dir = h;
                self.home_panel = HomePanel::Browser;
                Effect::Refresh(Reselect::Top)
            },
            None => Effect::Nothing,
        }
    }

    fn type_digit(&mut self, c: char)
        requires
            old(self).wf(),
            '0' <= c <= '9',
        ensures
            final(self).wf(),
            if old(self).option_index == OPTION_AGE && old(self).age_input@.len() < 5 {
                *final(self) == (App { age_input: final(self).age_input, ..*old(self) }) && final(self).age_input@ == old(self).age_input@.push(c)
            } else if old(self).option_index == OPTION_DEPTH && old(self).depth_input@.len() < 3 {
                *final(self) == (App { depth_input: final(self).depth_input, ..*old(self) }) && final(self).depth_input@ == old(self).depth_input@.push(c)
            } else {
                *final(self) == *old(self)
            },
    {
        if self.option_index == OPTION_AGE && to_chars(self.age_input.as_str()).len() < 5 {
            crate::text::string_push(&mut self.age_input, c);
        } else if self.option_index == OPTION_DEPTH && to_chars(self.depth_input.as_str()).len() < 3 {
            crate::text::string_push(&mut self.depth_input, c);
        }
    }

    fn erase_digit(&mut self)
        requires
            old(self).wf(),
        ensures
            final(self).wf(),
            if old(self).option_index == OPTION_AGE {
                *final(self) == (App { age_input: final(self).age_input, ..*old(self) }) && final(self).age_input@ == (if old(self).age_input@.len() > 0 { old(self).age_input@.drop_last() } else { old(self).age_input@ })
            } else if old(self).option_index == OPTION_DEPTH {
                *final(self) == (App { depth_input: final(self).depth_input, ..*old(self) }) && final(self).depth_input@ == (if old(self).depth_input@.len() > 0 { old(self).depth_input@.drop_last() } else { old(self).depth_input@ })
            } else {
                *final(self) == *old(self)
            },
    {
        if self.option_index == OPTION_AGE {
            crate::text::string_pop(&mut self.age_input);
        } else if self.option_index == OPTION_DEPTH {
            crate::text::string_pop(&mut self.depth_input);
        }
    }

    fn toggle_option(&mut self) -> (eff: Effect)
        requires
            old(self).wf(),
        ensures
            final(self).wf(),
            if old(self).option_index == OPTION_HIDDEN {
                *final(self) == (App { include_hidden: !old(self).include_hidden, ..*old(self) }) && eff matches Effect::Refresh(Reselect::Keep)
            } else if old(self).option_index == OPTION_SYMLINKS {
                *final(self) == (App { follow_symlinks: !old(self).follow_symlinks, ..*old(self) }) && eff is Nothing
            } else {
                *final(self) == *old(self) && eff is Nothing
            },
    {
        if self.option_index == OPTION_HIDDEN {
            self.include_hidden = !self.include_hidden;
            Effect::Refresh(Reselect::Keep)
        } else if self.option_index == OPTION_SYMLINKS {
            self.follow_symlinks = !self.follow_symlinks;
            Effect::Nothing
        } else {
            Effect::Nothing
        }
    }

    #[verifier::rlimit(40)]
    fn on_key_options(&mut self, key: Key) -> (eff: Effect)
        requires
            old(self).wf(),
        ensures
            final(self).wf(),
            options_key(*old(self), key, *final(self), eff),
    {
        reveal(options_key);
        let vim = self.vim_mode;
        let code = key.code;
        if code == KeyCode::Up || (vim && code == KeyCode::Char('k')) {
            self.option_index = (self.option_index + 3) % 4;
            Effect::Nothing
        } else if code == KeyCode::Down || (vim && code == KeyCode::Char('j')) {
            self.option_index = (self.option_index + 1) % 4;
            Effect::Nothing
        } else if code == KeyCode::Left || (vim && code == KeyCode::Char('h')) {
            self.adjust_option(-1)
        } else if code == KeyCode::Right || (vim && code == KeyCode::Char('l')) {
            self.adjust_option(1)
        } else if code == KeyCode::Char(' ') {
            self.toggle_option()
        } else {
            match code {
                KeyCode::Char(c) => {
                    if '0' <= c && c <= '9' {
                        assert(is_digit_key(key));
                        self.type_digit(c);
                    } else {
                        assert(!is_digit_key(key));
                    }
                    Effect::Nothing
                },
                KeyCode::Backspace => {
                    self.erase_digit();
                    Effect::Nothing
                },
                _ => Effect::Nothing,
            }
        }
    }
}


/// `n`/`eff` describe the browser panel reacting to `key`.
#[verifier::opaque]
pub open spec fn browser_key(o: App, key: Key, n: App, eff: Effect) -> bool {
    let vim = o.vim_mode;
    if key.code == KeyCode::Up || (vim && is_char(key, 'k')) {
        moved_browse(o, n, -1) && eff is Nothing
    } else if key.code == KeyCode::Down || (vim && is_char(key, 'j')) {
        moved_browse(o, n, 1) && eff is Nothing
    } else if key.code == KeyCode::PageUp {
        moved_browse(o, n, -10) && eff is Nothing
    } else if key.code == KeyCode::PageDown {
        moved_browse(o, n, 10) && eff is Nothing
    } else if key.code == KeyCode::Right || (vim && is_char(key, 'l')) {
        opened_row(o, n, eff)
    } else if key.code == KeyCode::Left || key.code == KeyCode::Backspace || (vim && is_char(key, 'h')) {
        went_up(o, n, eff)
    } else if vim && is_char(key, 'G') && o.browse_items@.len() > 0 {
        n == (App { browse_selected: Some((o.browse_items@.len() - 1) as usize), ..o }) && eff is Nothing
    } else if vim && is_char(key, 'g') {
        eff is Nothing && if o.pending_g {
            n == (App { browse_selected: Some(0usize), pending_g: false, ..o })
        } else {
            n == (App { pending_g: true, ..o })
        }
    } else {
        n == o && eff is Nothing
    }
}

/// `n` describes the mode panel reacting to `key`.
#[verifier::opaque]
pub open spec fn mode_key(o: App, key: Key, n: App) -> bool {
    let vim = o.vim_mode;
    if key.code == KeyCode::Up || (vim && is_char(key, 'k')) {
        n == (App { mode_index: ((o.mode_index + 3) % 4) as usize, ..o })
    } else if key.code == KeyCode::Down || (vim && is_char(key, 'j')) {
        n == (App { mode_index: ((o.mode_index + 1) % 4) as usize, ..o })
    } else {
        n == o
    }
}

/// `n`/`eff` describe the home screen reacting to `key` (no modal open).
#[verifier::opaque]
pub open spec fn home_key(o: App, key: Key, n: App, eff: Effect) -> bool {
    let vim = o.vim_mode;
    if key.code == KeyCode::Esc {
        n == (App { running: false, ..o }) && eff is Nothing
    } else if key.code == KeyCode::Tab {
        n == (App { home_panel: panel_next(o.home_panel), ..o }) && eff is Nothing
    } else if key.code == KeyCode::BackTab {
        n == (App { home_panel: panel_prev(o.home_panel), ..o }) && eff is Nothing
    } else if is_char(key, 's') || is_char(key, 'S') || (key.code == KeyCode::Enter && o.home_panel != HomePanel::Browser) {
        n == o && (eff matches Effect::Scan(r) && scan_request_of(o, r))
    } else if is_char(key, 'e') || is_char(key, 'E') {
        n == o && eff is CountTrash
    } else if is_char(key, ',') {
        n == (App { settings_index: 0, show_settings: true, ..o }) && eff is Nothing
    } else if is_char(key, '?') {
        n == (App { show_help: true, ..o }) && eff is Nothing
    } else if is_char(key, '~') {
        n == o && eff is OpenHome
    } else if key.code == KeyCode::Enter {
        opened_row(o, n, eff)
    } else {
        match o.home_panel {
            HomePanel::Mode => eff is Nothing && mode_key(o, key, n),
            HomePanel::Browser => browser_key(o, key, n, eff),
            HomePanel::Options => options_key(o, key, n, eff),
        }
    }
}

impl App {
    #[verifier::rlimit(40)]
    fn on_key_browser(&mut self, key: Key) -> (eff: Effect)
        requires
            old(self).wf(),
        ensures
            final(self).wf(),
            browser_key(*old(self), key, *final(self), eff),
    {
        reveal(browser_key);
        reveal(moved_browse);
        let vim = self.vim_mode;
        let code = key.code;
        if code == KeyCode::Up || (vim && code == KeyCode::Char('k')) {
            self.browse_move(-1);
            Effect::Nothing
        } else if code == KeyCode::Down || (vim && code == KeyCode::Char('j')) {
            self.browse_move(1);
            Effect::Nothing
        } else if code == KeyCode::PageUp {
            self.browse_move(-10);
            Effect::Nothing
        } else if code == KeyCode::PageDown {
            self.browse_move(10);
            Effect::Nothing
        } else if code == KeyCode::Right || (vim && code == KeyCode::Char('l')) {
            self.browser_open()
        } else if code == KeyCode::Left || code == KeyCode::Backspace || (vim && code == KeyCode::Char('h')) {
            self.browser_up()
        } else if vim && code == KeyCode::Char('G') && self.browse_items.len() > 0 {
            self.browse_selected = Some(self.browse_items.len() - 1);
            Effect::Nothing
        } else if vim && code == KeyCode::Char('g') {
            if self.pending_g {
                self.browse_selected = Some(0);
                self.pending_g = false;
            } else {
                self.pending_g = true;
            }
            Effect::Nothing
        } else {
            Effect::Nothing
        }
    }

    fn on_key_mode(&mut self, key: Key)
        requires
            old(self).wf(),
        ensures
            final(self).wf(),
            mode_key(*old(self), key, *final(self)),
    {
        reveal(mode_key);
        let vim = self.vim_mode;
        let code = key.code;
        if code == KeyCode::Up || (vim && code == KeyCode::Char('k')) {
            self.mode_prev();
        } else if code == KeyCode::Down || (vim && code == KeyCode::Char('j')) {
            self.mode_next();
        }
    }

    #[verifier::rlimit(60)]
    pub(crate) fn on_key_home(&mut self, key: Key) -> (eff: Effect)
        requires
            old(self).wf(),
        ensures
            final(self).wf(),
            home_key(*old(self), key, *final(self), eff),
    {
        reveal(home_key);
        let vim = self.vim_mode;
        let code = key.code;
        if code == KeyCode::Esc {
            self.running = false;
            Effect::Nothing
        } else if code == KeyCode::Tab {
            self.home_panel = self.home_panel.next();
            Effect::Nothing
        } else if code == KeyCode::BackTab {
            self.home_panel = self.home_panel.prev();
            Effect::Nothing
        } else if code == KeyCode::Char('s') || code == KeyCode::Char('S') || (code == KeyCode::Enter && self.home_panel != HomePanel::Browser) {
            Effect::Scan(self.scan_request())
        } else if code == KeyCode::Char('e') || code == KeyCode::Char('E') {
            Effect::CountTrash
        } else if code == KeyCode::Char(',') {
            self.settings_index = 0;
            self.show_settings = true;
            Effect::Nothing
        } else if code == KeyCode::Char('?') {
            self.show_help = true;
            Effect::Nothing
        } else if code == KeyCode::Char('~') {
            Effect::OpenHome
        } else if code == KeyCode::Enter {
            self.browser_open()
        } else {
            match self.home_panel {
                HomePanel::Mode => {
                    self.on_key_mode(key);
                    Effect::Nothing
                },
                HomePanel::Browser => self.on_key_browser(key),
                HomePanel::Options => self.on_key_options(key),
            }
        }
    }
}


} // verus!
