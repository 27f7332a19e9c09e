//! User configuration values. Reading and writing the TOML file is done by the
//! program around the library; these are the values it holds.

use vstd::prelude::*;

use crate::clean_core::delete::DeleteMode;
use crate::clean_core::model::TimeBasis;

verus! {

/// Selectable color palette for the TUI.
#[derive(Debug, Clone, Copy, PartialEq, Eq, Structural)]
pub enum ThemeName {
    Default,
    Ocean,
    Sunset,
    Mono,
}

pub open spec fn theme_next(t: ThemeName) -> ThemeName {
    match t {
        ThemeName::Default => ThemeName::Ocean,
        ThemeName::Ocean => ThemeName::Sunset,
        ThemeName::Sunset => ThemeName::Mono,
        ThemeName::Mono => ThemeName::Default,
    }
}

impl ThemeName {
    pub fn label(&self) -> (r: &'static str)
        ensures
            r@ == match *self {
                ThemeName::Default => "Default"@,
                ThemeName::Ocean => "Ocean"@,
                ThemeName::Sunset => "Sunset"@,
                ThemeName::Mono => "Mono"@,
            },
    {
        match self {
            ThemeName::Default => "Default",
            ThemeName::Ocean => "Ocean",
            ThemeName::Sunset => "Sunset",
            ThemeName::Mono => "Mono",
        }
    }

    /// Cycle to the next palette.
    pub fn next(self) -> (r: ThemeName)
        ensures
            r == theme_next(self),
    {
        match self {
            ThemeName::Default => ThemeName::Ocean,
            ThemeName::Ocean => ThemeName::Sunset,
            ThemeName::Sunset => ThemeName::Mono,
            ThemeName::Mono => ThemeName::Default,
        }
    }
}

impl Default for ThemeName {
    fn default() -> (r: ThemeName)
        ensures
            r == ThemeName::Default,
    {
        ThemeName::Default
    }
}

/// Cycling through the palettes comes back to the start after four steps.
pub proof fn law_theme_cycle(t: ThemeName)
    ensures
        theme_next(theme_next(theme_next(theme_next(t)))) == t,
        theme_next(t) != t,
{
}

/// All user-tunable defaults. Everything has a sensible fallback so a missing or
/// partial config file still works.
#[derive(Debug)]
pub struct Config {
    /// Directory the home screen starts in.
    pub default_path: String,
    /// Max scan depth (`None` = unlimited).
    pub max_depth: Option<usize>,
    pub include_hidden: bool,
    pub follow_symlinks: bool,
    /// Default age (days) for the unused/old modes.
    pub default_age_days: u32,
    /// Timestamp used for the unused/old comparison and date filters.
    pub time_basis: TimeBasis,
    /// Default deletion behaviour.
    pub delete_mode: DeleteMode,
    pub theme: ThemeName,
    /// Use vim-style navigation (hjkl, gg/G) throughout the UI.
    pub vim_mode: bool,
}

/// The default configuration.
pub open spec fn is_default_config(c: Config) -> bool {
    &&& c.default_path@ == "."@
    &&& c.max_depth is None
    &&& !c.include_hidden
    &&& !c.follow_symlinks
    &&& c.default_age_days == 30
    &&& c.time_basis == TimeBasis::Modified
    &&& c.delete_mode == DeleteMode::Trash
    &&& c.theme == ThemeName::Default
    &&& !c.vim_mode
}

impl Default for Config {
    fn default() -> (r: Config)
        ensures
            is_default_config(r),
    {
        Config {
            default_path: String::from_str("."),
            max_depth: None,
            include_hidden: false,
            follow_symlinks: false,
            default_age_days: 30,
            time_basis: TimeBasis::Modified,
            delete_mode: DeleteMode::Trash,
            theme: ThemeName::Default,
            vim_mode: false,
        }
    }
}

impl Config {
    /// A field-for-field copy.
    pub fn duplicate(&self) -> (r: Config)
        ensures
            r == *self,
    {
        Config {
            default_path: self.default_path.clone(),
            max_depth: self.max_depth,
            include_hidden: self.include_hidden,
            follow_symlinks: self.follow_symlinks,
            default_age_days: self.default_age_days,
            time_basis: self.time_basis,
            delete_mode: self.delete_mode,
            theme: self.theme,
            vim_mode: self.vim_mode,
        }
    }
}

} // verus!
