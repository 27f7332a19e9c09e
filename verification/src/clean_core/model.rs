//! Core data types shared across scanning, filtering and the UI state.

use vstd::prelude::*;

use crate::text::{file_name_chars, file_name_of, from_chars, to_chars};

verus! {

/// A single scanned file together with the metadata the tool needs.
///
/// Metadata is read exactly once (during the scan) and cached here so the rest
/// of the program never has to touch the filesystem again until deletion.
/// Timestamps are nanoseconds relative to the Unix epoch (negative before it).
#[derive(Debug)]
pub struct FileEntry {
    pub path: String,
    pub size: u64,
    pub modified: Option<i128>,
    pub accessed: Option<i128>,
    pub created: Option<i128>,
    /// Lower-cased extension without the leading dot (`None` when absent).
    pub extension: Option<String>,
}

/// The extension as displayed: empty when there is none.
pub open spec fn ext_view(e: FileEntry) -> Seq<char> {
    match e.extension {
        Some(x) => x@,
        None => Seq::empty(),
    }
}

/// The timestamp of `e` for `basis`.
pub open spec fn time_of(e: FileEntry, basis: TimeBasis) -> Option<i128> {
    match basis {
        TimeBasis::Modified => e.modified,
        TimeBasis::Accessed => e.accessed,
        TimeBasis::Created => e.created,
    }
}

pub fn clone_opt_string(o: &Option<String>) -> (r: Option<String>)
    ensures
        r == *o,
{
    match o {
        Some(s) => Some(s.clone()),
        None => None,
    }
}

impl FileEntry {
    /// A field-for-field copy of this entry.
    pub fn duplicate(&self) -> (r: FileEntry)
        ensures
            r == *self,
    {
        FileEntry {
            path: self.path.clone(),
            size: self.size,
            modified: self.modified,
            accessed: self.accessed,
            created: self.created,
            extension: clone_opt_string(&self.extension),
        }
    }

    /// The file name (the last component of the path; empty when there is none).
    pub fn file_name(&self) -> (r: String)
        ensures
            r@ == file_name_of(self.path@),
    {
        let v = to_chars(self.path.as_str());
        let n = file_name_chars(&v);
        from_chars(&n)
    }

    /// Extension as a displayable string (`""` when there is none).
    pub fn ext_str(&self) -> (r: &str)
        ensures
            r@ == ext_view(*self),
    {
        match &self.extension {
            Some(e) => e.as_str(),
            None => {
                let s = "";
                proof {
                    reveal_strlit("");
                }
                assert(s@ =~= Seq::<char>::empty());
                s
            },
        }
    }

    /// Returns the timestamp for the given basis, if available.
    pub fn time(&self, basis: TimeBasis) -> (r: Option<i128>)
        ensures
            r == time_of(*self, basis),
    {
        match basis {
            TimeBasis::Modified => self.modified,
            TimeBasis::Accessed => self.accessed,
            TimeBasis::Created => self.created,
        }
    }
}

/// What kind of cleanup scan to run.
#[derive(Debug, Clone, Copy, PartialEq, Eq, Structural)]
pub enum ScanMode {
    /// Exact duplicates detected by size bucket + SHA-256.
    Duplicates,
    /// Files not *accessed* for N days.
    Unused,
    /// Files not *modified* for N days.
    Old,
    /// Every file, to be narrowed down with filters.
    AllFiles,
}

/// The modes in the order the home screen lists them.
pub open spec fn scan_mode_at(i: int) -> ScanMode {
    if i == 0 {
        ScanMode::Duplicates
    } else if i == 1 {
        ScanMode::Unused
    } else if i == 2 {
        ScanMode::Old
    } else {
        ScanMode::AllFiles
    }
}

pub open spec fn scan_mode_title(m: ScanMode) -> Seq<char> {
    match m {
        ScanMode::Duplicates => "Duplicate files"@,
        ScanMode::Unused => "Unused files"@,
        ScanMode::Old => "Old files"@,
        ScanMode::AllFiles => "All files (browse + filter)"@,
    }
}

pub open spec fn scan_mode_description(m: ScanMode) -> Seq<char> {
    match m {
        ScanMode::Duplicates => "Identical content found via SHA-256 hashing."@,
        ScanMode::Unused => "Not accessed for the given number of days."@,
        ScanMode::Old => "Not modified for the given number of days."@,
        ScanMode::AllFiles => "List everything, then narrow with filters."@,
    }
}

impl ScanMode {
    pub const ALL: [ScanMode; 4] = [
        ScanMode::Duplicates,
        ScanMode::Unused,
        ScanMode::Old,
        ScanMode::AllFiles,
    ];

    /// The mode at position `i` of [`ScanMode::ALL`].
    pub fn at(i: usize) -> (r: ScanMode)
        requires
            i < 4,
        ensures
            r == scan_mode_at(i as int),
    {
        if i == 0 {
            ScanMode::Duplicates
        } else if i == 1 {
            ScanMode::Unused
        } else if i == 2 {
            ScanMode::Old
        } else {
            ScanMode::AllFiles
        }
    }

    pub fn title(&self) -> (r: &'static str)
        ensures
            r@ == scan_mode_title(*self),
    {
        match self {
            ScanMode::Duplicates => "Duplicate files",
            ScanMode::Unused => "Unused files",
            ScanMode::Old => "Old files",
            ScanMode::AllFiles => "All files (browse + filter)",
        }
    }

    pub fn description(&self) -> (r: &'static str)
        ensures
            r@ == scan_mode_description(*self),
    {
        match self {
            ScanMode::Duplicates => "Identical content found via SHA-256 hashing.",
            ScanMode::Unused => "Not accessed for the given number of days.",
            ScanMode::Old => "Not modified for the given number of days.",
            ScanMode::AllFiles => "List everything, then narrow with filters.",
        }
    }

    /// Whether this mode uses the age (days) input on the home screen.
    pub fn uses_age(&self) -> (r: bool)
        ensures
            r == (*self == ScanMode::Unused || *self == ScanMode::Old),
    {
        match self {
            ScanMode::Unused | ScanMode::Old => true,
            _ => false,
        }
    }
}

/// Which timestamp a comparison or filter should use.
#[derive(Debug, Clone, Copy, PartialEq, Eq, Structural)]
pub enum TimeBasis {
    Modified,
    Accessed,
    Created,
}

pub open spec fn time_basis_next(b: TimeBasis) -> TimeBasis {
    match b {
        TimeBasis::Modified => TimeBasis::Accessed,
        TimeBasis::Accessed => TimeBasis::Created,
        TimeBasis::Created => TimeBasis::Modified,
    }
}

/// Cycling the time basis comes back after three steps, and never stays.
pub proof fn law_time_basis_cycle(b: TimeBasis)
    ensures
        time_basis_next(time_basis_next(time_basis_next(b))) == b,
        time_basis_next(b) != b,
{
}

impl TimeBasis {
    /// Cycle to the next basis (Modified → Accessed → Created → Modified).
    pub fn next(self) -> (r: TimeBasis)
        ensures
            r == time_basis_next(self),
    {
        match self {
            TimeBasis::Modified => TimeBasis::Accessed,
            TimeBasis::Accessed => TimeBasis::Created,
            TimeBasis::Created => TimeBasis::Modified,
        }
    }

}

impl Default for TimeBasis {
    fn default() -> (r: TimeBasis)
        ensures
            r == TimeBasis::Modified,
    {
        TimeBasis::Modified
    }
}

} // verus!
