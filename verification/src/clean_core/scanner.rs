//! The decisions of the filesystem walk that produces [`FileEntry`] records:
//! which entries are pruned as hidden, how a walked file becomes an entry, and
//! when progress is reported. The walk itself is done by the caller.

use vstd::prelude::*;

use crate::clean_core::model::FileEntry;
use crate::text::{
    extension_chars, extension_of, file_name_chars, from_chars, lowercase, lowercase_of, to_chars,
};

verus! {

/// Options controlling how the directory tree is walked.
#[derive(Debug, Clone, Copy, PartialEq, Eq, Structural)]
pub struct ScanOptions {
    /// Maximum recursion depth. `None` means unlimited.
    pub max_depth: Option<usize>,
    /// Include dot-files and dot-directories.
    pub include_hidden: bool,
    /// Follow symbolic links (off by default to avoid cycles / double counting).
    pub follow_symlinks: bool,
}

impl Default for ScanOptions {
    fn default() -> (r: ScanOptions)
        ensures
            r.max_depth is None && !r.include_hidden && !r.follow_symlinks,
    {
        ScanOptions { max_depth: None, include_hidden: false, follow_symlinks: false }
    }
}

/// A walked entry is hidden when it is below the root and its (UTF-8) name
/// starts with a dot. The root itself is never hidden, otherwise scanning "."
/// would prune everything.
pub open spec fn hidden(depth: usize, name: Option<Seq<char>>) -> bool {
    depth > 0 && match name {
        Some(n) => n.len() > 0 && n[0] == '.',
        None => false,
    }
}

/// The root of the walk is never hidden; below it, exactly the entries whose
/// UTF-8 name starts with a dot are hidden.
pub proof fn law_hidden_means_dot_name(depth: usize, name: Option<Seq<char>>)
    ensures
        depth == 0 ==> !hidden(depth, name),
        depth > 0 ==> (hidden(depth, name) <==> (name matches Some(n) && n.len() > 0 && n[0] == '.')),
{
}

/// Is the walked entry at `depth` with file name `name` hidden? `name` is
/// `None` when the name is not valid UTF-8.
pub fn is_hidden(depth: usize, name: &Option<String>) -> (r: bool)
    ensures
        r == hidden(
            depth,
            match name {
                Some(n) => Some(n@),
                None => None,
            },
        ),
{
    if depth == 0 {
        return false;
    }
    match name {
        Some(n) => {
            let v = to_chars(n.as_str());
            v.len() > 0 && v[0] == '.'
        },
        None => false,
    }
}

/// Should the walk descend into / report the entry? Hidden entries are pruned
/// unless the options include them.
pub fn keep_entry(opts: &ScanOptions, depth: usize, name: &Option<String>) -> (r: bool)
    ensures
        r == (opts.include_hidden || !hidden(
            depth,
            match name {
                Some(n) => Some(n@),
                None => None,
            },
        )),
{
    opts.include_hidden || !is_hidden(depth, name)
}

/// The lower-cased extension of a path, as the scan records it.
pub open spec fn recorded_extension(path: Seq<char>) -> Option<Seq<char>> {
    match extension_of(path) {
        Some(e) => Some(lowercase_of(e)),
        None => None,
    }
}

/// The record for a regular file found by the walk.
pub fn entry_from_walk(
    path: String,
    size: u64,
    modified: Option<i128>,
    accessed: Option<i128>,
    created: Option<i128>,
) -> (r: FileEntry)
    ensures
        r.path@ == path@,
        r.size == size,
        r.modified == modified,
        r.accessed == accessed,
        r.created == created,
        match r.extension {
            Some(e) => recorded_extension(path@) == Some(e@),
            None => recorded_extension(path@) is None,
        },
{
    let v = to_chars(path.as_str());
    let name = file_name_chars(&v);
    let extension = match extension_chars(&name) {
        Some(e) => {
            let s = from_chars(&e);
            Some(lowercase(s.as_str()))
        },
        None => None,
    };
    FileEntry { path, size, modified, accessed, created, extension }
}

/// Progress is reported after every 256th file.
pub fn progress_due(count: usize) -> (r: bool)
    ensures
        r == (count % 256 == 0),
{
    count % 256 == 0
}

} // verus!
