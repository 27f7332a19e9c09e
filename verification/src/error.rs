//! Error type for crab-clean. Causes that come from the operating system are
//! held as their message text.

use vstd::prelude::*;

verus! {

/// The central error type for the whole crate.
#[derive(Debug)]
pub enum CrabError {
    Io(String),
    FileAccess { path: String, source: String },
    InvalidArgument(String),
    Config(String),
    Trash(String),
}

/// The text the error is displayed with.
pub open spec fn error_message(e: CrabError) -> Seq<char> {
    match e {
        CrabError::Io(m) => "I/O error: "@ + m@,
        CrabError::FileAccess { path, source } => "cannot access '"@ + path@ + "': "@ + source@,
        CrabError::InvalidArgument(m) => "invalid argument: "@ + m@,
        CrabError::Config(m) => "configuration error: "@ + m@,
        CrabError::Trash(m) => "trash operation failed: "@ + m@,
    }
}

impl CrabError {
    /// The text the error is displayed with.
    pub fn message(&self) -> (r: String)
        ensures
            r@ == error_message(*self),
    {
        match self {
            CrabError::Io(m) => String::from_str("I/O error: ").concat(m.as_str()),
            CrabError::FileAccess { path, source } => String::from_str("cannot access '").concat(
                path.as_str(),
            ).concat("': ").concat(source.as_str()),
            CrabError::InvalidArgument(m) => String::from_str("invalid argument: ").concat(
                m.as_str(),
            ),
            CrabError::Config(m) => String::from_str("configuration error: ").concat(m.as_str()),
            CrabError::Trash(m) => String::from_str("trash operation failed: ").concat(m.as_str()),
        }
    }

    /// The error for a scan root that is not a directory.
    pub fn not_a_directory(root: &str) -> (r: CrabError)
        ensures
            r matches CrabError::InvalidArgument(m) && m@ == "'"@ + root@
                + "' is not a directory or does not exist"@,
    {
        CrabError::InvalidArgument(
            String::from_str("'").concat(root).concat("' is not a directory or does not exist"),
        )
    }
}

} // verus!
