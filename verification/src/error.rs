//! The ways in which opening a container or decoding its content fails.

use vstd::prelude::*;

verus! {

/// Why an operation of this library gave no result.
#[derive(Debug, Clone, Copy, PartialEq, Eq, Structural)]
pub enum PackageError {
    /// The path names neither a directory nor a tar or gzip file.
    NotAContainer,
    /// Nothing can be reached at the path.
    NotFound,
    /// Content could not be read as asked.
    Io,
    /// A line of the dialect has not the shape that its kind requires.
    MalformedDialect,
    /// The pattern engine refused one of the patterns of this library.
    BadPattern,
}

impl PackageError {
    /// A sentence for the user.
    pub fn message(&self) -> (text: &'static str)
        ensures
            text@ == match *self {
                PackageError::NotAContainer => "File is not a tar or tar.gz"@,
                PackageError::NotFound => "Path is not a file or directory"@,
                PackageError::Io => "Content could not be read"@,
                PackageError::MalformedDialect => "Line does not match the dialect"@,
                PackageError::BadPattern => "Pattern was refused"@,
            },
    {
        match self {
            PackageError::NotAContainer => "File is not a tar or tar.gz",
            PackageError::NotFound => "Path is not a file or directory",
            PackageError::Io => "Content could not be read",
            PackageError::MalformedDialect => "Line does not match the dialect",
            PackageError::BadPattern => "Pattern was refused",
        }
    }
}

} // verus!
