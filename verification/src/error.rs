//! The error taxonomy: one variant per rejection reason, together with a
//! specification-level view used by the contracts.

use vstd::prelude::*;

verus! {

/// Why a path was rejected. Each failed operation reports exactly one
/// violation, the first rule that matched; the offending input is kept in
/// the payload for diagnostics.
#[derive(Debug, Clone, PartialEq)]
pub enum PathError {
    /// The path contains `..`, which could reference a parent directory.
    PathTraversal { path: String },
    /// The path is empty, or made only of whitespace.
    EmptyPath,
    /// The path contains a NUL byte, another control character, or a
    /// character that Windows forbids in file names.
    InvalidCharacters { path: String },
    /// A path component is a reserved Windows device name such as `CON`.
    ReservedFilename { filename: String, path: String },
    /// The path begins with a drive letter, so it is absolute.
    DriveLetterPath { path: String },
    /// A validation step failed for a reason the other variants do not cover.
    ValidationFailed { message: String },
    /// A constructed path fell outside the root it was built under.
    ConstructionFailed { message: String },
    /// The filesystem reported an error, e.g. while resolving a root.
    IoError { message: String },
}

/// The mathematical image of a [`PathError`]: the same variants over
/// character sequences instead of strings.
pub enum Violation {
    Traversal { path: Seq<char> },
    Empty,
    InvalidCharacters { path: Seq<char> },
    ReservedName { filename: Seq<char>, path: Seq<char> },
    DriveLetter { path: Seq<char> },
    ValidationFailed { message: Seq<char> },
    ConstructionFailed { message: Seq<char> },
    Io { message: Seq<char> },
}

impl View for PathError {
    type V = Violation;

    open spec fn view(&self) -> Violation {
        match self {
            PathError::PathTraversal { path } => Violation::Traversal { path: path@ },
            PathError::EmptyPath => Violation::Empty,
            PathError::InvalidCharacters { path } => Violation::InvalidCharacters { path: path@ },
            PathError::ReservedFilename { filename, path } => Violation::ReservedName {
                filename: filename@,
                path: path@,
            },
            PathError::DriveLetterPath { path } => Violation::DriveLetter { path: path@ },
            PathError::ValidationFailed { message } => Violation::ValidationFailed {
                message: message@,
            },
            PathError::ConstructionFailed { message } => Violation::ConstructionFailed {
                message: message@,
            },
            PathError::IoError { message } => Violation::Io { message: message@ },
        }
    }
}

/// The view of a string-or-error result, compared against the spec-level
/// outcome in the contracts.
pub open spec fn string_result_view(r: Result<String, PathError>) -> Result<Seq<char>, Violation> {
    match r {
        Ok(s) => Ok(s@),
        Err(e) => Err(e@),
    }
}

/// The view of a unit-or-error result.
pub open spec fn unit_result_view(r: Result<(), PathError>) -> Result<(), Violation> {
    match r {
        Ok(u) => Ok(u),
        Err(e) => Err(e@),
    }
}

} // verus!
