//! Error types for lookups, mutations, and source acquisition.

use vstd::prelude::*;

verus! {

/// Errors returned by dotted-path lookups and mutations.
///
/// These are pure, recoverable results: no operation of this library panics
/// or logs on them.
#[derive(Debug, Clone, Copy, PartialEq, Eq, Structural)]
pub enum ConfigerError {
    /// The path had no characters at all.
    EmptyKey,
    /// Traversal expected a nested table and found another variant.
    NonNested,
    /// No entry exists at the requested key.
    NotFound,
}

impl ConfigerError {
    /// The error's human-readable description.
    pub fn message(&self) -> (r: String)
        ensures
            r@ == match self {
                ConfigerError::EmptyKey => "Key can't be empty"@,
                ConfigerError::NonNested =>
                    "Attempted to set/get a nested value on a non-nested node"@,
                ConfigerError::NotFound => "Not found"@,
            },
    {
        match self {
            ConfigerError::EmptyKey => "Key can't be empty".to_owned(),
            ConfigerError::NonNested => "Attempted to set/get a nested value on a non-nested node"
                .to_owned(),
            ConfigerError::NotFound => "Not found".to_owned(),
        }
    }
}

/// Errors surfaced while acquiring a configuration source (a file, a reader).
#[derive(Debug)]
pub enum FileError {
    /// The path could not be used at all.
    InvalidPath(String),
    /// The path has no usable extension.
    InvalidFile(String),
    /// No reader is registered for the given suffix.
    ReaderNotFound(String),
    /// The file could not be read.
    ReadFailed(String),
    /// The source text is not shaped like a table of the named format.
    IncorrectFormat(String),
    /// The named reader rejected the source text, with its message.
    ParseFailed(String, String),
}

impl FileError {
    /// The error's human-readable description.
    pub fn message(&self) -> (r: String)
        ensures
            r@ == match self {
                FileError::InvalidPath(path) => "Invalid path:["@ + path@ + "]"@,
                FileError::InvalidFile(file) => "Invalid file type:["@ + file@ + "]"@,
                FileError::ReaderNotFound(suffix) => "Reader not found, suffix: "@ + suffix@,
                FileError::ReadFailed(path) => "Failed to read config file, path:["@ + path@
                    + "]"@,
                FileError::IncorrectFormat(fmt) => "Incorrect "@ + fmt@
                    + " format: Missing table data."@,
                FileError::ParseFailed(fmt, msg) => "Failed to parse "@ + fmt@ + " file, message: "@
                    + msg@,
            },
    {
        match self {
            FileError::InvalidPath(path) => "Invalid path:[".to_owned().concat(
                path.as_str(),
            ).concat("]"),
            FileError::InvalidFile(file) => "Invalid file type:[".to_owned().concat(
                file.as_str(),
            ).concat("]"),
            FileError::ReaderNotFound(suffix) => "Reader not found, suffix: ".to_owned().concat(
                suffix.as_str(),
            ),
            FileError::ReadFailed(path) => "Failed to read config file, path:[".to_owned().concat(
                path.as_str(),
            ).concat("]"),
            FileError::IncorrectFormat(fmt) => "Incorrect ".to_owned().concat(fmt.as_str()).concat(
                " format: Missing table data.",
            ),
            FileError::ParseFailed(fmt, msg) => "Failed to parse ".to_owned().concat(
                fmt.as_str(),
            ).concat(" file, message: ").concat(msg.as_str()),
        }
    }
}

impl PartialEq for FileError {
    /// Equality of kind and payload strings.
    fn eq(&self, other: &FileError) -> (r: bool) {
        match (self, other) {
            (FileError::InvalidPath(a), FileError::InvalidPath(b)) => a.eq(b),
            (FileError::InvalidFile(a), FileError::InvalidFile(b)) => a.eq(b),
            (FileError::ReaderNotFound(a), FileError::ReaderNotFound(b)) => a.eq(b),
            (FileError::ReadFailed(a), FileError::ReadFailed(b)) => a.eq(b),
            (FileError::IncorrectFormat(a), FileError::IncorrectFormat(b)) => a.eq(b),
            (FileError::ParseFailed(a, b), FileError::ParseFailed(c, d)) => a.eq(c) && b.eq(d),
            _ => false,
        }
    }
}

impl vstd::std_specs::cmp::PartialEqSpecImpl for FileError {
    open spec fn obeys_eq_spec() -> bool {
        true
    }

    open spec fn eq_spec(&self, other: &FileError) -> bool {
        match (self, other) {
            (FileError::InvalidPath(a), FileError::InvalidPath(b)) => a@ == b@,
            (FileError::InvalidFile(a), FileError::InvalidFile(b)) => a@ == b@,
            (FileError::ReaderNotFound(a), FileError::ReaderNotFound(b)) => a@ == b@,
            (FileError::ReadFailed(a), FileError::ReadFailed(b)) => a@ == b@,
            (FileError::IncorrectFormat(a), FileError::IncorrectFormat(b)) => a@ == b@,
            (FileError::ParseFailed(a, b), FileError::ParseFailed(c, d)) => a@ == c@ && b@ == d@,
            _ => false,
        }
    }
}

} // verus!
