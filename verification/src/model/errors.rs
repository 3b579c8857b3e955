//! Failures of reading and writing a lock file.

use vstd::prelude::*;

verus! {

/// Why a text is not the textual form of a lock file.
#[derive(Debug, Clone, Copy, PartialEq, Eq, Structural)]
pub enum DecodeError {
    /// The text does not have the shape of a lock file.
    Syntax,
    /// A record lacks a field, holds one twice, or holds one that no record
    /// has.
    Field,
    /// A key holds no `@`, so the version requirement is missing.
    MissingVersion,
}

/// What can go wrong with a lock file.
#[derive(Debug)]
pub enum LockFileError {
    /// The file could not be opened, read or written.
    IO(std::io::Error),
    /// The file's content is not the textual form of a lock file.
    Decode(DecodeError),
    /// The dependencies could not be put into textual form.
    Encode(String),
}

impl DecodeError {
    /// A sentence that says what is wrong.
    pub fn message(&self) -> (text: String)
        ensures
            text@ == match *self {
                DecodeError::Syntax => "malformed lock file"@,
                DecodeError::Field => "malformed dependency record"@,
                DecodeError::MissingVersion => "missing dependency version"@,
            },
    {
        match self {
            DecodeError::Syntax => String::from_str("malformed lock file"),
            DecodeError::Field => String::from_str("malformed dependency record"),
            DecodeError::MissingVersion => String::from_str("missing dependency version"),
        }
    }
}

impl LockFileError {
    /// A sentence that says which operation failed.
    pub fn message(&self) -> (text: String)
        ensures
            text@ == match *self {
                LockFileError::IO(_) => "unable to read lock file"@,
                LockFileError::Decode(_) => "unable to deserialize lock file"@,
                LockFileError::Encode(_) => "unable to serialize lock file"@,
            },
    {
        match self {
            LockFileError::IO(_) => String::from_str("unable to read lock file"),
            LockFileError::Decode(_) => String::from_str("unable to deserialize lock file"),
            LockFileError::Encode(_) => String::from_str("unable to serialize lock file"),
        }
    }
}

} // verus!
