//! Failures reported by the helpers of this crate.

use vstd::prelude::*;

verus! {

/// An input/output error of the standard library, carried through as an
/// opaque value.
#[verifier::external_type_specification]
#[verifier::external_body]
pub struct ExIoError(std::io::Error);

/// What can go wrong while preparing the working directories or while
/// computing an integrity label.
#[derive(Debug)]
pub enum VoltError {
    /// The current or the home directory could not be determined.
    EnvironmentError { env: String },
    /// The tool's own directory could not be created.
    CreateDirError(std::io::Error),
    /// The bytes could not be handed to the digest accumulator.
    HasherCopyError(std::io::Error),
    /// A label that was just built does not read back as an integrity
    /// string.
    HashParseError { hash: String },
}

} // verus!
