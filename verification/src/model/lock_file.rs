//! The lock file of a project.
//!
//! A lock file pins the resolved version, the source and the integrity
//! label of every dependency. It lives in memory until it is written out,
//! and what is written depends on the dependencies alone, not on the order
//! in which they were added.

use vstd::prelude::*;
use std::path::PathBuf;
use vstd::utf8::{decode_utf8, encode_utf8, encode_utf8_decode_utf8, valid_utf8};
use crate::model::dependencies::{storable, DependenciesMap};
use crate::model::dependency::{DependencyID, DependencyLock, IntoDependencyID, LockView};
use crate::model::errors::{DecodeError, LockFileError};
use crate::model::format::{decoded, lock_text};
use crate::utils::text::text_of_bytes;

verus! {

/// The dependencies that a file with the given bytes holds. Bytes that are
/// not UTF-8 are no lock file.
pub open spec fn decoded_bytes(bytes: Seq<u8>) -> Result<Map<Seq<char>, LockView>, DecodeError> {
    if valid_utf8(bytes) {
        decoded(decode_utf8(bytes))
    } else {
        Err(DecodeError::Syntax)
    }
}

/// The dependencies of a project and the path at which they are kept.
pub struct LockFile {
    pub path: PathBuf,
    pub dependencies: DependenciesMap,
}

impl LockFile {
    /// A lock file without dependencies, to be kept at `path`. Nothing is
    /// read or written.
    pub fn new(path: PathBuf) -> (lock_file: LockFile)
        ensures
            lock_file.path == path,
            lock_file.dependencies@ == Map::<Seq<char>, LockView>::empty(),
    {
        LockFile { path, dependencies: DependenciesMap::new() }
    }

    /// Makes a lock file of what reading the file at `path` gave.
    ///
    /// The caller opens and reads the file and hands over the outcome. A
    /// failed read is reported as it is. Bytes that were read are taken as
    /// the textual form of the dependencies.
    pub fn load(path: PathBuf, content: Result<Vec<u8>, std::io::Error>) -> (loaded: Result<
        LockFile,
        LockFileError,
    >)
        ensures
            match content {
                Err(e) => loaded matches Err(LockFileError::IO(found)) && found == e,
                Ok(bytes) => match decoded_bytes(bytes@) {
                    Ok(dependencies) => loaded matches Ok(lock_file) && lock_file.path == path
                        && lock_file.dependencies@ == dependencies,
                    Err(e) => loaded matches Err(LockFileError::Decode(found)) && found == e,
                },
            },
    {
        let bytes = match content {
            Err(e) => {
                return Err(LockFileError::IO(e));
            },
            Ok(bytes) => bytes,
        };
        let text = match text_of_bytes(bytes) {
            None => {
                return Err(LockFileError::Decode(DecodeError::Syntax));
            },
            Some(text) => text,
        };
        proof {
            encode_utf8_decode_utf8(text@);
        }
        match DependenciesMap::from_text(text.as_str()) {
            Ok(dependencies) => Ok(LockFile { path, dependencies }),
            Err(e) => Err(LockFileError::Decode(e)),
        }
    }

    /// The bytes to write at the path of this lock file: the textual form
    /// of the dependencies, in key order. The caller creates or truncates
    /// the file and writes them.
    pub fn save(&self) -> (bytes: Vec<u8>)
        ensures
            bytes@ == encode_utf8(lock_text(self.dependencies@)),
            storable(self.dependencies@),
    {
        let text = self.dependencies.to_text();
        text.as_str().as_bytes_vec()
    }

    /// Adds a dependency. A record that stood under the same canonical text
    /// is replaced.
    pub fn add<T: IntoDependencyID>(&mut self, id: T, dep: DependencyLock)
        ensures
            final(self).path == old(self).path,
            final(self).dependencies@ == old(self).dependencies@.insert(id.canonical_key(), dep@),
    {
        let id: DependencyID = id.into_id();
        self.dependencies.insert(&id, dep);
    }
}

} // verus!
