//! The command line flags and the directories that a run works in.

use vstd::prelude::*;
use std::path::PathBuf;
use ssri::Algorithm;
use crate::utils::errors::VoltError;
use crate::utils::integrity::{
    buffer_bytes, buffer_slice, legacy_label, legacy_outcome, reads_as_integrity, sha1_digest,
    sha1_of, sha512_digest, sha512_of, strong_label, strong_outcome,
};
use crate::utils::text::{chars_of, spells, string_of};

verus! {

/// A path of the file system, carried through as an opaque value.
#[verifier::external_type_specification]
#[verifier::external_body]
pub struct ExPathBuf(PathBuf);

/// The lowercase equivalent of a text, as Unicode defines it.
pub uninterp spec fn lowercase_text(text: Seq<char>) -> Seq<char>;

/// The lowercase equivalent of `text`.
///
/// Trusted: this is `str::to_lowercase` of the standard library.
#[verifier::external_body]
pub(crate) fn lowercase_of(text: &str) -> (lower: String)
    ensures
        lower@ == lowercase_text(text@),
{
    text.to_lowercase()
}

/// The path that joining `name` to `base` gives.
pub uninterp spec fn joined_path(base: PathBuf, name: Seq<char>) -> PathBuf;

/// The path of `name` below `base`.
///
/// Trusted: this is `Path::join` of the standard library. The result
/// depends on the two arguments alone.
#[verifier::external_body]
pub(crate) fn join_path(base: &PathBuf, name: &str) -> (joined: PathBuf)
    ensures
        joined == joined_path(*base, name@),
{
    base.join(name)
}

/// A switch that the command line understands.
#[derive(Debug, Clone, Copy, PartialEq, Eq, Structural)]
pub enum AppFlag {
    Help,
    Version,
    Yes,
    Depth,
    Verbose,
    NoProgress,
    Dev,
}

/// What is left of `text` once every leading dash is gone.
pub open spec fn without_leading_dashes(text: Seq<char>) -> Seq<char>
    decreases text.len(),
{
    if text.len() > 0 && text[0] == '-' {
        without_leading_dashes(text.drop_first())
    } else {
        text
    }
}

/// The switch that a bare, lowercase name stands for.
pub open spec fn flag_named(name: Seq<char>) -> Option<AppFlag> {
    if name == "help"@ || name == "h"@ {
        Some(AppFlag::Help)
    } else if name == "version"@ {
        Some(AppFlag::Version)
    } else if name == "yes"@ || name == "y"@ {
        Some(AppFlag::Yes)
    } else if name == "depth"@ {
        Some(AppFlag::Depth)
    } else if name == "verbose"@ {
        Some(AppFlag::Verbose)
    } else if name == "no-progress"@ {
        Some(AppFlag::NoProgress)
    } else {
        None
    }
}

/// Removes every leading dash of `arg`.
pub fn strip_dashes(arg: &str) -> (bare: String)
    ensures
        bare@ == without_leading_dashes(arg@),
{
    let chars = chars_of(arg);
    let mut start: usize = 0;
    assert(chars@.skip(0) =~= chars@);
    while start < chars.len() && chars[start] == '-'
        invariant
            start <= chars.len(),
            without_leading_dashes(chars@) == without_leading_dashes(chars@.skip(start as int)),
        decreases chars.len() - start,
    {
        assert(chars@.skip(start as int).drop_first() =~= chars@.skip(start as int + 1));
        start += 1;
    }
    let mut rest: Vec<char> = Vec::new();
    let mut i: usize = start;
    while i < chars.len()
        invariant
            start <= i <= chars.len(),
            rest@ == chars@.subrange(start as int, i as int),
        decreases chars.len() - i,
    {
        rest.push(chars[i]);
        i += 1;
        assert(rest@ =~= chars@.subrange(start as int, i as int));
    }
    assert(chars@.subrange(start as int, i as int) =~= chars@.skip(start as int));
    string_of(&rest)
}

impl AppFlag {
    /// The switch that a bare, lowercase name stands for, if any.
    pub fn from_name(name: &String) -> (flag: Option<AppFlag>)
        ensures
            flag == flag_named(name@),
    {
        if spells(name, "help") || spells(name, "h") {
            Some(AppFlag::Help)
        } else if spells(name, "version") {
            Some(AppFlag::Version)
        } else if spells(name, "yes") || spells(name, "y") {
            Some(AppFlag::Yes)
        } else if spells(name, "depth") {
            Some(AppFlag::Depth)
        } else if spells(name, "verbose") {
            Some(AppFlag::Verbose)
        } else if spells(name, "no-progress") {
            Some(AppFlag::NoProgress)
        } else {
            None
        }
    }

    /// Reads a command line argument as a switch: leading dashes are
    /// dropped, the rest is put in lowercase and looked up by name.
    pub fn get(arg: &String) -> (flag: Option<AppFlag>)
        ensures
            flag == flag_named(lowercase_text(without_leading_dashes(arg@))),
    {
        let bare = strip_dashes(arg.as_str());
        let lower = lowercase_of(bare.as_str());
        AppFlag::from_name(&lower)
    }
}

/// The directories of a run and the switches it was started with.
#[derive(Debug)]
pub struct App {
    pub current_dir: PathBuf,
    pub home_dir: PathBuf,
    pub node_modules_dir: PathBuf,
    pub volt_dir: PathBuf,
    pub lock_file_path: PathBuf,
    /// The names of the arguments that were given.
    pub args: Vec<String>,
}

impl App {
    /// Lays out the directories of a run below the current and the home
    /// directory.
    pub fn with_directories(current_dir: PathBuf, home_dir: PathBuf, args: Vec<String>) -> (app:
        App)
        ensures
            app.current_dir == current_dir,
            app.home_dir == home_dir,
            app.node_modules_dir == joined_path(current_dir, "node_modules"@),
            app.volt_dir == joined_path(home_dir, ".volt"@),
            app.lock_file_path == joined_path(current_dir, "volt.lock"@),
            app.args == args,
    {
        let node_modules_dir = join_path(&current_dir, "node_modules");
        let volt_dir = join_path(&home_dir, ".volt");
        let lock_file_path = join_path(&current_dir, "volt.lock");
        App { current_dir, home_dir, node_modules_dir, volt_dir, lock_file_path, args }
    }

    /// Whether `flag` is among the arguments that were given.
    pub fn has_flag(&self, flag: &str) -> (present: bool)
        ensures
            present == exists|i: int| 0 <= i < self.args@.len() && self.args@[i]@ == flag@,
    {
        let wanted = String::from_str(flag);
        let mut i: usize = 0;
        while i < self.args.len()
            invariant
                i <= self.args.len(),
                wanted@ == flag@,
                forall|j: int| 0 <= j < i ==> self.args@[j]@ != flag@,
            decreases self.args.len() - i,
        {
            if self.args[i] == wanted {
                return true;
            }
            i += 1;
        }
        false
    }

    /// Computes the integrity label of an archive.
    ///
    /// `Sha1` gives the legacy label, `Sha512` the strong label, and every
    /// other algorithm the empty string. The legacy label is handed out
    /// exactly if it reads back as an integrity string; if it does not, the
    /// failure carries the label.
    pub fn calc_hash(data: &bytes::Bytes, algorithm: Algorithm) -> (r: Result<String, VoltError>)
        ensures
            algorithm == Algorithm::Sha1 ==> match r {
                Ok(label) => label@ == legacy_label(sha1_digest(buffer_bytes(*data)))
                    && reads_as_integrity(label@),
                Err(VoltError::HashParseError { hash }) => hash@ == legacy_label(
                    sha1_digest(buffer_bytes(*data)),
                ) && !reads_as_integrity(hash@),
                Err(_) => false,
            },
            algorithm == Algorithm::Sha512 ==> (r matches Ok(label) && label@ == strong_label(
                sha512_digest(buffer_bytes(*data)),
            )),
            algorithm != Algorithm::Sha1 && algorithm != Algorithm::Sha512 ==> match r {
                Ok(label) => label@ == Seq::<char>::empty(),
                Err(_) => false,
            },
    {
        let bytes = buffer_slice(data);
        match algorithm {
            Algorithm::Sha1 => legacy_outcome(sha1_of(bytes)),
            Algorithm::Sha512 => strong_outcome(sha512_of(bytes)),
            _ => Ok(String::new()),
        }
    }
}

} // verus!
