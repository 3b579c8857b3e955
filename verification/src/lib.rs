//! Dependency lock file and content integrity for a package manager.
//!
//! The crate keeps the resolved dependencies of a project in a lock file
//! and computes the integrity labels of downloaded package archives.
//!
//! * [`model::dependency`] holds the dependency references, whose identity
//!   is their canonical text `name@requirement`, and the records they
//!   resolve to.
//! * [`model::dependencies`] is the map from references to records. It is
//!   written as the one sequence that lists its entries in key order, so two
//!   maps with the same content are written alike.
//! * [`model::format`] and [`model::json`] write and read the textual form of
//!   the map, and [`model::round_trip`] proves that what was written reads
//!   back.
//! * [`model::lock_file`] ties a map to the path at which it is kept.
//! * [`utils::integrity`] and [`utils::app`] compute integrity labels and
//!   read command line flags.
//! * [`classes`] describes packages and new projects.
//!
//! Nothing here touches the file system: a caller reads and writes the
//! bytes and hands them over.

pub mod classes;
pub mod model;
pub mod utils;
