//! What a registry says about a package.

use vstd::prelude::*;
use std::collections::HashMap;

verus! {

/// A package with all its published versions.
#[derive(Default, Debug, Clone, PartialEq)]
pub struct Package {
    pub id: String,
    pub rev: String,
    pub name: String,
    pub dist_tags: DistTags,
    pub versions: HashMap<String, Version>,
    pub time: HashMap<String, String>,
    pub maintainers: Vec<Maintainer>,
    pub description: String,
    pub homepage: String,
    pub repository: Repository,
    pub author: Author,
    pub bugs: Bugs,
    pub license: String,
}

/// The versions that the registry's tags point at.
#[derive(Default, Debug, Clone, PartialEq)]
pub struct DistTags {
    pub latest: String,
}

/// One published version of a package.
#[derive(Default, Debug, Clone, PartialEq)]
pub struct Version {
    pub name: String,
    pub version: String,
    pub description: String,
    pub author: Author,
    pub license: String,
    pub repository: Repository,
    pub main: String,
    pub module: String,
    pub jsnext_main: String,
    pub engines: Engines,
    pub scripts: Scripts,
    pub dependencies: HashMap<String, String>,
    pub peer_dependencies: HashMap<String, String>,
    pub dev_dependencies: HashMap<String, String>,
    pub git_head: String,
    pub bugs: Bugs,
    pub homepage: String,
    pub id: String,
    pub node_version: String,
    pub npm_version: String,
    pub dist: Dist,
    pub maintainers: Vec<Maintainer>,
    pub npm_user: NpmUser,
    pub directories: Directories,
    pub npm_operational_internal: NpmOperationalInternal,
    pub has_shrinkwrap: bool,
}

/// Who wrote a package.
#[derive(Default, Debug, Clone, PartialEq)]
pub struct Author {
    pub name: String,
}

/// Where the sources of a package are kept.
#[derive(Default, Debug, Clone, PartialEq)]
pub struct Repository {
    pub type_field: String,
    pub url: String,
}

/// The runtime versions that a package asks for.
#[derive(Default, Debug, Clone, PartialEq)]
pub struct Engines {
    pub node: String,
    pub npm: String,
}

/// The commands that a package defines.
#[derive(Default, Debug, Clone, PartialEq)]
pub struct Scripts {
    pub test: String,
    pub test_watch: String,
    pub build: String,
    pub start: String,
    pub prepare: String,
    pub predeploy: String,
    pub deploy: String,
}

/// Where problems with a package are reported.
#[derive(Default, Debug, Clone, PartialEq)]
pub struct Bugs {
    pub url: String,
}

/// The archive of one version: where it is and what it should hold.
#[derive(Default, Debug, Clone, PartialEq)]
pub struct Dist {
    pub integrity: String,
    pub shasum: String,
    pub tarball: String,
    pub file_count: i64,
    pub unpacked_size: i64,
    pub npm_signature: String,
}

/// Someone who may publish a package.
#[derive(Default, Debug, Clone, PartialEq)]
pub struct Maintainer {
    pub name: String,
    pub email: String,
}

/// The account that published a version.
#[derive(Default, Debug, Clone, PartialEq)]
pub struct NpmUser {
    pub name: String,
    pub email: String,
}

/// The directories that a version declares. None are read.
#[derive(Default, Debug, Clone, PartialEq)]
pub struct Directories {}

/// Where the registry kept a version while it was published.
#[derive(Default, Debug, Clone, PartialEq)]
pub struct NpmOperationalInternal {
    pub host: String,
    pub tmp: String,
}

} // verus!
