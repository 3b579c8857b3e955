//! Plain descriptions of packages and of new projects.

pub mod init_data;
pub mod package;
