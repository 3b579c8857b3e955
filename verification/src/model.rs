//! The lock file and the values it is made of.

pub mod dependencies;
pub mod dependency;
pub mod errors;
pub mod format;
pub mod json;
pub mod lock_file;
pub mod order;
pub mod round_trip;
