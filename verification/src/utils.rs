//! Helpers shared by the rest of the crate.

pub mod app;
pub mod errors;
pub mod hex;
pub mod integrity;
pub mod text;
