//! Listed entries and the directory walk.
pub mod entry;
pub mod walker;
