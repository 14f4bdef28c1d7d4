//! A directory lister: entry formatting, layout of grid, long and tree views,
//! configuration defaults and schema migration, and Git status summaries.
pub mod text;
pub mod display;
pub mod theme;
pub mod path;
pub mod cli;
pub mod config;
pub mod fs;
pub mod git;
pub mod toml;
pub mod config_updater;
