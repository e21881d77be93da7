//! Resolution engine for desktop default applications.
//!
//! The crate decides which program opens a given MIME type, keeps the user's
//! persisted handler preferences in the `mimeapps.list` format, and expands
//! desktop-entry exec templates into concrete command lines.

pub mod assoc;
pub mod config_file;
pub mod db;
pub mod desktop_entry;
pub mod error;
pub mod file_format;
pub mod glob;
pub mod group;
pub mod handler;
pub mod laws;
pub mod literals;
pub mod main_config;
pub mod mime_apps;
pub mod mime_type;
pub mod path;
pub mod selector;
pub mod shell;
pub mod system_apps;
pub mod table;
pub mod text;
pub mod wrappers;
