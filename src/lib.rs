//! Reads the plugins and the application version out of binary Cubase project files, and
//! decides which of them are reported.
pub mod config;
pub mod cstring_extras;
pub mod format;
pub mod order;
pub mod project;
pub mod proofs;
pub mod reader;
pub mod report;
