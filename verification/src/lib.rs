//! A file organiser: classifies files by extension, decides where each one
//! goes, and records what it did so that the run can be undone.

pub mod config;
pub mod error;
pub mod organiser;
pub mod path;
pub mod platform;
pub mod text;

pub use config::{Config, ConfigFile, ConvertConfig};
pub use error::MaidError;
pub use organiser::{FileEntry, LogEntry};
