//! Checks that the rules of Markdown specifications and the tests that cite
//! them agree on rule ids and on rule text.
//!
//! The library holds the logic: reading configuration values, picking files by
//! glob, finding rule definitions and test references line by line, checking
//! them against each other, and rendering the report. Reading files, walking
//! directories and printing belong to the program around it.

pub mod check;
pub mod collect;
pub mod config;
pub mod laws;
pub mod paths;
pub mod pattern;
pub mod report;
pub mod sorting;
pub mod text;

pub use config::{Config, ConfigError, RawConfig, Severity};
pub use pattern::Pattern;
pub use text::{is_current, leading_frontmatter, normalize};
