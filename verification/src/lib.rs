//! Recovers the source files that a JavaScript source map embeds.
//!
//! A source map is parsed from the text of its document, each identifier it
//! records is turned into a safe relative path, and a run hands out the files
//! to write one by one.

pub mod config;
pub mod extract;
pub mod json;
pub mod path;
pub mod sourcemap;
pub mod util;

pub use crate::config::{Cli, Config};
pub use crate::sourcemap::SourceMap;
