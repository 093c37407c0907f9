//! The library's error type, as plain values.
use vstd::prelude::*;

verus! {

/// Top-level error type for the engine.
#[derive(Debug)]
pub enum FarolError {
    /// Reading or writing `path` failed.
    Io { path: String, message: String },
    /// The config file did not parse; `offset`/`len` locate the problem.
    ConfigParse {
        source_name: String,
        source_text: String,
        offset: usize,
        len: usize,
        help: Option<String>,
        message: String,
    },
    /// A config value is out of range.
    ConfigInvalid { message: String },
    /// The frontmatter (or markdown) of `path` is invalid.
    Frontmatter { path: String, message: String },
    /// A project already exists at `path`.
    ScaffoldExists { path: String },
    /// The named theme is neither built in nor installed.
    ThemeNotFound { name: String },
    /// The build cache, or a page rendered for it, could not be used.
    Cache { message: String },
}

} // verus!
