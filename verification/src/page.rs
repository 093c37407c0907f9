//! A rendered page.
use vstd::prelude::*;
use crate::text::{chars_of, string_from};
use crate::toc::TocEntry;

verus! {

/// A single rendered page, ready to be written to disk or passed to a template.
#[derive(Debug)]
pub struct Page {
    /// Source path relative to `docs_dir` (e.g. `guide/install.md`).
    pub relative: String,
    /// Absolute source path on disk.
    pub source_abs: String,
    /// Site URL (e.g. `/guide/install/`).
    pub url: String,
    /// Output path under `site_dir` (e.g. `guide/install/index.html`).
    pub output: String,
    /// Page title (frontmatter `title:` > first H1 > filename stem).
    pub title: String,
    /// Frontmatter as a generic TOML table.
    pub frontmatter: toml::Table,
    /// Rendered body HTML (after link resolution).
    pub body_html: String,
    /// Nested table of contents.
    pub toc: Vec<TocEntry>,
    /// Every heading of the body as `(level, text, slug)`, in order; the
    /// slugs are the ones the table of contents links to.
    pub headings: Vec<(u8, String, String)>,
    /// Template to render with (`layout:` frontmatter, else `"default"`).
    pub layout: String,
}

/// The layout a page uses when its frontmatter names none.
pub fn default_layout() -> (r: String)
    ensures
        r@ == "default"@,
{
    string_from(chars_of("default"))
}

} // verus!
