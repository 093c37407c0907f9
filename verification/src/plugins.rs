//! Builtin plugins: the HTML and Markdown transforms each hook applies.
use vstd::prelude::*;
pub mod admonitions;
pub mod containers;
pub mod anchor_links;
pub mod code_include;
pub mod highlight;
pub mod search;
pub mod reading_time;
pub mod code_copy;
pub mod edit_on_git;
pub mod redirects;
pub mod sitemap;
pub mod prev_next;

verus! {

/// A plugin host that does nothing: every hook passes its input through.
#[derive(Debug, Default, Clone, Copy)]
pub struct NoOpHost;

} // verus!
