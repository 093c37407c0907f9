//! farol: the verified core of a documentation-site generator.
pub mod text;
pub mod toc;
pub mod slug;
pub mod url;
pub mod links;
pub mod error;
pub mod markdown;
pub mod plugins;
pub mod config;
pub mod frontmatter;
pub mod files;
pub mod hash;
pub mod cli;
pub mod page;
pub mod order;
pub mod search;
pub mod serve;
pub mod assets;
pub mod theme;
pub mod cache;
pub mod images;
pub mod nav;
pub mod pipeline;
pub mod graph;
