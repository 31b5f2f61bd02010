//! Static-site content pipeline: front-matter parsing, markdown event
//! rewriting with footnote relocation, content indexing, and feed projection.

pub mod article;
pub mod chars;
pub mod content;
pub mod events;
pub mod feed;
pub mod footnotes;
pub mod index;
pub mod loader;
pub mod pipeline;
pub mod render;
pub mod rewrite;
pub mod text;
