//! Content pipeline of a static-site generator: a repository of dated,
//! tagged Markdown posts and a Markdown-to-HTML engine with highlighted
//! code blocks, inline footnotes and relocated sidenotes.
pub mod date;
pub mod error;
pub mod events;
pub mod header;
pub mod markdown;
pub mod order;
pub mod post;
pub mod repo;
pub mod site;
pub mod text;
