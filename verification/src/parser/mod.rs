//! Markdown parsing: the TTRPG extensions and the event-driven tree builder.

pub mod cmark;
pub mod extensions;
pub mod markdown;
pub mod markdown_spec;
