//! The Sieve: TTRPG-flavoured markdown parsed into a document tree and
//! rendered to HTML or Typst markup.
//!
//! Stat blocks, boxed read-aloud text, page breaks, column switches and
//! license appendices are written as fenced blocks and HTML comments in
//! ordinary CommonMark.

pub mod ast;
pub mod cli;
pub mod error;
pub mod licenses;
pub mod parser;
pub mod renderer;
pub mod text;

pub use ast::{Document, Element};
pub use error::{Result, SieveError};

use vstd::prelude::*;

use crate::parser::cmark::cmark_events;
use crate::parser::markdown::events_v;
use crate::parser::markdown_spec::document_of;
use crate::renderer::html::html_document;

verus! {

/// Convert markdown content to HTML.
///
/// Useful for looking at the parsed document structure, or for editing the
/// intermediate output by hand.
pub fn convert_markdown_to_html(markdown: &str, base_path: &str) -> (r: Result<String>)
    ensures
        match document_of(events_v(cmark_events(markdown@, true, true, true))) {
            Some(d) => r matches Ok(html) && html@ == html_document(d),
            None => r matches Err(SieveError::ParseMarkdown(_)),
        },
{
    let document = parser::markdown::parse(markdown)?;
    Ok(renderer::html::render_to_html(&document, base_path))
}

/// Parse markdown into the intermediate document tree.
pub fn parse_markdown(markdown: &str) -> (r: Result<Document>)
    ensures
        match document_of(events_v(cmark_events(markdown@, true, true, true))) {
            Some(d) => r matches Ok(doc) && doc@ == d,
            None => r matches Err(SieveError::ParseMarkdown(_)),
        },
{
    parser::markdown::parse(markdown)
}

} // verus!
