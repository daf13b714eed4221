//! Renderers from the document tree to output markup.

pub mod html;
pub mod html_text;
pub mod pdf;
pub mod typst;
