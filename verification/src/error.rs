//! Errors of the converter.

use vstd::prelude::*;

use crate::text::push_str;

verus! {

/// The ways a conversion can fail. Operating-system errors are carried as
/// their message text.
#[derive(Debug)]
pub enum SieveError {
    ReadFile { path: String, source: String },
    WriteFile { path: String, source: String },
    ParseMarkdown(String),
    PdfRender(String),
    InvalidStatBlock(String),
    ImageNotFound(String),
    NoInput,
    WriteStdout(String),
}

pub type Result<T> = core::result::Result<T, SieveError>;

pub const NO_INPUT_MESSAGE: &'static str = "no input provided.\n\nUsage:\n  the-sieve <INPUT>            read from file\n  cat file.md | the-sieve      read from stdin\n\nFor more information, try '--help'.";

/// The message an error is displayed with.
pub open spec fn error_message(e: SieveError) -> Seq<char> {
    match e {
        SieveError::ReadFile { path, source } => "Failed to read input file '"@ + path@ + "': "@
            + source@,
        SieveError::WriteFile { path, source } => "Failed to write output file '"@ + path@
            + "': "@ + source@,
        SieveError::ParseMarkdown(m) => "Failed to parse markdown: "@ + m@,
        SieveError::PdfRender(m) => "Failed to render PDF: "@ + m@,
        SieveError::InvalidStatBlock(m) => "Invalid stat block format: "@ + m@,
        SieveError::ImageNotFound(p) => "Image not found: "@ + p@,
        SieveError::NoInput => NO_INPUT_MESSAGE@,
        SieveError::WriteStdout(m) => "Failed to write to stdout: "@ + m@,
    }
}

impl SieveError {
    /// The message the error is displayed with.
    pub fn message(&self) -> (r: String)
        ensures
            r@ == error_message(*self),
    {
        let mut out = String::new();
        match self {
            SieveError::ReadFile { path, source } => {
                push_str(&mut out, "Failed to read input file '");
                push_str(&mut out, path.as_str());
                push_str(&mut out, "': ");
                push_str(&mut out, source.as_str());
            },
            SieveError::WriteFile { path, source } => {
                push_str(&mut out, "Failed to write output file '");
                push_str(&mut out, path.as_str());
                push_str(&mut out, "': ");
                push_str(&mut out, source.as_str());
            },
            SieveError::ParseMarkdown(m) => {
                push_str(&mut out, "Failed to parse markdown: ");
                push_str(&mut out, m.as_str());
            },
            SieveError::PdfRender(m) => {
                push_str(&mut out, "Failed to render PDF: ");
                push_str(&mut out, m.as_str());
            },
            SieveError::InvalidStatBlock(m) => {
                push_str(&mut out, "Invalid stat block format: ");
                push_str(&mut out, m.as_str());
            },
            SieveError::ImageNotFound(p) => {
                push_str(&mut out, "Image not found: ");
                push_str(&mut out, p.as_str());
            },
            SieveError::NoInput => {
                push_str(&mut out, NO_INPUT_MESSAGE);
            },
            SieveError::WriteStdout(m) => {
                push_str(&mut out, "Failed to write to stdout: ");
                push_str(&mut out, m.as_str());
            },
        }
        assert(out@ =~= error_message(*self));
        out
    }
}

} // verus!
