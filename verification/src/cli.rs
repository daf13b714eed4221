//! Command-line arguments and where the output goes.

use vstd::prelude::*;

verus! {

/// The command line: input file (stdin when absent), output file, verbosity,
/// and whether to stop at the intermediate HTML.
pub struct Args {
    /// Input markdown file (omit to read from stdin)
    pub input: Option<String>,
    /// Output file (defaults to input name with .pdf/.html extension, or
    /// stdout when reading from stdin)
    pub output: Option<String>,
    /// Enable verbose output
    pub verbose: bool,
    /// Output intermediate HTML file instead of PDF
    pub html_only: bool,
}

/// Where the converted document is written.
pub enum OutputDest {
    File(String),
    Stdout,
}

/// The path `std::path::PathBuf::set_extension(ext)` leaves when applied to
/// `path`: the extension of the file name replaced by `ext` (added if there
/// was none), the path unchanged if it has no file name.
pub uninterp spec fn path_with_extension(path: Seq<char>, ext: Seq<char>) -> Seq<char>;

/// `PathBuf::set_extension` on `path`, the result taken back as text. What it
/// does is named by `path_with_extension`: the file-name rules are std's
/// (for the platform the library is built for) and are not restated here.
/// std panics when the extension holds a path separator (`/`, and a backslash on
/// Windows), so such extensions are not admitted.
#[verifier::external_body]
fn set_extension(path: &str, ext: &str) -> (r: String)
    requires
        forall|i: int| 0 <= i < ext@.len() ==> ext@[i] != '/' && ext@[i] != '\\',
    ensures
        r@ == path_with_extension(path@, ext@),
{
    let mut p = std::path::PathBuf::from(path);
    p.set_extension(ext);
    p.to_string_lossy().into_owned()
}

/// The extension the output gets when it is named after the input.
pub open spec fn output_extension(html_only: bool) -> Seq<char> {
    if html_only {
        "html"@
    } else {
        "pdf"@
    }
}

impl Args {
    /// The explicit output file if given; else the input file with its
    /// extension replaced by `html` or `pdf`; else stdout.
    pub fn output_dest(&self) -> (r: OutputDest)
        ensures
            match self.output {
                Some(o) => r matches OutputDest::File(p) && p@ == o@,
                None => match self.input {
                    Some(i) => r matches OutputDest::File(p) && p@ == path_with_extension(
                        i@,
                        output_extension(self.html_only),
                    ),
                    None => r is Stdout,
                },
            },
    {
        if let Some(o) = &self.output {
            return OutputDest::File(o.clone());
        }
        if let Some(i) = &self.input {
            let ext = if self.html_only {
                "html"
            } else {
                "pdf"
            };
            proof {
                reveal_strlit("html");
                reveal_strlit("pdf");
            }
            return OutputDest::File(set_extension(i.as_str(), ext));
        }
        OutputDest::Stdout
    }
}

} // verus!
