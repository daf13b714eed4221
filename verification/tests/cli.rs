use the_sieve::cli::{Args, OutputDest};
use the_sieve::error::SieveError;
use the_sieve::licenses::{body, fragments, parse_body, short_name, title, url, LicenseFragment};
use the_sieve::ast::LicenseKind;

fn dest(input: Option<&str>, output: Option<&str>, html_only: bool) -> Option<String> {
    let args = Args {
        input: input.map(|s| s.to_string()),
        output: output.map(|s| s.to_string()),
        verbose: false,
        html_only,
    };
    match args.output_dest() {
        OutputDest::File(p) => Some(p),
        OutputDest::Stdout => None,
    }
}

#[test]
fn output_destination() {
    assert_eq!(dest(Some("adventure.md"), None, false).as_deref(), Some("adventure.pdf"));
    assert_eq!(dest(Some("dir/adventure.md"), None, true).as_deref(), Some("dir/adventure.html"));
    assert_eq!(dest(Some("notes"), None, false).as_deref(), Some("notes.pdf"));
    assert_eq!(dest(Some("adventure.md"), Some("booklet.pdf"), false).as_deref(), Some("booklet.pdf"));
    assert_eq!(dest(None, Some("out.html"), true).as_deref(), Some("out.html"));
    assert_eq!(dest(None, None, false), None);
}

#[test]
fn error_messages() {
    let e = SieveError::ReadFile { path: "a.md".to_string(), source: "not found".to_string() };
    assert_eq!(e.message(), "Failed to read input file 'a.md': not found");
    let e = SieveError::WriteFile { path: "a.pdf".to_string(), source: "denied".to_string() };
    assert_eq!(e.message(), "Failed to write output file 'a.pdf': denied");
    assert_eq!(SieveError::ParseMarkdown("x".to_string()).message(), "Failed to parse markdown: x");
    assert_eq!(SieveError::PdfRender("y".to_string()).message(), "Failed to render PDF: y");
    assert_eq!(SieveError::InvalidStatBlock("z".to_string()).message(), "Invalid stat block format: z");
    assert_eq!(SieveError::ImageNotFound("m.png".to_string()).message(), "Image not found: m.png");
    assert_eq!(SieveError::WriteStdout("pipe".to_string()).message(), "Failed to write to stdout: pipe");
    assert!(SieveError::NoInput.message().starts_with("no input provided.\n\nUsage:\n"));
}

#[test]
fn license_names() {
    assert_eq!(title(LicenseKind::Ogl1_0a), "Open Game License v1.0a");
    assert_eq!(short_name(LicenseKind::CcBySa4_0), "CC BY-SA 4.0");
    assert_eq!(url(LicenseKind::Ogl1_0a), "https://www.opengamingfoundation.org/ogl.html");
    assert!(!body(LicenseKind::CcBySa4_0).is_empty());
}

#[test]
fn license_body_fragments() {
    let frags = parse_body("Title\n=====\n\nFirst line\nsecond line\n\nSub\n---\n\n----------\nLast\n");
    let shown: Vec<String> = frags
        .iter()
        .map(|f| match f {
            LicenseFragment::Heading2(t) => format!("H2:{}", t),
            LicenseFragment::Heading3(t) => format!("H3:{}", t),
            LicenseFragment::Paragraph(t) => format!("P:{}", t),
        })
        .collect();
    assert_eq!(shown, vec!["H2:Title", "P:First line second line", "H3:Sub", "P:Last"]);
    assert!(!fragments(LicenseKind::Ogl1_0a).is_empty());
}
