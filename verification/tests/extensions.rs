use the_sieve::ast::{LicenseInfo, LicenseKind};
use the_sieve::parser::extensions::{
    detect_code_block_type, extract_quoted, image_attributes_readable, is_page_break,
    parse_boxed_text, parse_column_layout, parse_image_attributes, parse_license, CodeBlockType,
};

#[test]
fn test_page_break_detection() {
    assert!(is_page_break("<!-- pagebreak -->"));
    assert!(is_page_break("<!--pagebreak-->"));
    assert!(is_page_break("  <!-- pagebreak -->  "));
    assert!(!is_page_break("<!-- other -->"));
}

#[test]
fn test_column_layout_detection() {
    assert_eq!(parse_column_layout("<!-- 1-column -->"), Some(1));
    assert_eq!(parse_column_layout("<!-- 2-column -->"), Some(2));
    assert_eq!(parse_column_layout("<!-- other -->"), None);
}

#[test]
fn test_license_directive_detection() {
    let bare = LicenseInfo::default();
    assert_eq!(
        parse_license("<!-- license: ogl-1.0a -->"),
        Some((LicenseKind::Ogl1_0a, bare.clone()))
    );
    assert_eq!(
        parse_license("<!--license:ogl-->"),
        Some((LicenseKind::Ogl1_0a, bare.clone()))
    );
    assert_eq!(
        parse_license("<!-- license: cc-by-sa-4.0 -->"),
        Some((LicenseKind::CcBySa4_0, bare.clone()))
    );
    assert_eq!(parse_license("<!-- pagebreak -->"), None);
    assert_eq!(parse_license("<!-- license: unknown -->"), None);
}

#[test]
fn test_license_attribution_parsing() {
    let parsed =
        parse_license(r#"<!-- license: cc-by-sa-4.0 attribution="X by Y" changes="reformatted" -->"#)
            .unwrap();
    assert_eq!(parsed.0, LicenseKind::CcBySa4_0);
    assert_eq!(parsed.1.attribution.as_deref(), Some("X by Y"));
    assert_eq!(parsed.1.changes.as_deref(), Some("reformatted"));
}

#[test]
fn test_license_partial_attribution() {
    let parsed =
        parse_license(r#"<!-- license: cc-by-sa-4.0 attribution="Just attribution" -->"#)
            .unwrap();
    assert_eq!(parsed.1.attribution.as_deref(), Some("Just attribution"));
    assert_eq!(parsed.1.changes, None);
}

#[test]
fn test_code_block_type_detection() {
    assert_eq!(detect_code_block_type("statblock"), CodeBlockType::StatBlock);
    assert_eq!(detect_code_block_type("stat-block"), CodeBlockType::StatBlock);
    assert_eq!(detect_code_block_type("monster"), CodeBlockType::StatBlock);
    assert_eq!(detect_code_block_type("boxed"), CodeBlockType::Boxed);
    assert_eq!(detect_code_block_type("read-aloud"), CodeBlockType::Boxed);
    assert_eq!(detect_code_block_type(""), CodeBlockType::Regular(None));
    assert_eq!(detect_code_block_type("rust"), CodeBlockType::Regular(Some("rust".to_string())));
}

#[test]
fn directives_ignore_surrounding_whitespace() {
    assert_eq!(parse_column_layout("\n  <!-- 2-column -->\t"), Some(2));
    assert_eq!(
        parse_license("   <!-- license: ogl -->\n"),
        Some((LicenseKind::Ogl1_0a, LicenseInfo::default()))
    );
    assert_eq!(detect_code_block_type("  boxed \n"), CodeBlockType::Boxed);
    assert!(!is_page_break("<!-- page break -->"));
}

#[test]
fn code_block_type_is_lowercased() {
    assert_eq!(detect_code_block_type("  StatBlock "), CodeBlockType::StatBlock);
    assert_eq!(detect_code_block_type("READ-ALOUD"), CodeBlockType::Boxed);
    assert_eq!(
        detect_code_block_type(" Python "),
        CodeBlockType::Regular(Some("python".to_string()))
    );
}

#[test]
fn license_name_is_case_insensitive() {
    let parsed = parse_license("<!-- license: CC-BY-SA changes=\"none\" -->").unwrap();
    assert_eq!(parsed.0, LicenseKind::CcBySa4_0);
    assert_eq!(parsed.1.attribution, None);
    assert_eq!(parsed.1.changes.as_deref(), Some("none"));
    assert_eq!(parse_license("<!-- license:ogl1.0a -->").map(|p| p.0), Some(LicenseKind::Ogl1_0a));
    assert_eq!(parse_license("<!-- licence: ogl -->"), None);
    assert_eq!(parse_license("license: ogl"), None);
}

#[test]
fn quoted_values() {
    assert_eq!(extract_quoted("a=\"1\" b=\"2\"", "b").as_deref(), Some("2"));
    assert_eq!(extract_quoted("a=\"unterminated", "a"), None);
    assert_eq!(extract_quoted("a=\"1\"", "c"), None);
    assert_eq!(extract_quoted("key=\"\"", "key").as_deref(), Some(""));
}

#[test]
fn boxed_text_is_trimmed() {
    assert_eq!(parse_boxed_text("\n  Read this aloud.  \n\n"), "Read this aloud.");
    assert_eq!(parse_boxed_text("   "), "");
}

#[test]
fn image_attributes_from_braces_and_title() {
    let im = parse_image_attributes("A map", "maps/keep.png{width=50%}", None);
    assert_eq!(im.alt, "A map");
    assert_eq!(im.path, "maps/keep.png");
    assert_eq!(im.width.as_deref(), Some("50%"));

    let im = parse_image_attributes("", "a.png", Some("width=30%"));
    assert_eq!(im.path, "a.png");
    assert_eq!(im.width.as_deref(), Some("30%"));

    let im = parse_image_attributes("", "a.png{ width=2in , height=1in}", Some("width=9%"));
    assert_eq!(im.path, "a.png");
    assert_eq!(im.width.as_deref(), Some("2in"));

    let im = parse_image_attributes("", "a.png", Some("a caption"));
    assert_eq!(im.width, None);
}

#[test]
fn image_attribute_lists_that_cannot_be_read() {
    assert!(image_attributes_readable("a.png"));
    assert!(image_attributes_readable("a.png{width=5%}"));
    assert!(!image_attributes_readable("a.png{"));
    assert!(!image_attributes_readable("a.png{width=é"));
}
