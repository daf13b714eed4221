use the_sieve::ast::{Alignment, Element, Inline, LicenseKind};
use the_sieve::error::SieveError;
use the_sieve::parser::markdown::parse;
use the_sieve::parse_markdown;

#[test]
fn test_basic_parsing() {
    let content = "# Hello World\n\nThis is a paragraph.";
    let doc = parse(content).unwrap();
    assert_eq!(doc.elements.len(), 2);
}

#[test]
fn test_page_break() {
    let content = "Before\n\n<!-- pagebreak -->\n\nAfter";
    let doc = parse(content).unwrap();
    assert!(doc.elements.iter().any(|e| matches!(e, Element::PageBreak)));
}

#[test]
fn heading_text_drops_formatting() {
    let doc = parse_markdown("## Hello *brave* `new` world").unwrap();
    assert_eq!(doc.elements.len(), 1);
    match &doc.elements[0] {
        Element::Heading { level, text } => {
            assert_eq!(*level, 2);
            assert_eq!(text, "Hello brave new world");
        }
        other => panic!("unexpected element {:?}", other),
    }
}

#[test]
fn fenced_blocks_become_stat_blocks_and_boxed_text() {
    let doc = parse("```statblock\n  Goblin HD 1\n```\n\n```boxed\nRead me.\n```\n\n```rust\nfn x() {}\n```\n").unwrap();
    assert_eq!(doc.elements.len(), 3);
    assert!(matches!(&doc.elements[0], Element::StatBlock(t) if t == "Goblin HD 1"));
    assert!(matches!(&doc.elements[1], Element::BoxedText(t) if t == "Read me."));
    match &doc.elements[2] {
        Element::CodeBlock { language, code } => {
            assert_eq!(language.as_deref(), Some("rust"));
            assert_eq!(code, "fn x() {}\n");
        }
        other => panic!("unexpected element {:?}", other),
    }
}

#[test]
fn links_keep_url_and_text() {
    let doc = parse("See [the map](http://x.org/m) now.").unwrap();
    match &doc.elements[0] {
        Element::Paragraph(inlines) => {
            assert_eq!(inlines.len(), 3);
            assert!(matches!(&inlines[0], Inline::Text(t) if t == "See "));
            match &inlines[1] {
                Inline::Link { text, url } => {
                    assert_eq!(url, "http://x.org/m");
                    assert_eq!(text.len(), 1);
                    assert!(matches!(&text[0], Inline::Text(t) if t == "the map"));
                }
                other => panic!("unexpected inline {:?}", other),
            }
            assert!(matches!(&inlines[2], Inline::Text(t) if t == " now."));
        }
        other => panic!("unexpected element {:?}", other),
    }
}

#[test]
fn images_take_width_from_title() {
    let doc = parse("![Keep](maps/keep.png \"width=40%\")").unwrap();
    match &doc.elements[0] {
        Element::Paragraph(inlines) => {
            assert_eq!(inlines.len(), 1);
            match &inlines[0] {
                Inline::Image(im) => {
                    assert_eq!(im.path, "maps/keep.png");
                    assert_eq!(im.width.as_deref(), Some("40%"));
                    assert_eq!(im.alt, "");
                }
                other => panic!("unexpected inline {:?}", other),
            }
        }
        other => panic!("unexpected element {:?}", other),
    }
}

#[test]
fn unreadable_image_attributes_are_a_parse_error() {
    match parse("![x](b.png{)") {
        Err(SieveError::ParseMarkdown(_)) => {}
        other => panic!("unexpected result {:?}", other.map(|d| d.elements.len())),
    }
}

#[test]
fn nested_lists_keep_the_parent_text_first() {
    let doc = parse("- Ground Floor\n  - Entry Hall\n  - Guard Room\n- [x] Done\n").unwrap();
    assert_eq!(doc.elements.len(), 1);
    match &doc.elements[0] {
        Element::List { ordered, items } => {
            assert!(!*ordered);
            assert_eq!(items.len(), 2);
            assert_eq!(items[0].task, None);
            assert_eq!(items[0].content.len(), 2);
            assert!(matches!(&items[0].content[0], Element::Paragraph(_)));
            match &items[0].content[1] {
                Element::List { items: inner, .. } => assert_eq!(inner.len(), 2),
                other => panic!("unexpected element {:?}", other),
            }
            assert_eq!(items[1].task, Some(true));
        }
        other => panic!("unexpected element {:?}", other),
    }
}

#[test]
fn tables_keep_headers_alignments_and_rows() {
    let doc = parse("| Roll | Encounter |\n|:----:|-----------|\n| 1 | Rats |\n| 2 | Goblins |\n").unwrap();
    match &doc.elements[0] {
        Element::Table(t) => {
            assert_eq!(t.headers, vec!["Roll".to_string(), "Encounter".to_string()]);
            assert_eq!(t.alignments, vec![Alignment::Center, Alignment::Unset]);
            assert_eq!(t.rows.len(), 2);
            assert_eq!(t.rows[1], vec!["2".to_string(), "Goblins".to_string()]);
        }
        other => panic!("unexpected element {:?}", other),
    }
}

#[test]
fn directives_become_elements() {
    let doc = parse("<!-- 1-column -->\n\nText\n\n<!-- license: ogl -->\n\n<div>raw</div>\n").unwrap();
    assert!(matches!(&doc.elements[0], Element::ColumnLayout(1)));
    assert!(matches!(&doc.elements[1], Element::Paragraph(_)));
    assert!(matches!(&doc.elements[2], Element::License { kind: LicenseKind::Ogl1_0a, .. }));
    assert!(matches!(&doc.elements[3], Element::Raw(_)));
}

#[test]
fn block_quotes_collect_paragraphs() {
    let doc = parse("> One\n>\n> Two\n\n---\n").unwrap();
    match &doc.elements[0] {
        Element::BlockQuote(children) => assert_eq!(children.len(), 2),
        other => panic!("unexpected element {:?}", other),
    }
    assert!(matches!(&doc.elements[1], Element::ThematicBreak));
}

#[test]
fn slash_fenced_text_is_a_stat_block() {
    let doc = parse("///\nGoblin\n///").unwrap();
    assert_eq!(doc.elements.len(), 1);
    assert!(matches!(&doc.elements[0], Element::StatBlock(s) if s == "Goblin"));

    let doc = parse(
        "Before\n\n///\nGoblin — HD 1-1, AC 6 [13], MV 30'\nAtk: **Spear** 1d6\n///\n\nAfter",
    )
    .unwrap();
    assert_eq!(doc.elements.len(), 3);
    match &doc.elements[1] {
        Element::StatBlock(s) => {
            assert_eq!(s, "Goblin — HD 1-1, AC 6 [13], MV 30'\nAtk: **Spear** 1d6")
        }
        other => panic!("unexpected element {:?}", other),
    }
    assert!(matches!(&doc.elements[2], Element::Paragraph(_)));
}

#[test]
fn half_fenced_text_stays_a_paragraph() {
    let doc = parse("///\nGoblin").unwrap();
    assert!(matches!(&doc.elements[0], Element::Paragraph(_)));
    let doc = parse("///").unwrap();
    assert!(matches!(&doc.elements[0], Element::Paragraph(_)));
}
