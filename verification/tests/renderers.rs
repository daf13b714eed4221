use the_sieve::ast::{Alignment, Document, Element, Image, Inline, ListItem, Table};
use the_sieve::convert_markdown_to_html;
use the_sieve::renderer::html::render_to_html;
use the_sieve::renderer::html_text::{apply_typography, escape_html, render_markdown_text};
use the_sieve::renderer::typst::{
    escape_typst, format_errors, generate_preamble, render_element, render_to_typst, Diagnostic,
};

#[test]
fn test_preamble_generation() {
    let preamble = generate_preamble();
    assert!(preamble.contains("5.5in"));
    assert!(preamble.contains("8.5in"));
}

#[test]
fn test_heading_render() {
    let element = Element::Heading {
        level: 1,
        text: "Test Heading".to_string(),
    };
    let output = render_element(&element, ".");
    assert!(output.contains("= Test Heading"));
}

#[test]
fn escaped_html_has_no_markup() {
    assert_eq!(
        escape_html("<a href=\"x\">&</a>"),
        "&lt;a href=&quot;x&quot;&gt;&amp;&lt;/a&gt;"
    );
    let e = escape_html("1 < 2 > 0 \"q\"");
    assert!(!e.contains('<') && !e.contains('>') && !e.contains('"'));
}

#[test]
fn typography_replaces_ascii_arrows() {
    assert_eq!(apply_typography("go -> north"), "go \u{2192} north");
    assert_eq!(apply_typography("-->"), "-\u{2192}");
    assert_eq!(apply_typography("a - > b"), "a - > b");
    assert!(!apply_typography("->->>").contains("->"));
}

#[test]
fn stat_block_text_to_html() {
    assert_eq!(
        render_markdown_text("**Goblin** HD 1\nAC 6\n\n- Spear\n- Bow"),
        "<strong>Goblin</strong> HD 1 AC 6<br>\n<ul><li>Spear</li><li>Bow</li></ul>"
    );
    assert_eq!(render_markdown_text("### Actions\n*Bite* 1d4"), "<strong>Actions</strong><br>\n<em>Bite</em> 1d4");
}

#[test]
fn markdown_to_html_page() {
    let html = convert_markdown_to_html("# Title\n\nSome *text* -> here.", ".").unwrap();
    assert!(html.starts_with("<!DOCTYPE html>"));
    assert!(html.contains("<div class=\"content two-column\">\n<h1>Title</h1>\n<p>Some <em>text</em> \u{2192} here.</p>\n</div>\n"));
    assert!(html.ends_with("</body>\n</html>\n"));
}

#[test]
fn html_single_column_switch() {
    let mut doc = Document::new();
    doc.push(Element::ColumnLayout(1));
    doc.push(Element::ThematicBreak);
    doc.push(Element::ColumnLayout(2));
    let html = render_to_html(&doc, ".");
    assert!(html.contains("<div class=\"content two-column\">\n</div>\n<div class=\"content single-column\">\n<hr>\n</div>\n<div class=\"content two-column\">\n</div>\n"));
}

#[test]
fn typst_escapes_special_characters() {
    assert_eq!(escape_typst("#a*b_c"), "\\#a\\*b\\_c");
    let out = render_element(&Element::Paragraph(vec![Inline::Text("50$ @home".to_string())]), ".");
    assert_eq!(out, "50\\$ \\@home\n");
}

#[test]
fn typst_images_resolve_against_the_base_path() {
    let rel = Element::Image(Image { alt: String::new(), path: "img.png".to_string(), width: Some("50%".to_string()) });
    assert_eq!(render_element(&rel, "/book"), "#image(\"/book/img.png\", width: 50%)\n");
    let abs = Element::Image(Image { alt: String::new(), path: "/art/map.png".to_string(), width: None });
    assert_eq!(render_element(&abs, "/book"), "#image(\"/art/map.png\")\n");
}

#[test]
fn typst_document_starts_with_preamble() {
    let mut doc = Document::new();
    doc.push(Element::Heading { level: 2, text: "Room".to_string() });
    let out = render_to_typst(&doc, ".");
    assert!(out.starts_with(generate_preamble().as_str()));
    assert!(out.contains("== Room\n"));
}

#[test]
fn typst_base_path_matters_only_for_images() {
    let mut doc = Document::new();
    doc.push(Element::Heading { level: 1, text: "Crypt".to_string() });
    doc.push(Element::Paragraph(vec![Inline::Text("A damp hall.".to_string())]));
    doc.push(Element::BlockQuote(vec![Element::Paragraph(vec![Inline::Text("Beware".to_string())])]));
    doc.push(Element::List {
        ordered: true,
        items: vec![ListItem { content: vec![Element::Paragraph(vec![Inline::Text("Torch".to_string())])], task: None }],
    });
    assert_eq!(render_to_typst(&doc, "/one"), render_to_typst(&doc, "/two/three"));

    let nested = Element::Image(Image { alt: String::new(), path: "map.png".to_string(), width: None });
    doc.push(Element::BlockQuote(vec![nested]));
    let a = render_to_typst(&doc, "/one");
    let b = render_to_typst(&doc, "/two/three");
    assert_ne!(a, b);
    assert!(a.contains("#image(\"/one/map.png\")"));
    assert!(b.contains("#image(\"/two/three/map.png\")"));
}

#[test]
fn cloned_documents_render_alike_and_stay_apart() {
    let mut doc = Document::new();
    doc.push(Element::Heading { level: 2, text: "Vault".to_string() });
    doc.push(Element::Paragraph(vec![
        Inline::Strong(vec![Inline::Text("Trap".to_string())]),
        Inline::Link { text: vec![Inline::Text("map".to_string())], url: "m.html".to_string() },
    ]));
    doc.push(Element::List {
        ordered: false,
        items: vec![ListItem {
            content: vec![Element::BlockQuote(vec![Element::StatBlock("Ogre".to_string())])],
            task: Some(true),
        }],
    });
    let copy = doc.clone();
    assert_eq!(render_to_html(&copy, "."), render_to_html(&doc, "."));
    assert_eq!(render_to_typst(&copy, "."), render_to_typst(&doc, "."));
    doc.push(Element::ThematicBreak);
    assert_ne!(render_to_html(&copy, "."), render_to_html(&doc, "."));
    let item = ListItem { content: vec![Element::Raw("<br>".to_string())], task: None };
    assert_eq!(item.clone().content.len(), 1);
    let inline = Inline::Emphasis(vec![Inline::Code("x".to_string())]);
    assert_eq!(format!("{:?}", inline.clone()), format!("{:?}", inline));
}

#[test]
fn compiler_errors_are_joined_without_warnings() {
    let ds = vec![
        Diagnostic { is_error: true, message: "unknown font".to_string() },
        Diagnostic { is_error: false, message: "unused".to_string() },
        Diagnostic { is_error: true, message: "bad image".to_string() },
    ];
    assert_eq!(format_errors(&ds), "unknown font; bad image");
    assert_eq!(format_errors(&vec![]), "");
}

#[test]
fn escaping_round_trips() {
    let text = "a<b>&\"c\" &amp; d";
    let escaped = escape_html(text);
    let decoded = escaped
        .replace("&lt;", "<")
        .replace("&gt;", ">")
        .replace("&quot;", "\"")
        .replace("&amp;", "&");
    assert_eq!(decoded, text);

    let t = "50$ #hash \\back [x] *b* _i_";
    let e = escape_typst(t);
    let mut out = String::new();
    let mut chars = e.chars();
    while let Some(c) = chars.next() {
        if c == '\\' {
            if let Some(n) = chars.next() {
                out.push(n);
            }
        } else {
            out.push(c);
        }
    }
    assert_eq!(out, t);
}

fn sample_list() -> Element {
    let text = |s: &str| Element::Paragraph(vec![Inline::Text(s.to_string())]);
    Element::List {
        ordered: false,
        items: vec![
            ListItem { content: vec![text("a")], task: None },
            ListItem {
                content: vec![
                    text("b"),
                    Element::List {
                        ordered: true,
                        items: vec![ListItem { content: vec![text("c")], task: None }],
                    },
                ],
                task: None,
            },
        ],
    }
}

fn sample_table() -> Element {
    Element::Table(Table {
        headers: vec!["Roll".to_string(), "Name".to_string()],
        alignments: vec![Alignment::Center, Alignment::Unset],
        rows: vec![vec!["1".to_string(), "Rat".to_string()]],
    })
}

#[test]
fn html_lists_and_tables() {
    let mut doc = Document::new();
    doc.push(sample_list());
    doc.push(sample_table());
    let html = render_to_html(&doc, ".");
    assert!(html.contains("<ul>\n<li>a</li>\n<li>b\n<ol>\n<li>c</li>\n</ol>\n</li>\n</ul>\n"));
    assert!(html.contains(
        "<table>\n<thead>\n<tr>\n<th style=\"text-align: center\">Roll</th>\n<th>Name</th>\n</tr>\n</thead>\n<tbody>\n<tr>\n<td style=\"text-align: center\">1</td>\n<td>Rat</td>\n</tr>\n</tbody>\n</table>\n"
    ));
}

#[test]
fn typst_lists_tables_and_quotes() {
    assert_eq!(render_element(&sample_list(), "."), "- a\n- b\n  1. c\n");
    assert_eq!(
        render_element(&sample_table(), "."),
        "#table(\n  columns: 2,\n  inset: 6pt,\n  align: (center, auto),\n  table.header([*Roll*], [*Name*]),\n  [1],\n  [Rat],\n)\n"
    );
    let quote = Element::BlockQuote(vec![
        Element::Paragraph(vec![Inline::Text("x".to_string())]),
        Element::Paragraph(vec![Inline::Text("y".to_string())]),
    ]);
    assert_eq!(render_element(&quote, "."), "#quote[> x\n> y]\n");
}
