use the_sieve::ast::{Alignment, Element, Inline, LicenseInfo, LicenseKind, Table};
use the_sieve::renderer::pdf::OutlineOp::{Close, Open};
use the_sieve::renderer::pdf::{
    outline_ops, table_columns, license_tracks, LicenseStyle, collect_inline_text, license_header, list_marker, parse_box_content, parse_inline_markdown,
    BoxItem, InlineSpan, Placement, TrackMark, TrackPlanner,
};

fn texts(items: &[BoxItem]) -> Vec<String> {
    items
        .iter()
        .map(|b| match b {
            BoxItem::Paragraph(t) => format!("P:{}", t),
            BoxItem::Heading(t) => format!("H:{}", t),
            BoxItem::Bullet(t) => format!("B:{}", t),
        })
        .collect()
}

#[test]
fn box_content_paragraphs_headings_bullets() {
    let items = parse_box_content(
        "  Goblin Chief\nHD 2\n\n### Actions\n- Morningstar 1d6\n  two hands\n* Javelin\n#### Notes\nBully\n",
    );
    assert_eq!(
        texts(&items),
        vec![
            "P:Goblin Chief HD 2",
            "H:Actions",
            "B:Morningstar 1d6 two hands",
            "B:Javelin",
            "H:Notes",
            "P:Bully",
        ]
    );
    assert!(parse_box_content(" \n\n \n").is_empty());
}

#[test]
fn inline_markdown_runs() {
    let (text, spans) = parse_inline_markdown("**Bite** -> *1d4* \\*x");
    assert_eq!(text, "Bite \u{2192} 1d4 *x");
    assert_eq!(
        spans,
        vec![
            InlineSpan { start: 0, end: 4, bold: true, italic: false, monospace: false },
            InlineSpan { start: 7, end: 10, bold: false, italic: true, monospace: false },
        ]
    );
    for s in &spans {
        assert!(s.start <= s.end && s.end <= text.chars().count());
    }
}

#[test]
fn unclosed_stars_stay_literal() {
    let (text, spans) = parse_inline_markdown("HD 3* and **open");
    assert_eq!(text, "HD 3* and **open");
    assert!(spans.is_empty());
}

#[test]
fn paragraph_runs_follow_nesting() {
    let inlines = vec![
        Inline::Text("a ".to_string()),
        Inline::Strong(vec![
            Inline::Text("b".to_string()),
            Inline::Emphasis(vec![Inline::Text("c".to_string())]),
        ]),
        Inline::SoftBreak,
        Inline::Code("d".to_string()),
        Inline::HardBreak,
    ];
    let (text, spans) = collect_inline_text(&inlines);
    assert_eq!(text, "a bc d\n");
    assert_eq!(
        spans,
        vec![
            InlineSpan { start: 2, end: 3, bold: true, italic: false, monospace: false },
            InlineSpan { start: 3, end: 4, bold: true, italic: true, monospace: false },
            InlineSpan { start: 5, end: 6, bold: false, italic: false, monospace: true },
        ]
    );
}

#[test]
fn list_markers() {
    assert_eq!(list_marker(false, 0, true, None), "\u{2022}");
    assert_eq!(list_marker(false, 3, false, None), "\u{25e6}");
    assert_eq!(list_marker(true, 9, true, None), "10.");
    assert_eq!(list_marker(true, 0, true, Some(true)), "[x]");
    assert_eq!(list_marker(false, 0, false, Some(false)), "[ ]");
}

#[test]
fn license_header_lines() {
    let info = LicenseInfo { attribution: Some("Map by A.".to_string()), changes: Some("cropped".to_string()) };
    let h = license_header(LicenseKind::CcBySa4_0, &info);
    assert_eq!(h.title, "Creative Commons Attribution-ShareAlike 4.0 International");
    assert_eq!(
        h.attribution.as_deref(),
        Some("Map by A. Licensed under CC BY-SA 4.0. To view a copy of this license, visit https://creativecommons.org/licenses/by-sa/4.0/.")
    );
    assert_eq!(h.changes.as_deref(), Some("Changes from original: cropped"));
    let bare = license_header(LicenseKind::Ogl1_0a, &LicenseInfo::default());
    assert_eq!(bare.title, "Open Game License v1.0a");
    assert!(bare.attribution.is_none() && bare.changes.is_none());
}

#[test]
fn adjacent_page_breaks_make_one_track() {
    let mut p = TrackPlanner::new();
    assert_eq!(p.plan_element(&Element::ThematicBreak), Placement::Flow(2));
    p.add_blocks(3);
    assert_eq!(p.plan_element(&Element::PageBreak), Placement::Skip);
    assert_eq!(p.plan_element(&Element::PageBreak), Placement::Skip);
    let tracks = p.finish();
    assert_eq!(tracks, vec![TrackMark { columns: 2, blocks: 3, page_break_after: true }]);
}

#[test]
fn first_level_headings_span_both_columns() {
    let mut p = TrackPlanner::new();
    p.plan_element(&Element::ThematicBreak);
    p.add_blocks(2);
    let h1 = Element::Heading { level: 1, text: "Warrens".to_string() };
    assert_eq!(p.plan_element(&h1), Placement::Span);
    assert_eq!(p.pending(), 0);
    p.push_track(1, 1);
    let h2 = Element::Heading { level: 2, text: "Area".to_string() };
    assert_eq!(p.plan_element(&h2), Placement::Flow(2));
    p.add_blocks(1);
    assert_eq!(
        p.finish(),
        vec![
            TrackMark { columns: 2, blocks: 2, page_break_after: false },
            TrackMark { columns: 1, blocks: 1, page_break_after: false },
            TrackMark { columns: 2, blocks: 1, page_break_after: false },
        ]
    );
}

#[test]
fn column_switches_close_tracks() {
    let mut p = TrackPlanner::new();
    assert_eq!(p.plan_element(&Element::ColumnLayout(1)), Placement::Skip);
    let h1 = Element::Heading { level: 1, text: "Title".to_string() };
    assert_eq!(p.plan_element(&h1), Placement::Flow(1));
    p.add_blocks(1);
    assert_eq!(p.plan_element(&Element::ColumnLayout(1)), Placement::Skip);
    assert_eq!(p.plan_element(&Element::ColumnLayout(7)), Placement::Skip);
    p.add_blocks(4);
    let lic = Element::License { kind: LicenseKind::Ogl1_0a, info: LicenseInfo::default() };
    assert_eq!(p.plan_element(&lic), Placement::License);
    p.push_track(1, 1);
    p.push_track(2, 5);
    assert_eq!(
        p.finish(),
        vec![
            TrackMark { columns: 1, blocks: 1, page_break_after: false },
            TrackMark { columns: 2, blocks: 4, page_break_after: true },
            TrackMark { columns: 1, blocks: 1, page_break_after: false },
            TrackMark { columns: 2, blocks: 5, page_break_after: false },
        ]
    );
}

#[test]
fn outline_nests_under_nearest_lower_heading() {
    // h1 "A", h2 "B", h3 "C", h2 "D", h1 "E", h3 "F"
    let ops = outline_ops(&vec![1, 2, 3, 2, 1, 3]);
    assert_eq!(
        ops,
        vec![
            Open(0),
            Open(1),
            Open(2),
            Close,
            Close,
            Open(3),
            Close,
            Close,
            Open(4),
            Open(5),
            Close,
            Close,
        ]
    );
    assert!(outline_ops(&vec![]).is_empty());
    assert_eq!(outline_ops(&vec![2, 2]), vec![Open(0), Close, Open(1), Close]);
}

#[test]
fn table_column_count_takes_the_widest_row() {
    let t = Table {
        headers: vec!["A".to_string()],
        alignments: vec![Alignment::Left],
        rows: vec![vec!["1".to_string(), "2".to_string(), "3".to_string()], vec!["x".to_string()]],
    };
    assert_eq!(table_columns(&t), 3);
    let empty = Table { headers: vec![], alignments: vec![], rows: vec![] };
    assert_eq!(table_columns(&empty), 0);
}

#[test]
fn license_appendix_tracks() {
    let info = LicenseInfo { attribution: Some("Art by B.".to_string()), changes: None };
    let appendix = license_tracks(LicenseKind::Ogl1_0a, &info);
    assert_eq!(appendix.header.len(), 2);
    assert_eq!(appendix.header[0].text, "Open Game License v1.0a");
    assert_eq!(appendix.header[0].style, LicenseStyle::Title);
    assert_eq!(appendix.header[1].style, LicenseStyle::Attribution);
    assert!(appendix.header[1].text.starts_with("Art by B. Licensed under OGL v1.0a."));
    assert!(appendix.header.iter().all(|b| !b.splittable));
    let frags = the_sieve::licenses::fragments(LicenseKind::Ogl1_0a);
    assert_eq!(appendix.body.len(), frags.len());
    for (b, f) in appendix.body.iter().zip(frags.iter()) {
        match f {
            the_sieve::licenses::LicenseFragment::Heading2(t) => {
                assert_eq!(&b.text, t);
                assert_eq!(b.style, LicenseStyle::Heading2);
                assert!(!b.splittable);
            }
            the_sieve::licenses::LicenseFragment::Heading3(t) => {
                assert_eq!(&b.text, t);
                assert_eq!(b.style, LicenseStyle::Heading3);
                assert!(!b.splittable);
            }
            the_sieve::licenses::LicenseFragment::Paragraph(t) => {
                assert_eq!(&b.text, t);
                assert_eq!(b.style, LicenseStyle::Body);
                assert!(b.splittable);
            }
        }
    }

    let mut p = TrackPlanner::new();
    let lic = Element::License { kind: LicenseKind::Ogl1_0a, info: LicenseInfo::default() };
    assert_eq!(p.plan_element(&lic), Placement::License);
    p.push_license(&appendix);
    assert_eq!(
        p.finish(),
        vec![
            TrackMark { columns: 2, blocks: 0, page_break_after: true },
            TrackMark { columns: 1, blocks: 2, page_break_after: false },
            TrackMark { columns: 2, blocks: frags.len(), page_break_after: false },
        ]
    );
}
