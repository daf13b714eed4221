//! Render a document tree to HTML for inspecting the parsed structure.
//! Not paginated; intended for browser viewing.

use vstd::prelude::*;

use crate::ast::{
    element_v, elements_v, image_v, info_v, inlines_v, items_v,
    lemma_element_v_unfold, lemma_inline_v_unfold, strings_v, table_v, Alignment,
    Document, Element, ElementV, Image, ImageV, Inline, InlineV, LicenseInfoV, LicenseKind,
    ListItem, ListItemV, Table, TableV,
};
use crate::licenses::{
    body_fragments, body_text, fragments, fragments_v, short_name, short_name_text,
    title, title_text, url, url_text, FragmentV, LicenseFragment,
};
use crate::renderer::html_text::{
    escape_spec, markdown_text_html, push_escaped, render_markdown_text, typography,
    typography_chars,
};
use crate::text::{chars_of, decimal, push_decimal, push_str};

verus! {

pub const HTML_PREAMBLE: &'static str = r##"<!DOCTYPE html>
<html>
<head>
<meta charset="UTF-8">
<style>
body {
  font-family: Palatino, "Palatino Linotype", Georgia, serif;
  font-size: 9pt;
  line-height: 1.4;
  margin: 1em;
  padding: 0;
}

.content.two-column {
  column-count: 2;
  column-gap: 11pt;
}

.content.single-column {
  column-count: 1;
}

h1 {
  column-span: all;
  text-align: center;
  font-size: 18pt;
  font-weight: bold;
  margin: 0.5em 0 0.8em 0;
}

h2 {
  font-size: 12pt;
  font-weight: bold;
  margin: 1em 0 0.6em 0;
}

h3 {
  font-size: 10pt;
  font-weight: bold;
  margin: 0.8em 0 0.5em 0;
}

h4 {
  font-size: 9pt;
  font-weight: bold;
  margin: 0.6em 0 0.4em 0;
}

p {
  margin: 0 0 0.6em 0;
  text-align: left;
}

ul, ol {
  margin: 0 0 0.6em 0;
  padding-left: 1.5em;
}

li {
  margin-bottom: 0.3em;
}

ul ul, ol ul {
  list-style-type: circle;
}

li:has(> ul:first-child):has(> ul:last-child),
li:has(> ol:first-child):has(> ol:last-child) {
  list-style-type: none;
}

.stat-block {
  background-color: #e8e8e8;
  padding: 8pt;
  border-radius: 2pt;
  margin: 0.5em 0;
}

.stat-block ul {
  margin: 0.2em 0 0 0;
  padding-left: 1.2em;
}

.stat-block li {
  margin-bottom: 0.1em;
}

.boxed-text {
  background-color: #f4f4f0;
  border: 0.5pt solid #999;
  padding: 8pt;
  margin: 0.5em 0;
  font-style: italic;
}

pre {
  font-family: monospace;
  font-size: 8pt;
  background-color: #f5f5f5;
  padding: 8pt;
  overflow-x: auto;
}

code {
  font-family: monospace;
  font-size: 8pt;
  background-color: #f5f5f5;
  padding: 1pt 3pt;
}

table {
  border-collapse: collapse;
  width: 100%;
  margin: 0.5em 0;
  font-size: 9pt;
}

th, td {
  border: 0.5pt solid #999;
  padding: 4pt 6pt;
  text-align: left;
}

th {
  background-color: #e8e8e8;
  font-weight: bold;
}

blockquote {
  margin: 0.5em 0 0.5em 1em;
  padding-left: 0.5em;
  border-left: 2pt solid #999;
  font-style: italic;
}

a {
  color: #333;
  text-decoration: underline;
}

img {
  max-width: 100%;
  height: auto;
}

hr {
  border: none;
  border-top: 1pt solid #999;
  margin: 1em 0;
}

/* Visible separator for explicit page breaks (HTML is not paginated). */
hr.page-break {
  border-top: 2pt dashed #999;
  margin: 1.5em 0;
}

.license-section {
  margin-top: 2em;
}

.license-title {
  text-align: center;
  font-size: 13pt;
  font-weight: bold;
  margin: 0.5em 0 0.5em 0;
}

.license-attribution {
  text-align: center;
  font-size: 9pt;
  font-weight: bold;
  margin: 0.4em 0;
}

.license-changes {
  text-align: center;
  font-size: 9pt;
  font-style: italic;
  margin: 0.3em 0 0.6em 0;
}

.license {
  font-size: 6.5pt;
  line-height: 1.3;
  column-count: 2;
  column-gap: 11pt;
}

.license p {
  font-size: 6.5pt;
  margin: 0 0 0.4em 0;
}

.license h2 {
  font-size: 8pt;
  font-weight: bold;
  margin: 0.6em 0 0.2em 0;
}

.license h3 {
  font-size: 7pt;
  font-weight: bold;
  margin: 0.4em 0 0.2em 0;
}
</style>
</head>
"##;

// ---------------------------------------------------------------------------
// Specification
// ---------------------------------------------------------------------------

pub open spec fn width_style(w: Option<Seq<char>>) -> Seq<char> {
    match w {
        Some(w) => " style=\"width: "@ + w + "\""@,
        None => Seq::empty(),
    }
}

pub open spec fn html_image(im: ImageV) -> Seq<char> {
    "<img src=\""@ + im.path + "\" alt=\""@ + escape_spec(im.alt) + "\""@ + width_style(im.width)
        + ">\n"@
}

pub open spec fn html_inline(x: InlineV) -> Seq<char>
    decreases x,
{
    match x {
        InlineV::Text(t) => escape_spec(typography(t)),
        InlineV::Emphasis(v) => "<em>"@ + html_inlines(v) + "</em>"@,
        InlineV::Strong(v) => "<strong>"@ + html_inlines(v) + "</strong>"@,
        InlineV::Code(c) => "<code>"@ + escape_spec(c) + "</code>"@,
        InlineV::Link { text, url } => "<a href=\""@ + escape_spec(url) + "\">"@ + html_inlines(
            text,
        ) + "</a>"@,
        InlineV::Image(im) => html_image(im),
        InlineV::SoftBreak => seq![' '],
        InlineV::HardBreak => "<br>\n"@,
    }
}

pub open spec fn html_inlines(s: Seq<InlineV>) -> Seq<char>
    decreases s,
{
    if s.len() == 0 {
        Seq::empty()
    } else {
        html_inlines(s.drop_last()) + html_inline(s.last())
    }
}

pub open spec fn align_at(aligns: Seq<Alignment>, i: int) -> Alignment {
    if 0 <= i < aligns.len() {
        aligns[i]
    } else {
        Alignment::Unset
    }
}

pub open spec fn align_style(a: Alignment) -> Seq<char> {
    match a {
        Alignment::Left => " style=\"text-align: left\""@,
        Alignment::Center => " style=\"text-align: center\""@,
        Alignment::Right => " style=\"text-align: right\""@,
        Alignment::Unset => Seq::empty(),
    }
}

/// Cells of one table row, each as `<tag style>text</tag>\n`.
pub open spec fn html_cells(cells: Seq<Seq<char>>, aligns: Seq<Alignment>, tag: Seq<char>) -> Seq<
    char,
>
    decreases cells.len(),
{
    if cells.len() == 0 {
        Seq::empty()
    } else {
        html_cells(cells.drop_last(), aligns, tag) + "<"@ + tag + align_style(
            align_at(aligns, cells.len() - 1),
        ) + ">"@ + escape_spec(cells.last()) + "</"@ + tag + ">\n"@
    }
}

pub open spec fn html_rows(rows: Seq<Seq<Seq<char>>>, aligns: Seq<Alignment>) -> Seq<char>
    decreases rows.len(),
{
    if rows.len() == 0 {
        Seq::empty()
    } else {
        html_rows(rows.drop_last(), aligns) + "<tr>\n"@ + html_cells(rows.last(), aligns, "td"@)
            + "</tr>\n"@
    }
}

pub open spec fn html_table(t: TableV) -> Seq<char> {
    "<table>\n<thead>\n<tr>\n"@ + html_cells(t.headers, t.alignments, "th"@)
        + "</tr>\n</thead>\n<tbody>\n"@ + html_rows(t.rows, t.alignments) + "</tbody>\n</table>\n"@
}

pub open spec fn lang_class(l: Option<Seq<char>>) -> Seq<char> {
    match l {
        Some(l) => " class=\"language-"@ + l + "\""@,
        None => Seq::empty(),
    }
}

pub open spec fn html_element(e: ElementV) -> Seq<char>
    decreases e, 0int,
{
    match e {
        ElementV::Heading { level, text } => "<h"@ + decimal(level as nat) + ">"@ + escape_spec(text)
            + "</h"@ + decimal(level as nat) + ">\n"@,
        ElementV::Paragraph(v) => "<p>"@ + html_inlines(v) + "</p>\n"@,
        ElementV::CodeBlock { language, code } => "<pre><code"@ + lang_class(language) + ">"@
            + escape_spec(code) + "</code></pre>\n"@,
        ElementV::BlockQuote(v) => "<blockquote>"@ + html_elements(v) + "</blockquote>\n"@,
        ElementV::List { ordered, items } => html_list(ordered, items),
        ElementV::ThematicBreak => "<hr>\n"@,
        ElementV::PageBreak => "<div class=\"page-break\"></div>\n"@,
        ElementV::License { .. } => Seq::empty(),
        ElementV::ColumnLayout(_) => Seq::empty(),
        ElementV::StatBlock(t) => "<div class=\"stat-block\">"@ + markdown_text_html(t)
            + "</div>\n"@,
        ElementV::BoxedText(t) => "<div class=\"boxed-text\">"@ + escape_spec(t) + "</div>\n"@,
        ElementV::Image(im) => html_image(im),
        ElementV::Table(t) => html_table(t),
        ElementV::Raw(h) => h + "\n"@,
    }
}

pub open spec fn html_elements(s: Seq<ElementV>) -> Seq<char>
    decreases s, 0int,
{
    if s.len() == 0 {
        Seq::empty()
    } else {
        html_elements(s.drop_last()) + html_element(s.last())
    }
}

pub open spec fn list_tag(ordered: bool) -> Seq<char> {
    if ordered {
        "ol"@
    } else {
        "ul"@
    }
}

pub open spec fn html_list(ordered: bool, items: Seq<ListItemV>) -> Seq<char>
    decreases items, 1int,
{
    "<"@ + list_tag(ordered) + ">\n"@ + html_items(items) + "</"@ + list_tag(ordered) + ">\n"@
}

pub open spec fn html_items(items: Seq<ListItemV>) -> Seq<char>
    decreases items, 0int,
{
    if items.len() == 0 {
        Seq::empty()
    } else {
        html_items(items.drop_last()) + "<li>"@ + html_item_body(items.last().content)
            + "</li>\n"@
    }
}

/// The inside of a list item: paragraphs inline, nested lists on a new line,
/// other elements after a newline unless first.
pub open spec fn html_item_body(c: Seq<ElementV>) -> Seq<char>
    decreases c, 0int,
{
    if c.len() == 0 {
        Seq::empty()
    } else {
        html_item_body(c.drop_last()) + html_item_part(c.last(), c.len() - 1)
    }
}

pub open spec fn html_item_part(e: ElementV, i: int) -> Seq<char>
    decreases e, 1int,
{
    match e {
        ElementV::Paragraph(v) => html_inlines(v),
        ElementV::List { ordered, items } => seq!['\n'] + html_list(ordered, items),
        _ => (if i > 0 {
            seq!['\n']
        } else {
            Seq::empty()
        }) + html_element(e),
    }
}

pub open spec fn html_fragment(f: FragmentV) -> Seq<char> {
    match f {
        FragmentV::Heading2(t) => "<h2>"@ + escape_spec(t) + "</h2>\n"@,
        FragmentV::Heading3(t) => "<h3>"@ + escape_spec(t) + "</h3>\n"@,
        FragmentV::Paragraph(t) => "<p>"@ + escape_spec(t) + "</p>\n"@,
    }
}

pub open spec fn html_fragments(fs: Seq<FragmentV>) -> Seq<char>
    decreases fs.len(),
{
    if fs.len() == 0 {
        Seq::empty()
    } else {
        html_fragments(fs.drop_last()) + html_fragment(fs.last())
    }
}

pub open spec fn html_attribution(kind: LicenseKind, a: Option<Seq<char>>) -> Seq<char> {
    match a {
        Some(a) => "<p class=\"license-attribution\">"@ + escape_spec(a) + " Licensed under "@
            + escape_spec(short_name_text(kind)) + ". To view a copy of this license, visit "@
            + escape_spec(url_text(kind)) + ".</p>\n"@,
        None => Seq::empty(),
    }
}

pub open spec fn html_changes(c: Option<Seq<char>>) -> Seq<char> {
    match c {
        Some(c) => "<p class=\"license-changes\">Changes from original: "@ + escape_spec(c)
            + "</p>\n"@,
        None => Seq::empty(),
    }
}

/// The license appendix: title, attribution and changes lines when given,
/// then the license body.
pub open spec fn html_license(kind: LicenseKind, info: LicenseInfoV) -> Seq<char> {
    "<section class=\"license-section\">\n"@ + "<div class=\"license-title\">"@ + escape_spec(
        title_text(kind),
    ) + "</div>\n"@ + html_attribution(kind, info.attribution) + html_changes(info.changes)
        + "<div class=\"license\">\n"@ + html_fragments(body_fragments(body_text(kind)))
        + "</div>\n"@ + "</section>\n"@
}

/// The body markup of the first `k` elements and whether single-column mode
/// is on after them.
pub open spec fn html_body(s: Seq<ElementV>, k: int) -> (Seq<char>, bool)
    decreases k,
{
    if k <= 0 || k > s.len() {
        (Seq::empty(), false)
    } else {
        let (out, single) = html_body(s, k - 1);
        match s[k - 1] {
            ElementV::ColumnLayout(cols) => if cols == 1 && !single {
                (out + "</div>\n<div class=\"content single-column\">\n"@, true)
            } else if cols == 2 && single {
                (out + "</div>\n<div class=\"content two-column\">\n"@, false)
            } else {
                (out, single)
            },
            ElementV::PageBreak => (out + "<hr class=\"page-break\">\n"@, single),
            ElementV::License { kind, info } => (out + html_license(kind, info), single),
            e => (out + html_element(e), single),
        }
    }
}

/// The whole HTML page for a document.
pub open spec fn html_document(s: Seq<ElementV>) -> Seq<char> {
    HTML_PREAMBLE@ + "<body>\n"@ + "<div class=\"content two-column\">\n"@ + html_body(
        s,
        s.len() as int,
    ).0 + "</div>\n"@ + "</body>\n</html>\n"@
}

// ---------------------------------------------------------------------------
// Implementation
// ---------------------------------------------------------------------------

proof fn lemma_take_last<A>(s: Seq<A>, k: int)
    requires
        0 <= k < s.len(),
    ensures
        s.take(k + 1).drop_last() == s.take(k),
        s.take(k + 1).last() == s[k],
        s.take(k + 1).len() == k + 1,
{
    assert(s.take(k + 1).drop_last() =~= s.take(k));
}

fn push_escaped_str(out: &mut String, t: &str)
    ensures
        final(out)@ == old(out)@ + escape_spec(t@),
{
    push_escaped(out, &chars_of(t));
}

fn render_image(image: &Image) -> (r: String)
    ensures
        r@ == html_image(image_v(*image)),
{
    let mut out = String::new();
    push_str(&mut out, "<img src=\"");
    push_str(&mut out, image.path.as_str());
    push_str(&mut out, "\" alt=\"");
    push_escaped_str(&mut out, image.alt.as_str());
    push_str(&mut out, "\"");
    match &image.width {
        Some(w) => {
            push_str(&mut out, " style=\"width: ");
            push_str(&mut out, w.as_str());
            push_str(&mut out, "\"");
        },
        None => {},
    }
    push_str(&mut out, ">\n");
    assert(out@ =~= html_image(image_v(*image)));
    out
}

fn render_inlines(inlines: &Vec<Inline>) -> (r: String)
    ensures
        r@ == html_inlines(inlines_v(inlines@)),
    decreases inlines,
{
    let ghost sv = inlines_v(inlines@);
    let mut output = String::new();
    let mut k: usize = 0;
    while k < inlines.len()
        invariant
            0 <= k <= inlines.len(),
            sv == inlines_v(inlines@),
            output@ == html_inlines(sv.take(k as int)),
        decreases inlines.len() - k,
    {
        let ghost prev = output@;
        proof {
            lemma_take_last(sv, k as int);
            lemma_inline_v_unfold(inlines@[k as int]);
        }
        match &inlines[k] {
            Inline::Text(text) => {
                let tc = typography_chars(&chars_of(text.as_str()));
                push_escaped(&mut output, &tc);
            },
            Inline::Emphasis(inner) => {
                push_str(&mut output, "<em>");
                let r = render_inlines(inner);
                push_str(&mut output, r.as_str());
                push_str(&mut output, "</em>");
            },
            Inline::Strong(inner) => {
                push_str(&mut output, "<strong>");
                let r = render_inlines(inner);
                push_str(&mut output, r.as_str());
                push_str(&mut output, "</strong>");
            },
            Inline::Code(code) => {
                push_str(&mut output, "<code>");
                push_escaped_str(&mut output, code.as_str());
                push_str(&mut output, "</code>");
            },
            Inline::Link { text, url } => {
                push_str(&mut output, "<a href=\"");
                push_escaped_str(&mut output, url.as_str());
                push_str(&mut output, "\">");
                let r = render_inlines(text);
                push_str(&mut output, r.as_str());
                push_str(&mut output, "</a>");
            },
            Inline::Image(image) => {
                let r = render_image(image);
                push_str(&mut output, r.as_str());
            },
            Inline::SoftBreak => {
                push_str(&mut output, " ");
                proof {
                    reveal_strlit(" ");
                }
            },
            Inline::HardBreak => {
                push_str(&mut output, "<br>\n");
            },
        }
        assert(output@ =~= prev + html_inline(sv[k as int]));
        k += 1;
    }
    assert(sv.take(k as int) =~= sv);
    output
}

fn push_align_style(out: &mut String, a: Alignment)
    ensures
        final(out)@ == old(out)@ + align_style(a),
{
    match a {
        Alignment::Left => push_str(out, " style=\"text-align: left\""),
        Alignment::Center => push_str(out, " style=\"text-align: center\""),
        Alignment::Right => push_str(out, " style=\"text-align: right\""),
        Alignment::Unset => {
            assert(out@ =~= old(out)@ + align_style(a));
        },
    }
}

fn push_cells(out: &mut String, cells: &Vec<String>, aligns: &Vec<Alignment>, tag: &str)
    ensures
        final(out)@ == old(out)@ + html_cells(strings_v(cells@), aligns@, tag@),
{
    let ghost cv = strings_v(cells@);
    let mut i: usize = 0;
    while i < cells.len()
        invariant
            0 <= i <= cells.len(),
            cv == strings_v(cells@),
            out@ == old(out)@ + html_cells(cv.take(i as int), aligns@, tag@),
        decreases cells.len() - i,
    {
        let ghost prev = out@;
        proof {
            lemma_take_last(cv, i as int);
        }
        let align = if i < aligns.len() {
            aligns[i]
        } else {
            Alignment::Unset
        };
        push_str(out, "<");
        push_str(out, tag);
        push_align_style(out, align);
        push_str(out, ">");
        push_escaped_str(out, cells[i].as_str());
        push_str(out, "</");
        push_str(out, tag);
        push_str(out, ">\n");
        assert(out@ =~= old(out)@ + html_cells(cv.take(i + 1), aligns@, tag@));
        i += 1;
    }
    assert(cv.take(i as int) =~= cv);
}

fn render_table(table: &Table) -> (r: String)
    ensures
        r@ == html_table(table_v(*table)),
{
    let ghost tv = table_v(*table);
    let mut output = String::new();
    push_str(&mut output, "<table>\n<thead>\n<tr>\n");
    push_cells(&mut output, &table.headers, &table.alignments, "th");
    push_str(&mut output, "</tr>\n</thead>\n<tbody>\n");
    let ghost head = output@;
    let mut r: usize = 0;
    while r < table.rows.len()
        invariant
            0 <= r <= table.rows.len(),
            tv == table_v(*table),
            output@ == head + html_rows(tv.rows.take(r as int), tv.alignments),
        decreases table.rows.len() - r,
    {
        proof {
            lemma_take_last(tv.rows, r as int);
        }
        push_str(&mut output, "<tr>\n");
        push_cells(&mut output, &table.rows[r], &table.alignments, "td");
        push_str(&mut output, "</tr>\n");
        assert(output@ =~= head + html_rows(tv.rows.take(r + 1), tv.alignments));
        r += 1;
    }
    assert(tv.rows.take(r as int) =~= tv.rows);
    push_str(&mut output, "</tbody>\n</table>\n");
    assert(output@ =~= html_table(tv));
    output
}

fn render_list(ordered: bool, items: &Vec<ListItem>) -> (r: String)
    ensures
        r@ == html_list(ordered, items_v(items@)),
    decreases items,
{
    let ghost iv = items_v(items@);
    let tag = if ordered {
        "ol"
    } else {
        "ul"
    };
    assert(tag@ == list_tag(ordered));
    let mut output = String::new();
    push_str(&mut output, "<");
    push_str(&mut output, tag);
    push_str(&mut output, ">\n");
    let ghost head = output@;
    let mut k: usize = 0;
    while k < items.len()
        invariant
            0 <= k <= items.len(),
            iv == items_v(items@),
            output@ == head + html_items(iv.take(k as int)),
        decreases items.len() - k,
    {
        proof {
            lemma_take_last(iv, k as int);
        }
        let item = &items[k];
        let ghost cv = iv[k as int].content;
        assert(cv == elements_v(item.content@));
        push_str(&mut output, "<li>");
        let ghost li = output@;
        let mut i: usize = 0;
        while i < item.content.len()
            invariant
                0 <= i <= item.content.len(),
                k < items.len(),
                *item == items@[k as int],
                cv == elements_v(item.content@),
                output@ == li + html_item_body(cv.take(i as int)),
            decreases item.content.len() - i,
        {
            let ghost prev = output@;
            proof {
                lemma_take_last(cv, i as int);
                lemma_element_v_unfold(item.content@[i as int]);
            }
            let element = &item.content[i];
            proof {
                assert(decreases_to!(*items => items@));
                assert(decreases_to!(items@ => items@[k as int]));
                assert(decreases_to!(items@[k as int] => items@[k as int].content));
                assert(decreases_to!(item.content => item.content@));
                assert(decreases_to!(item.content@ => item.content@[i as int]));
            }
            match element {
                Element::Paragraph(inlines) => {
                    let r = render_inlines(inlines);
                    push_str(&mut output, r.as_str());
                },
                Element::List { ordered: nested_ordered, items: nested_items } => {
                    proof {
                        assert(decreases_to!(*element => *nested_items));
                    }
                    push_str(&mut output, "\n");
                    let r = render_list(*nested_ordered, nested_items);
                    push_str(&mut output, r.as_str());
                    proof {
                        reveal_strlit("\n");
                    }
                },
                _ => {
                    if i > 0 {
                        push_str(&mut output, "\n");
                        proof {
                            reveal_strlit("\n");
                        }
                    }
                    let r = render_element(element);
                    push_str(&mut output, r.as_str());
                },
            }
            assert(output@ =~= prev + html_item_part(cv[i as int], i as int));
            i += 1;
        }
        assert(cv.take(i as int) =~= cv);
        push_str(&mut output, "</li>\n");
        assert(output@ =~= head + html_items(iv.take(k + 1)));
        k += 1;
    }
    assert(iv.take(k as int) =~= iv);
    push_str(&mut output, "</");
    push_str(&mut output, tag);
    push_str(&mut output, ">\n");
    assert(output@ =~= html_list(ordered, iv));
    output
}

fn render_element(element: &Element) -> (r: String)
    ensures
        r@ == html_element(element_v(*element)),
    decreases element,
{
    let mut out = String::new();
    proof {
        lemma_element_v_unfold(*element);
    }
    match element {
        Element::Heading { level, text } => {
            push_str(&mut out, "<h");
            push_decimal(&mut out, *level as usize);
            push_str(&mut out, ">");
            push_escaped_str(&mut out, text.as_str());
            push_str(&mut out, "</h");
            push_decimal(&mut out, *level as usize);
            push_str(&mut out, ">\n");
        },
        Element::Paragraph(inlines) => {
            push_str(&mut out, "<p>");
            let r = render_inlines(inlines);
            push_str(&mut out, r.as_str());
            push_str(&mut out, "</p>\n");
        },
        Element::CodeBlock { language, code } => {
            push_str(&mut out, "<pre><code");
            match language {
                Some(l) => {
                    push_str(&mut out, " class=\"language-");
                    push_str(&mut out, l.as_str());
                    push_str(&mut out, "\"");
                },
                None => {},
            }
            push_str(&mut out, ">");
            push_escaped_str(&mut out, code.as_str());
            push_str(&mut out, "</code></pre>\n");
        },
        Element::BlockQuote(elements) => {
            let ghost ev = elements_v(elements@);
            push_str(&mut out, "<blockquote>");
            let ghost head = out@;
            let mut k: usize = 0;
            while k < elements.len()
                invariant
                    0 <= k <= elements.len(),
                    *element == Element::BlockQuote(*elements),
                    ev == elements_v(elements@),
                    out@ == head + html_elements(ev.take(k as int)),
                decreases elements.len() - k,
            {
                proof {
                    lemma_take_last(ev, k as int);
                    assert(decreases_to!(*element => (*element)->BlockQuote_0));
                    assert(decreases_to!(*elements => elements@));
                    assert(decreases_to!(elements@ => elements@[k as int]));
                }
                let r = render_element(&elements[k]);
                push_str(&mut out, r.as_str());
                assert(out@ =~= head + html_elements(ev.take(k + 1)));
                k += 1;
            }
            assert(ev.take(k as int) =~= ev);
            push_str(&mut out, "</blockquote>\n");
        },
        Element::List { ordered, items } => {
            let r = render_list(*ordered, items);
            push_str(&mut out, r.as_str());
        },
        Element::ThematicBreak => {
            push_str(&mut out, "<hr>\n");
        },
        Element::PageBreak => {
            push_str(&mut out, "<div class=\"page-break\"></div>\n");
        },
        Element::License { .. } => {},
        Element::ColumnLayout(_) => {},
        Element::StatBlock(text) => {
            push_str(&mut out, "<div class=\"stat-block\">");
            let r = render_markdown_text(text.as_str());
            push_str(&mut out, r.as_str());
            push_str(&mut out, "</div>\n");
        },
        Element::BoxedText(text) => {
            push_str(&mut out, "<div class=\"boxed-text\">");
            push_escaped_str(&mut out, text.as_str());
            push_str(&mut out, "</div>\n");
        },
        Element::Image(image) => {
            let r = render_image(image);
            push_str(&mut out, r.as_str());
        },
        Element::Table(table) => {
            let r = render_table(table);
            push_str(&mut out, r.as_str());
        },
        Element::Raw(html) => {
            push_str(&mut out, html.as_str());
            push_str(&mut out, "\n");
        },
    }
    assert(out@ =~= html_element(element_v(*element)));
    out
}

fn push_license_head(out: &mut String, kind: LicenseKind, info: &crate::ast::LicenseInfo)
    ensures
        final(out)@ == old(out)@ + "<section class=\"license-section\">\n"@
            + "<div class=\"license-title\">"@ + escape_spec(title_text(kind)) + "</div>\n"@
            + html_attribution(kind, info_v(*info).attribution) + html_changes(
            info_v(*info).changes,
        ),
{
    push_str(out, "<section class=\"license-section\">\n");
    push_str(out, "<div class=\"license-title\">");
    push_escaped_str(out, title(kind));
    push_str(out, "</div>\n");
    let ghost mid = out@;
    match &info.attribution {
        Some(attribution) => {
            push_str(out, "<p class=\"license-attribution\">");
            push_escaped_str(out, attribution.as_str());
            push_str(out, " Licensed under ");
            push_escaped_str(out, short_name(kind));
            push_str(out, ". To view a copy of this license, visit ");
            push_escaped_str(out, url(kind));
            push_str(out, ".</p>\n");
        },
        None => {},
    }
    assert(out@ =~= mid + html_attribution(kind, info_v(*info).attribution));
    let ghost mid2 = out@;
    match &info.changes {
        Some(changes) => {
            push_str(out, "<p class=\"license-changes\">Changes from original: ");
            push_escaped_str(out, changes.as_str());
            push_str(out, "</p>\n");
        },
        None => {},
    }
    assert(out@ =~= mid2 + html_changes(info_v(*info).changes));
    assert(out@ =~= old(out)@ + "<section class=\"license-section\">\n"@
        + "<div class=\"license-title\">"@ + escape_spec(title_text(kind)) + "</div>\n"@
        + html_attribution(kind, info_v(*info).attribution) + html_changes(info_v(*info).changes));
}

fn push_fragments(out: &mut String, kind: LicenseKind)
    ensures
        final(out)@ == old(out)@ + html_fragments(body_fragments(body_text(kind))),
{
    let frags = fragments(kind);
    let ghost fv = fragments_v(frags@);
    let mut i: usize = 0;
    while i < frags.len()
        invariant
            0 <= i <= frags.len(),
            fv == fragments_v(frags@),
            out@ == old(out)@ + html_fragments(fv.take(i as int)),
        decreases frags.len() - i,
    {
        proof {
            lemma_take_last(fv, i as int);
        }
        match &frags[i] {
            LicenseFragment::Heading2(t) => {
                push_str(out, "<h2>");
                push_escaped_str(out, t.as_str());
                push_str(out, "</h2>\n");
            },
            LicenseFragment::Heading3(t) => {
                push_str(out, "<h3>");
                push_escaped_str(out, t.as_str());
                push_str(out, "</h3>\n");
            },
            LicenseFragment::Paragraph(t) => {
                push_str(out, "<p>");
                push_escaped_str(out, t.as_str());
                push_str(out, "</p>\n");
            },
        }
        assert(out@ =~= old(out)@ + html_fragments(fv.take(i + 1)));
        i += 1;
    }
    assert(fv.take(i as int) =~= fv);
}

fn push_license(out: &mut String, kind: LicenseKind, info: &crate::ast::LicenseInfo)
    ensures
        final(out)@ == old(out)@ + html_license(kind, info_v(*info)),
{
    push_license_head(out, kind, info);
    push_str(out, "<div class=\"license\">\n");
    push_fragments(out, kind);
    push_str(out, "</div>\n");
    push_str(out, "</section>\n");
    assert(out@ =~= old(out)@ + html_license(kind, info_v(*info)));
}

fn generate_html_preamble() -> (r: String)
    ensures
        r@ == HTML_PREAMBLE@,
{
    let mut out = String::new();
    push_str(&mut out, HTML_PREAMBLE);
    assert(out@ =~= HTML_PREAMBLE@);
    out
}

/// Render a document AST to HTML for debugging the AST → HTML pipeline.
/// Not paginated; intended for browser viewing. The base path is not used.
pub fn render_to_html(document: &Document, _base_path: &str) -> (r: String)
    ensures
        r@ == html_document(document@),
{
    let ghost dv = document@;
    let mut output = String::new();
    let mut in_single_column = false;
    let pre = generate_html_preamble();
    push_str(&mut output, pre.as_str());
    push_str(&mut output, "<body>\n");
    push_str(&mut output, "<div class=\"content two-column\">\n");
    let ghost head = output@;
    let mut k: usize = 0;
    while k < document.elements.len()
        invariant
            0 <= k <= document.elements.len(),
            dv == document@,
            dv == elements_v(document.elements@),
            output@ == head + html_body(dv, k as int).0,
            in_single_column == html_body(dv, k as int).1,
        decreases document.elements.len() - k,
    {
        let element = &document.elements[k];
        assert(dv[k as int] == element_v(*element));
        match element {
            Element::ColumnLayout(cols) => {
                if *cols == 1 && !in_single_column {
                    push_str(&mut output, "</div>\n<div class=\"content single-column\">\n");
                    in_single_column = true;
                } else if *cols == 2 && in_single_column {
                    push_str(&mut output, "</div>\n<div class=\"content two-column\">\n");
                    in_single_column = false;
                }
            },
            Element::PageBreak => {
                push_str(&mut output, "<hr class=\"page-break\">\n");
            },
            Element::License { kind, info } => {
                push_license(&mut output, *kind, info);
            },
            _ => {
                let r = render_element(element);
                push_str(&mut output, r.as_str());
            },
        }
        assert(output@ =~= head + html_body(dv, k + 1).0);
        k += 1;
    }
    push_str(&mut output, "</div>\n");
    push_str(&mut output, "</body>\n</html>\n");
    assert(output@ =~= html_document(dv));
    output
}

proof fn lemma_html_inlines_concat(a: Seq<InlineV>, b: Seq<InlineV>)
    ensures
        html_inlines(a + b) == html_inlines(a) + html_inlines(b),
    decreases b.len(),
{
    if b.len() == 0 {
        assert(a + b =~= a);
    } else {
        lemma_html_inlines_concat(a, b.drop_last());
        assert((a + b).drop_last() =~= a + b.drop_last());
        assert((a + b).last() == b.last());
    }
}

/// Strong text is set in `<strong>` tags around the HTML of its content, and
/// emphasis in `<em>` tags, so the two never render alike.
pub proof fn law_strong_and_emphasis_tags(v: Seq<InlineV>)
    ensures
        ({
            let h = html_inline(InlineV::Strong(v));
            &&& h.len() == html_inlines(v).len() + 17
            &&& h.take(8) == "<strong>"@
            &&& h.subrange(8, h.len() - 9) == html_inlines(v)
            &&& h.skip(h.len() - 9) == "</strong>"@
        }),
        ({
            let h = html_inline(InlineV::Emphasis(v));
            &&& h.len() == html_inlines(v).len() + 9
            &&& h.take(4) == "<em>"@
            &&& h.subrange(4, h.len() - 5) == html_inlines(v)
            &&& h.skip(h.len() - 5) == "</em>"@
        }),
        html_inline(InlineV::Strong(v)) != html_inline(InlineV::Emphasis(v)),
{
    reveal_strlit("<strong>");
    reveal_strlit("</strong>");
    reveal_strlit("<em>");
    reveal_strlit("</em>");
    let hs = html_inline(InlineV::Strong(v));
    let he = html_inline(InlineV::Emphasis(v));
    let c = html_inlines(v);
    assert(hs.take(8) =~= "<strong>"@);
    assert(hs.subrange(8, hs.len() - 9) =~= c);
    assert(hs.skip(hs.len() - 9) =~= "</strong>"@);
    assert(he.take(4) =~= "<em>"@);
    assert(he.subrange(4, he.len() - 5) =~= c);
    assert(he.skip(he.len() - 5) =~= "</em>"@);
    assert(hs[1] == 's' && he[1] == 'e');
}

/// Each strong inline of a run of inlines shows in the run's HTML at its own
/// place, as `<strong>`, the HTML of its content, and `</strong>`.
pub proof fn law_strong_inline_in_place(s: Seq<InlineV>, i: int, v: Seq<InlineV>)
    requires
        0 <= i < s.len(),
        s[i] == InlineV::Strong(v),
    ensures
        html_inlines(s) == html_inlines(s.take(i)) + "<strong>"@ + html_inlines(v) + "</strong>"@
            + html_inlines(s.skip(i + 1)),
{
    assert(s =~= s.take(i) + seq![s[i]] + s.skip(i + 1));
    lemma_html_inlines_concat(s.take(i) + seq![s[i]], s.skip(i + 1));
    lemma_html_inlines_concat(s.take(i), seq![s[i]]);
    assert(seq![s[i]].drop_last() =~= Seq::<InlineV>::empty());
    assert(html_inlines(Seq::<InlineV>::empty()) =~= Seq::<char>::empty());
    assert(seq![s[i]].last() == s[i]);
    assert(html_inlines(seq![s[i]]) =~= html_inlines(Seq::<InlineV>::empty()) + html_inline(s[i]));
    assert(html_inlines(seq![s[i]]) =~= html_inline(s[i]));
    let a = html_inlines(s.take(i));
    let c = html_inlines(s.skip(i + 1));
    assert(html_inlines(s) =~= a + ("<strong>"@ + html_inlines(v) + "</strong>"@) + c);
    assert(a + ("<strong>"@ + html_inlines(v) + "</strong>"@) + c =~= a + "<strong>"@
        + html_inlines(v) + "</strong>"@ + c);
}

/// A numbered list is an `<ol>` and a bullet list a `<ul>`, opened before
/// its items and closed after them.
pub proof fn law_html_list_tag_follows_kind(ordered: bool, items: Seq<ListItemV>)
    ensures
        ({
            let h = html_element(ElementV::List { ordered, items });
            let t = if ordered {
                "ol"@
            } else {
                "ul"@
            };
            &&& h.take(5) == "<"@ + t + ">\n"@
            &&& h.skip(h.len() - 6) == "</"@ + t + ">\n"@
            &&& h.subrange(5, h.len() - 6) == html_items(items)
        }),
{
    reveal_strlit("ol");
    reveal_strlit("ul");
    reveal_strlit("<");
    reveal_strlit(">\n");
    reveal_strlit("</");
    let h = html_element(ElementV::List { ordered, items });
    let t = list_tag(ordered);
    assert(h == "<"@ + t + ">\n"@ + html_items(items) + "</"@ + t + ">\n"@);
    assert(h.take(5) =~= "<"@ + t + ">\n"@);
    assert(h.skip(h.len() - 6) =~= "</"@ + t + ">\n"@);
    assert(h.subrange(5, h.len() - 6) =~= html_items(items));
}

} // verus!
