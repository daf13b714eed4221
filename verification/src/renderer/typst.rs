//! Render a document tree to Typst markup.

use vstd::prelude::*;

use crate::ast::{
    element_v, elements_v, image_v, inlines_v, items_v, lemma_element_v_unfold,
    lemma_inline_v_unfold, strings_v, table_v, Alignment, Document, Element, ElementV, Image,
    ImageV, Inline, InlineV, ListItem, ListItemV, Table, TableV,
};
use crate::parser::extensions::{strip_prefix, strip_prefix_exec};
use crate::renderer::html_text::join_chars;
use crate::text::{
    chars_of, decimal, digit_char, is_absolute_path, join, join_path, lines, lines_exec, path_is_absolute,
    path_join, push_char, push_chars, push_decimal, push_str, seqs_of, slice_chars, trim,
    trim_chars, trim_start, trim_start_chars,
};

verus! {

pub const TYPST_PREAMBLE: &'static str = r##"// The Sieve TTRPG Document
#set page(
  width: 5.5in,
  height: 8.5in,
  margin: (top: 0.5in, bottom: 0.5in, left: 0.4in, right: 0.4in),
)

#set text(
  font: ("Palatino", "Palatino Linotype", "Georgia", "serif"),
  size: 9pt,
  hyphenate: true,
)

#set par(
  justify: false,
  leading: 0.6em,
  first-line-indent: 0pt,
)

#set heading(numbering: none)

#show heading.where(level: 1): it => {
  set align(center)
  set text(size: 18pt, weight: "bold")
  block(above: 0.5em, below: 0.8em)[#it.body]
}

#show heading.where(level: 2): it => {
  set text(size: 12pt, weight: "bold")
  block(above: 1em, below: 0.6em)[#it.body]
}

#show heading.where(level: 3): it => {
  set text(size: 10pt, weight: "bold")
  block(above: 0.8em, below: 0.5em)[#it.body]
}

#show heading.where(level: 4): it => {
  set text(size: 9pt, weight: "bold")
  block(above: 0.6em, below: 0.4em)[#it.body]
}

// OSR-style stat block - simple shaded box
#let stat-block(content) = {
  block(
    width: 100%,
    fill: rgb("#e8e8e8"),
    inset: 8pt,
    radius: 2pt,
    breakable: false,
  )[
    #content
  ]
}

// Boxed text (read-aloud) styling
#let boxed-text(content) = {
  block(
    width: 100%,
    fill: rgb("#f4f4f0"),
    stroke: 0.5pt + rgb("#999"),
    inset: 8pt,
    radius: 0pt,
  )[
    #set text(style: "italic")
    #content
  ]
}

"##;

// ---------------------------------------------------------------------------
// Specification
// ---------------------------------------------------------------------------

/// The characters Typst markup gives a meaning to, which the full escape
/// prefixes with a backslash.
pub open spec fn typst_special(c: char) -> bool {
    c == '\\' || c == '#' || c == '$' || c == '@' || c == '<' || c == '>' || c == '[' || c == ']'
        || c == '*' || c == '_'
}

/// The same set without `*` and `_`.
pub open spec fn typst_special_min(c: char) -> bool {
    c == '\\' || c == '#' || c == '$' || c == '@' || c == '<' || c == '>' || c == '[' || c == ']'
}

/// One character, with a backslash before it when it is special.
pub open spec fn bs_char(c: char, minimal: bool) -> Seq<char> {
    if (minimal && typst_special_min(c)) || (!minimal && typst_special(c)) {
        seq!['\\', c]
    } else {
        seq![c]
    }
}

/// `s` with a backslash before each special character (the full set, or the
/// minimal one).
pub open spec fn backslash_escape(s: Seq<char>, minimal: bool) -> Seq<char>
    decreases s.len(),
{
    if s.len() == 0 {
        Seq::empty()
    } else {
        backslash_escape(s.drop_last(), minimal) + bs_char(s.last(), minimal)
    }
}

/// Typst escape of plain text.
pub open spec fn escape_typst_spec(s: Seq<char>) -> Seq<char> {
    backslash_escape(s, false)
}

/// Reading escaped Typst text: a backslash stands for the character after it.
pub open spec fn unbackslash(s: Seq<char>) -> Seq<char>
    decreases s.len(),
{
    if s.len() == 0 {
        Seq::empty()
    } else if s[0] == '\\' && s.len() > 1 {
        seq![s[1]] + unbackslash(s.skip(2))
    } else {
        seq![s[0]] + unbackslash(s.skip(1))
    }
}

proof fn lemma_unbackslash_escaped(t: Seq<char>, b: Seq<char>, minimal: bool)
    ensures
        unbackslash(backslash_escape(t, minimal) + b) == t + unbackslash(b),
    decreases t.len(),
{
    if t.len() > 0 {
        let c = t.last();
        let e = bs_char(c, minimal);
        assert(backslash_escape(t, minimal) + b =~= backslash_escape(t.drop_last(), minimal) + (e
            + b));
        lemma_unbackslash_escaped(t.drop_last(), e + b, minimal);
        if e.len() == 2 {
            assert((e + b).skip(2) =~= b);
        } else {
            assert((e + b).skip(1) =~= b);
        }
        assert(unbackslash(e + b) == seq![c] + unbackslash(b));
        assert(t.drop_last() + (seq![c] + unbackslash(b)) =~= t + unbackslash(b));
    } else {
        assert(backslash_escape(t, minimal) + b =~= b);
        assert(t + unbackslash(b) =~= unbackslash(b));
    }
}

/// Escaping for Typst loses nothing: reading each backslash as "the next
/// character literally" gives the text back, for both escapers.
pub proof fn law_typst_escape_round_trips(s: Seq<char>)
    ensures
        unbackslash(escape_typst_spec(s)) == s,
        unbackslash(escape_typst_minimal_spec(s)) == s,
{
    lemma_unbackslash_escaped(s, Seq::empty(), false);
    lemma_unbackslash_escaped(s, Seq::empty(), true);
    assert(escape_typst_spec(s) + Seq::<char>::empty() =~= escape_typst_spec(s));
    assert(escape_typst_minimal_spec(s) + Seq::<char>::empty() =~= escape_typst_minimal_spec(s));
    assert(s + unbackslash(Seq::<char>::empty()) =~= s);
}

/// Typst escape that leaves `*` and `_` alone.
pub open spec fn escape_typst_minimal_spec(s: Seq<char>) -> Seq<char> {
    backslash_escape(s, true)
}

/// The next `**` at or after `i`.
pub open spec fn closing_double_from(cs: Seq<char>, i: int) -> Option<int>
    decreases cs.len() - i,
{
    if i < 0 || i + 1 >= cs.len() {
        None
    } else if cs[i] == '*' && cs[i + 1] == '*' {
        Some(i)
    } else {
        closing_double_from(cs, i + 1)
    }
}

/// The next `*` at or after `i` that is not followed by another `*`.
pub open spec fn closing_single_from(cs: Seq<char>, i: int) -> Option<int>
    decreases cs.len() - i,
{
    if i < 0 || i >= cs.len() {
        None
    } else if cs[i] == '*' && (i + 1 >= cs.len() || cs[i + 1] != '*') {
        Some(i)
    } else {
        closing_single_from(cs, i + 1)
    }
}

/// Markdown `**bold**` and `*italic*` of the characters from `i` on as Typst
/// `*bold*` and `_italic_`, other characters escaped (without `*` and `_`).
pub open spec fn md_fmt_from(cs: Seq<char>, i: int) -> Seq<char>
    decreases cs.len() - i,
{
    if i < 0 || i >= cs.len() {
        Seq::empty()
    } else if i + 1 < cs.len() && cs[i] == '*' && cs[i + 1] == '*' && closing_double_from(
        cs,
        i + 2,
    ) is Some {
        let end = closing_double_from(cs, i + 2).unwrap();
        if end < i + 2 || end + 2 > cs.len() {
            Seq::empty()
        } else {
            seq!['*'] + escape_typst_minimal_spec(cs.subrange(i + 2, end)) + seq!['*']
                + md_fmt_from(cs, end + 2)
        }
    } else if cs[i] == '*' && (i == 0 || cs[i - 1] != '*') && (i + 1 >= cs.len() || cs[i + 1]
        != '*') && closing_single_from(cs, i + 1) is Some {
        let end = closing_single_from(cs, i + 1).unwrap();
        if end < i + 1 || end + 1 > cs.len() {
            Seq::empty()
        } else {
            seq!['_'] + escape_typst_minimal_spec(cs.subrange(i + 1, end)) + seq!['_']
                + md_fmt_from(cs, end + 1)
        }
    } else {
        bs_char(cs[i], true) + md_fmt_from(cs, i + 1)
    }
}

/// The Typst text of one line of stat-block or boxed text: `## `, `### ` and
/// `#### ` headings (after leading whitespace) in bold, other lines with their
/// markdown formatting converted; each followed by a Typst line break.
pub open spec fn typst_content_line(line: Seq<char>) -> Seq<char> {
    let t = trim_start(line);
    match strip_prefix(t, "#### "@) {
        Some(h) => seq!['*'] + escape_typst_minimal_spec(h) + seq!['*'] + "\\\n"@,
        None => match strip_prefix(t, "### "@) {
            Some(h) => seq!['*'] + escape_typst_minimal_spec(h) + seq!['*'] + "\\\n"@,
            None => match strip_prefix(t, "## "@) {
                Some(h) => seq!['*'] + escape_typst_minimal_spec(h) + seq!['*'] + "\\\n"@,
                None => md_fmt_from(line, 0) + "\\\n"@,
            },
        },
    }
}

pub open spec fn typst_content_lines(ls: Seq<Seq<char>>) -> Seq<char>
    decreases ls.len(),
{
    if ls.len() == 0 {
        Seq::empty()
    } else {
        typst_content_lines(ls.drop_last()) + typst_content_line(ls.last())
    }
}

/// Stat-block or boxed text as Typst content, without the final line break.
pub open spec fn typst_content(text: Seq<char>) -> Seq<char> {
    let r = typst_content_lines(lines(text));
    if r.len() >= 2 && r[r.len() - 2] == '\\' && r[r.len() - 1] == '\n' {
        r.take(r.len() - 2)
    } else {
        r
    }
}

pub open spec fn typst_inline(x: InlineV) -> Seq<char>
    decreases x,
{
    match x {
        InlineV::Text(t) => escape_typst_spec(t),
        InlineV::Emphasis(v) => seq!['_'] + typst_inlines(v) + seq!['_'],
        InlineV::Strong(v) => seq!['*'] + typst_inlines(v) + seq!['*'],
        InlineV::Code(c) => seq!['`'] + c + seq!['`'],
        InlineV::Link { text, url } => "#link(\""@ + url + "\")["@ + typst_inlines(text) + "]"@,
        InlineV::Image(im) => "#image(\""@ + im.path + "\")"@,
        InlineV::SoftBreak => seq![' '],
        InlineV::HardBreak => "\\\n"@,
    }
}

pub open spec fn typst_inlines(s: Seq<InlineV>) -> Seq<char>
    decreases s,
{
    if s.len() == 0 {
        Seq::empty()
    } else {
        typst_inlines(s.drop_last()) + typst_inline(s.last())
    }
}

/// The path an image is drawn from: as written when absolute, else joined to
/// the base path.
pub open spec fn resolved_path(base: Seq<char>, p: Seq<char>) -> Seq<char> {
    if path_is_absolute(p) {
        p
    } else {
        path_join(base, p)
    }
}

pub open spec fn typst_image(im: ImageV, base: Seq<char>) -> Seq<char> {
    "#image(\""@ + resolved_path(base, im.path) + seq!['"'] + match im.width {
        Some(w) => ", width: "@ + w,
        None => Seq::empty(),
    } + ")\n"@
}

pub open spec fn align_word(a: Alignment) -> Seq<char> {
    match a {
        Alignment::Left => "left"@,
        Alignment::Center => "center"@,
        Alignment::Right => "right"@,
        Alignment::Unset => "auto"@,
    }
}

pub open spec fn align_words(s: Seq<Alignment>) -> Seq<Seq<char>> {
    Seq::new(s.len(), |i: int| align_word(s[i]))
}

pub open spec fn header_cells(hs: Seq<Seq<char>>) -> Seq<Seq<char>> {
    Seq::new(hs.len(), |i: int| "[*"@ + escape_typst_spec(hs[i]) + "*]"@)
}

pub open spec fn typst_row(cells: Seq<Seq<char>>) -> Seq<char>
    decreases cells.len(),
{
    if cells.len() == 0 {
        Seq::empty()
    } else {
        typst_row(cells.drop_last()) + "  ["@ + escape_typst_spec(cells.last()) + "],\n"@
    }
}

pub open spec fn typst_rows(rows: Seq<Seq<Seq<char>>>) -> Seq<char>
    decreases rows.len(),
{
    if rows.len() == 0 {
        Seq::empty()
    } else {
        typst_rows(rows.drop_last()) + typst_row(rows.last())
    }
}

pub open spec fn typst_table(t: TableV) -> Seq<char> {
    "#table(\n  columns: "@ + decimal(t.headers.len()) + ",\n  inset: 6pt,\n"@ + "  align: ("@
        + join(align_words(t.alignments), ", "@) + "),\n"@ + "  table.header("@ + join(
        header_cells(t.headers),
        ", "@,
    ) + "),\n"@ + typst_rows(t.rows) + ")\n"@
}

/// `"> "` before each line of `s`, the lines joined with newlines.
pub open spec fn quote_lines(ls: Seq<Seq<char>>) -> Seq<Seq<char>> {
    Seq::new(ls.len(), |i: int| "> "@ + ls[i])
}

pub open spec fn typst_element(e: ElementV, base: Seq<char>) -> Seq<char>
    decreases e, 0int,
{
    match e {
        ElementV::Heading { level, text } => Seq::new(level as nat, |i: int| '=') + seq![' ']
            + escape_typst_spec(text) + seq!['\n'],
        ElementV::Paragraph(v) => typst_inlines(v) + seq!['\n'],
        ElementV::CodeBlock { language, code } => "```"@ + match language {
            Some(l) => l,
            None => Seq::empty(),
        } + seq!['\n'] + code + "```\n"@,
        ElementV::BlockQuote(v) => "#quote["@ + join(
            quote_lines(lines(typst_elements(v, base))),
            seq!['\n'],
        ) + "]\n"@,
        ElementV::List { ordered, items } => typst_list(ordered, items, base, 0),
        ElementV::ThematicBreak => "#line(length: 100%)\n"@,
        ElementV::PageBreak => Seq::empty(),
        ElementV::ColumnLayout(_) => Seq::empty(),
        ElementV::License { .. } => Seq::empty(),
        ElementV::StatBlock(t) => "#stat-block["@ + typst_content(t) + "]\n"@,
        ElementV::BoxedText(t) => "#boxed-text["@ + typst_content(t) + "]\n"@,
        ElementV::Image(im) => typst_image(im, base),
        ElementV::Table(t) => typst_table(t),
        ElementV::Raw(h) => "// Raw HTML: "@ + trim(h) + seq!['\n'],
    }
}

pub open spec fn typst_elements(s: Seq<ElementV>, base: Seq<char>) -> Seq<char>
    decreases s, 0int,
{
    if s.len() == 0 {
        Seq::empty()
    } else {
        typst_elements(s.drop_last(), base) + typst_element(s.last(), base)
    }
}

pub open spec fn indent(depth: nat) -> Seq<char> {
    Seq::new(2 * depth, |i: int| ' ')
}

pub open spec fn list_marker(ordered: bool, i: int) -> Seq<char> {
    if ordered {
        decimal((i + 1) as nat) + ". "@
    } else {
        "- "@
    }
}

/// The trimmed, non-empty renderings of the item's elements other than
/// nested lists.
pub open spec fn text_parts(c: Seq<ElementV>, base: Seq<char>) -> Seq<Seq<char>>
    decreases c, 0int,
{
    if c.len() == 0 {
        Seq::empty()
    } else {
        let rest = text_parts(c.drop_last(), base);
        match c.last() {
            ElementV::List { .. } => rest,
            e => {
                let t = trim(typst_element(e, base));
                if t.len() > 0 {
                    rest.push(t)
                } else {
                    rest
                }
            },
        }
    }
}

/// The nested lists of an item, one level deeper.
pub open spec fn nested_lists(c: Seq<ElementV>, base: Seq<char>, depth: nat) -> Seq<char>
    decreases c, 0int,
{
    if c.len() == 0 {
        Seq::empty()
    } else {
        nested_lists(c.drop_last(), base, depth) + match c.last() {
            ElementV::List { ordered, items } => typst_list(ordered, items, base, depth + 1),
            _ => Seq::empty(),
        }
    }
}

/// Newlines replaced by spaces.
pub open spec fn nl_to_space(s: Seq<char>) -> Seq<char> {
    Seq::new(
        s.len(),
        |i: int|
            if s[i] == '\n' {
                ' '
            } else {
                s[i]
            },
    )
}

pub open spec fn typst_list(ordered: bool, items: Seq<ListItemV>, base: Seq<char>, depth: nat) -> Seq<
    char,
>
    decreases items, 0int,
{
    if items.len() == 0 {
        Seq::empty()
    } else {
        let i = items.len() - 1;
        let item = items.last();
        typst_list(ordered, items.drop_last(), base, depth) + indent(depth) + list_marker(ordered, i)
            + nl_to_space(join(text_parts(item.content, base), seq![' '])) + seq!['\n']
            + nested_lists(item.content, base, depth)
    }
}

pub open spec fn columns_open() -> Seq<char> {
    "#columns(2, gutter: 11pt)[\n"@
}

pub open spec fn columns_close() -> Seq<char> {
    "]\n"@
}

/// The markup of the first `k` elements and whether a two-column block is
/// open after them.
pub open spec fn typst_body(s: Seq<ElementV>, base: Seq<char>, k: int) -> (Seq<char>, bool)
    decreases k,
{
    if k <= 0 || k > s.len() {
        (Seq::empty(), false)
    } else {
        let (out, cols) = typst_body(s, base, k - 1);
        match s[k - 1] {
            ElementV::ColumnLayout(n) => if n == 1 && cols {
                (out + columns_close(), false)
            } else if n == 2 && !cols {
                (out + columns_open(), true)
            } else {
                (out, cols)
            },
            ElementV::PageBreak => if cols {
                (out + columns_close() + "#pagebreak()\n"@ + columns_open(), cols)
            } else {
                (out + "#pagebreak()\n"@, cols)
            },
            ElementV::Heading { level, text } => if level == 1 {
                (
                    out + (if cols {
                        columns_close()
                    } else {
                        Seq::empty()
                    }) + "#align(center)[#text(size: 18pt, weight: \"bold\")["@ + escape_typst_spec(
                        text,
                    ) + "]]\n"@ + (if cols {
                        columns_open()
                    } else {
                        Seq::empty()
                    }),
                    cols,
                )
            } else {
                (
                    out + (if !cols {
                        columns_open()
                    } else {
                        Seq::empty()
                    }) + typst_element(s[k - 1], base) + seq!['\n'],
                    true,
                )
            },
            e => (
                out + (if !cols {
                    columns_open()
                } else {
                    Seq::empty()
                }) + typst_element(e, base) + seq!['\n'],
                true,
            ),
        }
    }
}

/// The whole Typst source for a document.
pub open spec fn typst_document(s: Seq<ElementV>, base: Seq<char>) -> Seq<char> {
    let (out, cols) = typst_body(s, base, s.len() as int);
    TYPST_PREAMBLE@ + out + if cols {
        columns_close()
    } else {
        Seq::empty()
    }
}

/// No image anywhere in the element: not itself, nor inside a block quote or
/// a list item.
pub open spec fn image_free(e: ElementV) -> bool
    decreases e, 0int,
{
    match e {
        ElementV::Image(_) => false,
        ElementV::BlockQuote(v) => all_image_free(v),
        ElementV::List { items, .. } => items_image_free(items),
        _ => true,
    }
}

pub open spec fn all_image_free(s: Seq<ElementV>) -> bool
    decreases s, 0int,
{
    if s.len() == 0 {
        true
    } else {
        all_image_free(s.drop_last()) && image_free(s.last())
    }
}

pub open spec fn items_image_free(items: Seq<ListItemV>) -> bool
    decreases items, 0int,
{
    if items.len() == 0 {
        true
    } else {
        items_image_free(items.drop_last()) && all_image_free(items.last().content)
    }
}

proof fn lemma_image_free_at(s: Seq<ElementV>, i: int)
    requires
        all_image_free(s),
        0 <= i < s.len(),
    ensures
        image_free(s[i]),
    decreases s.len(),
{
    if i < s.len() - 1 {
        lemma_image_free_at(s.drop_last(), i);
        assert(s.drop_last()[i] == s[i]);
    }
}

proof fn lemma_element_base(e: ElementV, b1: Seq<char>, b2: Seq<char>)
    requires
        image_free(e),
    ensures
        typst_element(e, b1) == typst_element(e, b2),
    decreases e, 0int,
{
    match e {
        ElementV::BlockQuote(v) => {
            lemma_elements_base(v, b1, b2);
        },
        ElementV::List { ordered, items } => {
            lemma_list_base(ordered, items, b1, b2, 0);
        },
        _ => {},
    }
}

proof fn lemma_elements_base(s: Seq<ElementV>, b1: Seq<char>, b2: Seq<char>)
    requires
        all_image_free(s),
    ensures
        typst_elements(s, b1) == typst_elements(s, b2),
    decreases s, 0int,
{
    if s.len() > 0 {
        lemma_elements_base(s.drop_last(), b1, b2);
        lemma_element_base(s.last(), b1, b2);
    }
}

proof fn lemma_text_parts_base(c: Seq<ElementV>, b1: Seq<char>, b2: Seq<char>)
    requires
        all_image_free(c),
    ensures
        text_parts(c, b1) == text_parts(c, b2),
    decreases c, 0int,
{
    if c.len() > 0 {
        lemma_text_parts_base(c.drop_last(), b1, b2);
        lemma_element_base(c.last(), b1, b2);
    }
}

proof fn lemma_nested_base(c: Seq<ElementV>, b1: Seq<char>, b2: Seq<char>, depth: nat)
    requires
        all_image_free(c),
    ensures
        nested_lists(c, b1, depth) == nested_lists(c, b2, depth),
    decreases c, 0int,
{
    if c.len() > 0 {
        lemma_nested_base(c.drop_last(), b1, b2, depth);
        assert(image_free(c.last()));
        match c.last() {
            ElementV::List { ordered, items } => {
                lemma_list_base(ordered, items, b1, b2, depth + 1);
            },
            _ => {},
        }
    }
}

proof fn lemma_list_base(
    ordered: bool,
    items: Seq<ListItemV>,
    b1: Seq<char>,
    b2: Seq<char>,
    depth: nat,
)
    requires
        items_image_free(items),
    ensures
        typst_list(ordered, items, b1, depth) == typst_list(ordered, items, b2, depth),
    decreases items, 0int,
{
    if items.len() > 0 {
        lemma_list_base(ordered, items.drop_last(), b1, b2, depth);
        lemma_text_parts_base(items.last().content, b1, b2);
        lemma_nested_base(items.last().content, b1, b2, depth);
    }
}

proof fn lemma_body_base(s: Seq<ElementV>, b1: Seq<char>, b2: Seq<char>, k: int)
    requires
        all_image_free(s),
    ensures
        typst_body(s, b1, k) == typst_body(s, b2, k),
    decreases k,
{
    if 0 < k <= s.len() {
        lemma_body_base(s, b1, b2, k - 1);
        lemma_image_free_at(s, k - 1);
        lemma_element_base(s[k - 1], b1, b2);
    }
}

/// The base path matters only for images: a document with no image anywhere
/// in it, nested ones included, gives the same Typst source whatever base
/// path it is rendered against.
pub proof fn law_typst_base_path_only_matters_for_images(
    s: Seq<ElementV>,
    b1: Seq<char>,
    b2: Seq<char>,
)
    requires
        all_image_free(s),
    ensures
        typst_document(s, b1) == typst_document(s, b2),
{
    lemma_body_base(s, b1, b2, s.len() as int);
}

proof fn lemma_body_step_extends(s: Seq<ElementV>, b: Seq<char>, k: int)
    requires
        0 < k <= s.len(),
    ensures
        typst_body(s, b, k - 1).0.len() <= typst_body(s, b, k).0.len(),
        typst_body(s, b, k).0.take(typst_body(s, b, k - 1).0.len() as int) == typst_body(
            s,
            b,
            k - 1,
        ).0,
{
    let prev = typst_body(s, b, k - 1).0;
    let cur = typst_body(s, b, k).0;
    match s[k - 1] {
        ElementV::ColumnLayout(_) => {
            assert(cur.take(prev.len() as int) =~= prev);
        },
        ElementV::PageBreak => {
            assert(cur.take(prev.len() as int) =~= prev);
        },
        ElementV::Heading { .. } => {
            assert(cur.take(prev.len() as int) =~= prev);
        },
        _ => {
            assert(cur.take(prev.len() as int) =~= prev);
        },
    }
}

proof fn lemma_body_prefix(s: Seq<ElementV>, b: Seq<char>, j: int, k: int)
    requires
        0 <= j <= k <= s.len(),
    ensures
        typst_body(s, b, j).0.len() <= typst_body(s, b, k).0.len(),
        typst_body(s, b, k).0.take(typst_body(s, b, j).0.len() as int) == typst_body(s, b, j).0,
    decreases k - j,
{
    if j < k {
        lemma_body_prefix(s, b, j, k - 1);
        lemma_body_step_extends(s, b, k);
        let a = typst_body(s, b, j).0;
        let m = typst_body(s, b, k - 1).0;
        let c = typst_body(s, b, k).0;
        assert(c.take(a.len() as int) =~= m.take(a.len() as int));
    }
}

proof fn lemma_page_break_piece(s: Seq<ElementV>, b: Seq<char>, k: int)
    requires
        0 <= k < s.len(),
        s[k] == ElementV::PageBreak,
    ensures
        typst_body(s, b, k + 1).1 == typst_body(s, b, k).1,
        typst_body(s, b, k + 1).0 == typst_body(s, b, k).0 + (if typst_body(s, b, k).1 {
            columns_close() + "#pagebreak()\n"@ + columns_open()
        } else {
            "#pagebreak()\n"@
        }),
{
}

proof fn lemma_document_starts_with_body(s: Seq<ElementV>, b: Seq<char>)
    ensures
        typst_document(s, b).len() >= TYPST_PREAMBLE@.len() + typst_body(s, b, s.len() as int).0.len(),
        typst_document(s, b).take(
            (TYPST_PREAMBLE@.len() + typst_body(s, b, s.len() as int).0.len()) as int,
        ) == TYPST_PREAMBLE@ + typst_body(s, b, s.len() as int).0,
{
    let body = typst_body(s, b, s.len() as int).0;
    assert(typst_document(s, b).take((TYPST_PREAMBLE@.len() + body.len()) as int)
        =~= TYPST_PREAMBLE@ + body);
}

/// Every page break of a document shows in its Typst source as a
/// `#pagebreak()` line, whether or not a two-column block is open when it is
/// met: the line lies between the markup of the elements before the break and
/// that of the elements after it, so each page break has a line of its own.
pub proof fn law_typst_page_breaks_kept(s: Seq<ElementV>, b: Seq<char>, k: int)
    requires
        0 <= k < s.len(),
        s[k] == ElementV::PageBreak,
    ensures
        exists|p: int|
            #![trigger typst_document(s, b).subrange(p, p + 13)]
            TYPST_PREAMBLE@.len() + typst_body(s, b, k).0.len() <= p && p + 13
                <= TYPST_PREAMBLE@.len() + typst_body(s, b, k + 1).0.len()
                && typst_document(s, b).subrange(p, p + 13) == "#pagebreak()\n"@,
        typst_body(s, b, k + 1).1 == typst_body(s, b, k).1,
{
    reveal_strlit("#pagebreak()\n");
    reveal_strlit("]\n");
    lemma_page_break_piece(s, b, k);
    lemma_body_prefix(s, b, k + 1, s.len() as int);
    lemma_document_starts_with_body(s, b);
    let pre = TYPST_PREAMBLE@;
    let out = typst_body(s, b, k).0;
    let cols = typst_body(s, b, k).1;
    let full = typst_body(s, b, k + 1).0;
    let body = typst_body(s, b, s.len() as int).0;
    let doc = typst_document(s, b);
    let pb = "#pagebreak()\n"@;
    let off: int = if cols {
        2
    } else {
        0
    };
    assert(columns_close().len() == 2);
    assert(full.subrange(out.len() + off, out.len() + off + 13) =~= pb);
    let head = pre + full;
    assert(head =~= doc.take(head.len() as int)) by {
        assert(body.take(full.len() as int) == full);
        assert(doc.take((pre.len() + body.len()) as int) == pre + body);
    }
    let p = pre.len() + out.len() + off;
    assert(doc.subrange(p, p + 13) =~= full.subrange(out.len() + off, out.len() + off + 13));
}

proof fn lemma_list_prefix(ordered: bool, items: Seq<ListItemV>, b: Seq<char>, depth: nat, j: int)
    requires
        0 <= j <= items.len(),
    ensures
        typst_list(ordered, items.take(j), b, depth).len() <= typst_list(ordered, items, b, depth).len(),
        typst_list(ordered, items, b, depth).take(typst_list(ordered, items.take(j), b, depth).len() as int)
            == typst_list(ordered, items.take(j), b, depth),
    decreases items.len(),
{
    if j < items.len() {
        lemma_list_prefix(ordered, items.drop_last(), b, depth, j);
        assert(items.drop_last().take(j) =~= items.take(j));
        let a = typst_list(ordered, items.take(j), b, depth);
        let m = typst_list(ordered, items.drop_last(), b, depth);
        let c = typst_list(ordered, items, b, depth);
        assert(c.take(m.len() as int) =~= m);
        assert(c.take(a.len() as int) =~= m.take(a.len() as int));
    } else {
        assert(items.take(j) =~= items);
    }
}

/// A top-level numbered list begins with `1. ` and a bullet list with `- `;
/// the item at position `i` of a numbered list is marked with `i + 1`.
pub proof fn law_typst_list_markers_follow_kind(ordered: bool, items: Seq<ListItemV>, b: Seq<char>)
    requires
        items.len() > 0,
    ensures
        ordered ==> typst_list(ordered, items, b, 0).take(3) == "1. "@,
        !ordered ==> typst_list(ordered, items, b, 0).take(2) == "- "@,
        forall|i: int| 0 <= i < 9 ==> #[trigger] list_marker(true, i) == seq![digit_char((i + 1) as nat), '.', ' '],
{
    reveal_strlit("1. ");
    reveal_strlit("- ");
    reveal_strlit(". ");
    lemma_list_prefix(ordered, items, b, 0, 1);
    let first = typst_list(ordered, items.take(1), b, 0);
    assert(items.take(1).drop_last() =~= Seq::<ListItemV>::empty());
    assert(indent(0) =~= Seq::<char>::empty());
    assert(digit_char(1) == '1');
    assert(decimal(1) == seq!['1']);
    let it = items.take(1);
    assert(it.len() == 1);
    assert(typst_list(ordered, it.drop_last(), b, 0) =~= Seq::<char>::empty());
    let rest = nl_to_space(join(text_parts(it.last().content, b), seq![' '])) + seq!['\n']
        + nested_lists(it.last().content, b, 0);
    assert(first =~= Seq::<char>::empty() + indent(0) + list_marker(ordered, 0) + rest);
    if ordered {
        assert(list_marker(true, 0) =~= "1. "@);
        assert(first.take(3) =~= "1. "@);
    } else {
        assert(list_marker(false, 0) =~= "- "@);
        assert(first.take(2) =~= "- "@);
    }
    assert forall|i: int| 0 <= i < 9 implies #[trigger] list_marker(true, i) == seq![
        digit_char((i + 1) as nat),
        '.',
        ' ',
    ] by {
        assert(decimal((i + 1) as nat) == seq![digit_char((i + 1) as nat)]);
        assert(list_marker(true, i) =~= seq![digit_char((i + 1) as nat), '.', ' ']);
    }
}

/// Strong text is set between `*` marks and emphasis between `_` marks, each
/// around the markup of its content, so the two never render alike.
pub proof fn law_typst_strong_and_emphasis_marks(v: Seq<InlineV>)
    ensures
        ({
            let h = typst_inline(InlineV::Strong(v));
            &&& h.len() == typst_inlines(v).len() + 2
            &&& h[0] == '*' && h[h.len() - 1] == '*'
            &&& h.subrange(1, h.len() - 1) == typst_inlines(v)
        }),
        ({
            let h = typst_inline(InlineV::Emphasis(v));
            &&& h.len() == typst_inlines(v).len() + 2
            &&& h[0] == '_' && h[h.len() - 1] == '_'
            &&& h.subrange(1, h.len() - 1) == typst_inlines(v)
        }),
        typst_inline(InlineV::Strong(v)) != typst_inline(InlineV::Emphasis(v)),
{
    let hs = typst_inline(InlineV::Strong(v));
    let he = typst_inline(InlineV::Emphasis(v));
    assert(hs.subrange(1, hs.len() - 1) =~= typst_inlines(v));
    assert(he.subrange(1, he.len() - 1) =~= typst_inlines(v));
    assert(hs[0] != he[0]);
}

// ---------------------------------------------------------------------------
// Implementation
// ---------------------------------------------------------------------------

proof fn lemma_take_last<A>(s: Seq<A>, k: int)
    requires
        0 <= k < s.len(),
    ensures
        s.take(k + 1).drop_last() == s.take(k),
        s.take(k + 1).last() == s[k],
        s.take(k + 1).len() == k + 1,
{
    assert(s.take(k + 1).drop_last() =~= s.take(k));
}

fn push_typst_char(out: &mut String, c: char, minimal: bool)
    ensures
        final(out)@ == old(out)@ + bs_char(c, minimal),
{
    let special = c == '\\' || c == '#' || c == '$' || c == '@' || c == '<' || c == '>' || c == '['
        || c == ']';
    if special || (!minimal && (c == '*' || c == '_')) {
        push_char(out, '\\');
    }
    push_char(out, c);
    assert(out@ =~= old(out)@ + bs_char(c, minimal));
}

fn push_backslash_escaped(out: &mut String, v: &Vec<char>, minimal: bool)
    ensures
        final(out)@ == old(out)@ + backslash_escape(v@, minimal),
{
    let mut i: usize = 0;
    while i < v.len()
        invariant
            0 <= i <= v.len(),
            out@ == old(out)@ + backslash_escape(v@.take(i as int), minimal),
        decreases v.len() - i,
    {
        proof {
            lemma_take_last(v@, i as int);
        }
        push_typst_char(out, v[i], minimal);
        i += 1;
        assert(out@ =~= old(out)@ + backslash_escape(v@.take(i as int), minimal));
    }
    assert(v@.take(i as int) =~= v@);
}

pub fn escape_typst(text: &str) -> (r: String)
    ensures
        r@ == escape_typst_spec(text@),
{
    let mut out = String::new();
    push_backslash_escaped(&mut out, &chars_of(text), false);
    assert(out@ =~= escape_typst_spec(text@));
    out
}

/// Escape Typst special chars but NOT * and _ (for use inside already-converted formatting)
pub fn escape_typst_minimal(text: &str) -> (r: String)
    ensures
        r@ == escape_typst_minimal_spec(text@),
{
    let mut out = String::new();
    push_backslash_escaped(&mut out, &chars_of(text), true);
    assert(out@ =~= escape_typst_minimal_spec(text@));
    out
}

pub fn find_closing_double_star(chars: &Vec<char>, start: usize) -> (r: Option<usize>)
    ensures
        r matches Some(k) ==> closing_double_from(chars@, start as int) == Some(k as int),
        r is None ==> closing_double_from(chars@, start as int) is None,
{
    let mut i = start;
    while i < chars.len() && i + 1 < chars.len()
        invariant
            start <= i,
            closing_double_from(chars@, start as int) == closing_double_from(chars@, i as int),
        decreases chars.len() - i,
    {
        if chars[i] == '*' && chars[i + 1] == '*' {
            return Some(i);
        }
        i += 1;
    }
    None
}

pub fn find_closing_single_star(chars: &Vec<char>, start: usize) -> (r: Option<usize>)
    ensures
        r matches Some(k) ==> closing_single_from(chars@, start as int) == Some(k as int),
        r is None ==> closing_single_from(chars@, start as int) is None,
{
    let mut i = start;
    while i < chars.len()
        invariant
            start <= i,
            closing_single_from(chars@, start as int) == closing_single_from(chars@, i as int),
        decreases chars.len() - i,
    {
        if chars[i] == '*' && (i + 1 >= chars.len() || chars[i + 1] != '*') {
            return Some(i);
        }
        i += 1;
    }
    None
}

proof fn lemma_closing_double_bounds(cs: Seq<char>, i: int)
    requires
        0 <= i,
    ensures
        closing_double_from(cs, i) matches Some(k) ==> i <= k && k + 1 < cs.len(),
    decreases cs.len() - i,
{
    if i + 1 < cs.len() && !(cs[i] == '*' && cs[i + 1] == '*') {
        lemma_closing_double_bounds(cs, i + 1);
    }
}

proof fn lemma_closing_single_bounds(cs: Seq<char>, i: int)
    requires
        0 <= i,
    ensures
        closing_single_from(cs, i) matches Some(k) ==> i <= k < cs.len(),
    decreases cs.len() - i,
{
    if i < cs.len() && !(cs[i] == '*' && (i + 1 >= cs.len() || cs[i + 1] != '*')) {
        lemma_closing_single_bounds(cs, i + 1);
    }
}

/// Convert markdown bold/italic to Typst formatting
pub fn convert_markdown_formatting(chars: &Vec<char>) -> (r: String)
    ensures
        r@ == md_fmt_from(chars@, 0),
{
    let mut result = String::new();
    let mut i: usize = 0;
    while i < chars.len()
        invariant
            0 <= i <= chars.len(),
            result@ + md_fmt_from(chars@, i as int) == md_fmt_from(chars@, 0),
        decreases chars.len() - i,
    {
        let ghost prev = result@;
        // Check for ** (bold)
        if i + 1 < chars.len() && chars[i] == '*' && chars[i + 1] == '*' {
            proof {
                lemma_closing_double_bounds(chars@, i + 2);
            }
            if let Some(end) = find_closing_double_star(chars, i + 2) {
                push_char(&mut result, '*');
                let inner = slice_chars(chars, i + 2, end);
                push_backslash_escaped(&mut result, &inner, true);
                push_char(&mut result, '*');
                assert(result@ + md_fmt_from(chars@, end + 2) =~= prev + md_fmt_from(
                    chars@,
                    i as int,
                ));
                i = end + 2;
                continue;
            }
        }
        // Check for single * (italic) - but not if it's part of **

        if chars[i] == '*' && (i == 0 || chars[i - 1] != '*') && (i + 1 >= chars.len() || chars[i
            + 1] != '*') {
            proof {
                lemma_closing_single_bounds(chars@, i + 1);
            }
            if let Some(end) = find_closing_single_star(chars, i + 1) {
                push_char(&mut result, '_');
                let inner = slice_chars(chars, i + 1, end);
                push_backslash_escaped(&mut result, &inner, true);
                push_char(&mut result, '_');
                assert(result@ + md_fmt_from(chars@, end + 1) =~= prev + md_fmt_from(
                    chars@,
                    i as int,
                ));
                i = end + 1;
                continue;
            }
        }
        // Escape special Typst characters

        push_typst_char(&mut result, chars[i], true);
        assert(result@ + md_fmt_from(chars@, i + 1) =~= prev + md_fmt_from(chars@, i as int));
        i += 1;
    }
    assert(result@ =~= result@ + md_fmt_from(chars@, i as int));
    result
}

fn push_bold_heading(out: &mut String, h: &Vec<char>)
    ensures
        final(out)@ == old(out)@ + seq!['*'] + escape_typst_minimal_spec(h@) + seq!['*'] + "\\\n"@,
{
    push_char(out, '*');
    push_backslash_escaped(out, h, true);
    push_char(out, '*');
    push_str(out, "\\\n");
    assert(out@ =~= old(out)@ + seq!['*'] + escape_typst_minimal_spec(h@) + seq!['*'] + "\\\n"@);
}

fn push_content_line(out: &mut String, line: &Vec<char>)
    ensures
        final(out)@ == old(out)@ + typst_content_line(line@),
{
    let trimmed = trim_start_chars(line);
    if let Some(h) = strip_prefix_exec(&trimmed, "#### ") {
        push_bold_heading(out, &h);
    } else if let Some(h) = strip_prefix_exec(&trimmed, "### ") {
        push_bold_heading(out, &h);
    } else if let Some(h) = strip_prefix_exec(&trimmed, "## ") {
        push_bold_heading(out, &h);
    } else {
        let converted = convert_markdown_formatting(line);
        push_str(out, converted.as_str());
        push_str(out, "\\\n");
    }
}

/// Convert markdown content to Typst, handling bold, italic, and headings
pub fn convert_markdown_to_typst_content(text: &str) -> (r: String)
    ensures
        r@ == typst_content(text@),
{
    let ls = lines_exec(&chars_of(text));
    let ghost lv = seqs_of(ls@);
    let mut result = String::new();
    let mut j: usize = 0;
    while j < ls.len()
        invariant
            0 <= j <= ls.len(),
            lv == seqs_of(ls@),
            lv == lines(text@),
            result@ == typst_content_lines(lv.take(j as int)),
        decreases ls.len() - j,
    {
        proof {
            lemma_take_last(lv, j as int);
        }
        assert(lv[j as int] == ls@[j as int]@);
        push_content_line(&mut result, &ls[j]);
        j += 1;
    }
    assert(lv.take(j as int) =~= lv);
    // Remove trailing line break
    let rc = chars_of(result.as_str());
    let n = rc.len();
    if n >= 2 && rc[n - 2] == '\\' && rc[n - 1] == '\n' {
        let t = slice_chars(&rc, 0, n - 2);
        return crate::text::string_of(t.as_slice());
    }
    result
}

fn render_inlines(inlines: &Vec<Inline>) -> (r: String)
    ensures
        r@ == typst_inlines(inlines_v(inlines@)),
    decreases inlines,
{
    let ghost sv = inlines_v(inlines@);
    let mut output = String::new();
    let mut k: usize = 0;
    while k < inlines.len()
        invariant
            0 <= k <= inlines.len(),
            sv == inlines_v(inlines@),
            output@ == typst_inlines(sv.take(k as int)),
        decreases inlines.len() - k,
    {
        let ghost prev = output@;
        proof {
            lemma_take_last(sv, k as int);
            lemma_inline_v_unfold(inlines@[k as int]);
        }
        match &inlines[k] {
            Inline::Text(text) => {
                push_backslash_escaped(&mut output, &chars_of(text.as_str()), false);
            },
            Inline::Emphasis(inner) => {
                push_char(&mut output, '_');
                let r = render_inlines(inner);
                push_str(&mut output, r.as_str());
                push_char(&mut output, '_');
            },
            Inline::Strong(inner) => {
                push_char(&mut output, '*');
                let r = render_inlines(inner);
                push_str(&mut output, r.as_str());
                push_char(&mut output, '*');
            },
            Inline::Code(code) => {
                push_char(&mut output, '`');
                push_str(&mut output, code.as_str());
                push_char(&mut output, '`');
            },
            Inline::Link { text, url } => {
                let text_str = render_inlines(text);
                push_str(&mut output, "#link(\"");
                push_str(&mut output, url.as_str());
                push_str(&mut output, "\")[");
                push_str(&mut output, text_str.as_str());
                push_str(&mut output, "]");
            },
            Inline::Image(image) => {
                // Inline images - just use the path for now
                push_str(&mut output, "#image(\"");
                push_str(&mut output, image.path.as_str());
                push_str(&mut output, "\")");
            },
            Inline::SoftBreak => push_char(&mut output, ' '),
            Inline::HardBreak => push_str(&mut output, "\\\n"),
        }
        assert(output@ =~= prev + typst_inline(sv[k as int]));
        k += 1;
    }
    assert(sv.take(k as int) =~= sv);
    output
}

fn render_image(image: &Image, base_path: &str) -> (r: String)
    ensures
        r@ == typst_image(image_v(*image), base_path@),
{
    let path = if is_absolute_path(image.path.as_str()) {
        crate::text::string_of(chars_of(image.path.as_str()).as_slice())
    } else {
        join_path(base_path, image.path.as_str())
    };
    let mut out = String::new();
    push_str(&mut out, "#image(\"");
    push_str(&mut out, path.as_str());
    push_char(&mut out, '"');
    match &image.width {
        Some(w) => {
            push_str(&mut out, ", width: ");
            push_str(&mut out, w.as_str());
        },
        None => {},
    }
    push_str(&mut out, ")\n");
    assert(out@ =~= typst_image(image_v(*image), base_path@));
    out
}

fn push_align_word(out: &mut String, a: Alignment)
    ensures
        final(out)@ == old(out)@ + align_word(a),
{
    match a {
        Alignment::Left => push_str(out, "left"),
        Alignment::Center => push_str(out, "center"),
        Alignment::Right => push_str(out, "right"),
        Alignment::Unset => push_str(out, "auto"),
    }
}

proof fn lemma_join_step(s: Seq<Seq<char>>, sep: Seq<char>, k: int)
    requires
        0 <= k < s.len(),
    ensures
        join(s.take(k + 1), sep) == if k == 0 {
            s[0]
        } else {
            join(s.take(k), sep) + sep + s[k]
        },
{
    lemma_take_last(s, k);
    if k == 0 {
        assert(s.take(1)[0] == s[0]);
    }
}

fn render_table(table: &Table) -> (r: String)
    ensures
        r@ == typst_table(table_v(*table)),
{
    let ghost tv = table_v(*table);
    let mut output = String::new();
    push_str(&mut output, "#table(\n  columns: ");
    push_decimal(&mut output, table.headers.len());
    push_str(&mut output, ",\n  inset: 6pt,\n");
    // Add alignment
    push_str(&mut output, "  align: (");
    let ghost h1 = output@;
    let ghost aw = align_words(tv.alignments);
    let mut i: usize = 0;
    while i < table.alignments.len()
        invariant
            0 <= i <= table.alignments.len(),
            tv == table_v(*table),
            aw == align_words(tv.alignments),
            output@ == h1 + join(aw.take(i as int), ", "@),
        decreases table.alignments.len() - i,
    {
        proof {
            lemma_join_step(aw, ", "@, i as int);
        }
        if i > 0 {
            push_str(&mut output, ", ");
        }
        push_align_word(&mut output, table.alignments[i]);
        assert(output@ =~= h1 + join(aw.take(i + 1), ", "@));
        i += 1;
    }
    assert(aw.take(i as int) =~= aw);
    push_str(&mut output, "),\n");
    // Headers - all in one table.header call
    push_str(&mut output, "  table.header(");
    let ghost h2 = output@;
    let ghost hc = header_cells(tv.headers);
    let mut i: usize = 0;
    while i < table.headers.len()
        invariant
            0 <= i <= table.headers.len(),
            tv == table_v(*table),
            hc == header_cells(tv.headers),
            output@ == h2 + join(hc.take(i as int), ", "@),
        decreases table.headers.len() - i,
    {
        proof {
            lemma_join_step(hc, ", "@, i as int);
        }
        if i > 0 {
            push_str(&mut output, ", ");
        }
        push_str(&mut output, "[*");
        push_backslash_escaped(&mut output, &chars_of(table.headers[i].as_str()), false);
        push_str(&mut output, "*]");
        assert(output@ =~= h2 + join(hc.take(i + 1), ", "@));
        i += 1;
    }
    assert(hc.take(i as int) =~= hc);
    push_str(&mut output, "),\n");
    // Rows
    let ghost h3 = output@;
    let mut r: usize = 0;
    while r < table.rows.len()
        invariant
            0 <= r <= table.rows.len(),
            tv == table_v(*table),
            output@ == h3 + typst_rows(tv.rows.take(r as int)),
        decreases table.rows.len() - r,
    {
        proof {
            lemma_take_last(tv.rows, r as int);
        }
        let row = &table.rows[r];
        let ghost rv = tv.rows[r as int];
        let ghost h4 = output@;
        let mut c: usize = 0;
        while c < row.len()
            invariant
                0 <= c <= row.len(),
                rv == strings_v(row@),
                output@ == h4 + typst_row(rv.take(c as int)),
            decreases row.len() - c,
        {
            proof {
                lemma_take_last(rv, c as int);
            }
            push_str(&mut output, "  [");
            push_backslash_escaped(&mut output, &chars_of(row[c].as_str()), false);
            push_str(&mut output, "],\n");
            assert(output@ =~= h4 + typst_row(rv.take(c + 1)));
            c += 1;
        }
        assert(rv.take(c as int) =~= rv);
        assert(output@ =~= h3 + typst_rows(tv.rows.take(r + 1)));
        r += 1;
    }
    assert(tv.rows.take(r as int) =~= tv.rows);
    push_str(&mut output, ")\n");
    assert(output@ =~= typst_table(tv));
    output
}

fn push_repeated(out: &mut String, c: char, n: usize)
    ensures
        final(out)@ == old(out)@ + Seq::new(n as nat, |i: int| c),
{
    let mut i: usize = 0;
    while i < n
        invariant
            0 <= i <= n,
            out@ == old(out)@ + Seq::new(i as nat, |k: int| c),
        decreases n - i,
    {
        push_char(out, c);
        i += 1;
        assert(out@ =~= old(out)@ + Seq::new(i as nat, |k: int| c));
    }
}

fn nl_to_space_exec(v: &Vec<char>) -> (r: Vec<char>)
    ensures
        r@ == nl_to_space(v@),
{
    let mut out: Vec<char> = Vec::new();
    let mut i: usize = 0;
    while i < v.len()
        invariant
            0 <= i <= v.len(),
            out@ == nl_to_space(v@).take(i as int),
        decreases v.len() - i,
    {
        if v[i] == '\n' {
            out.push(' ');
        } else {
            out.push(v[i]);
        }
        i += 1;
        assert(out@ =~= nl_to_space(v@).take(i as int));
    }
    assert(nl_to_space(v@).take(i as int) =~= nl_to_space(v@));
    out
}

fn render_list(
    ordered: bool,
    items: &Vec<ListItem>,
    base_path: &str,
    ind: &Vec<char>,
    Ghost(depth): Ghost<nat>,
) -> (r: String)
    requires
        ind@ == indent(depth),
    ensures
        r@ == typst_list(ordered, items_v(items@), base_path@, depth),
    decreases items,
{
    let ghost iv = items_v(items@);
    let mut output = String::new();
    let mut k: usize = 0;
    while k < items.len()
        invariant
            0 <= k <= items.len(),
            ind@ == indent(depth),
            iv == items_v(items@),
            output@ == typst_list(ordered, iv.take(k as int), base_path@, depth),
        decreases items.len() - k,
    {
        proof {
            lemma_take_last(iv, k as int);
        }
        let item = &items[k];
        let ghost cv = iv[k as int].content;
        assert(cv == crate::ast::elements_v(item.content@));
        let mut parts: Vec<Vec<char>> = Vec::new();
        let mut nested = String::new();
        let mut j: usize = 0;
        while j < item.content.len()
            invariant
                0 <= j <= item.content.len(),
                k < items.len(),
                *item == items@[k as int],
                ind@ == indent(depth),
                cv == crate::ast::elements_v(item.content@),
                seqs_of(parts@) == text_parts(cv.take(j as int), base_path@),
                nested@ == nested_lists(cv.take(j as int), base_path@, depth),
            decreases item.content.len() - j,
        {
            proof {
                lemma_take_last(cv, j as int);
                lemma_element_v_unfold(item.content@[j as int]);
                assert(decreases_to!(*items => items@));
                assert(decreases_to!(items@ => items@[k as int]));
                assert(decreases_to!(items@[k as int] => items@[k as int].content));
                assert(decreases_to!(item.content => item.content@));
                assert(decreases_to!(item.content@ => item.content@[j as int]));
            }
            let element = &item.content[j];
            let ghost before = parts@;
            match element {
                Element::List { ordered: nested_ordered, items: nested_items } => {
                    proof {
                        assert(decreases_to!(*element => *nested_items));
                    }
                    let mut deeper = crate::text::slice_chars(ind, 0, ind.len());
                    deeper.push(' ');
                    deeper.push(' ');
                    assert(deeper@ =~= indent(depth + 1));
                    let r = render_list(
                        *nested_ordered,
                        nested_items,
                        base_path,
                        &deeper,
                        Ghost(depth + 1),
                    );
                    push_str(&mut nested, r.as_str());
                },
                _ => {
                    let rendered = render_element(element, base_path);
                    let trimmed = trim_chars(&chars_of(rendered.as_str()));
                    if trimmed.len() > 0 {
                        parts.push(trimmed);
                        assert(seqs_of(parts@) =~= seqs_of(before).push(trimmed@));
                    }
                },
            }
            assert(seqs_of(parts@) =~= text_parts(cv.take(j + 1), base_path@));
            assert(nested@ =~= nested_lists(cv.take(j + 1), base_path@, depth));
            j += 1;
        }
        assert(cv.take(j as int) =~= cv);
        push_chars(&mut output, ind);
        if ordered {
            push_decimal(&mut output, k + 1);
            push_str(&mut output, ". ");
        } else {
            push_str(&mut output, "- ");
        }
        let joined = join_chars(&parts, ' ');
        let text_content = nl_to_space_exec(&joined);
        push_chars(&mut output, &text_content);
        push_char(&mut output, '\n');
        push_str(&mut output, nested.as_str());
        assert(output@ =~= typst_list(ordered, iv.take(k + 1), base_path@, depth));
        k += 1;
    }
    assert(iv.take(k as int) =~= iv);
    output
}

fn quote_content(content: &String) -> (r: String)
    ensures
        r@ == join(quote_lines(lines(content@)), seq!['\n']),
{
    let ls = lines_exec(&chars_of(content.as_str()));
    let ghost lv = seqs_of(ls@);
    let ghost q = quote_lines(lv);
    let mut out = String::new();
    let mut i: usize = 0;
    while i < ls.len()
        invariant
            0 <= i <= ls.len(),
            lv == seqs_of(ls@),
            lv == lines(content@),
            q == quote_lines(lv),
            out@ == join(q.take(i as int), seq!['\n']),
        decreases ls.len() - i,
    {
        proof {
            lemma_join_step(q, seq!['\n'], i as int);
        }
        if i > 0 {
            push_char(&mut out, '\n');
        }
        push_str(&mut out, "> ");
        push_chars(&mut out, &ls[i]);
        assert(q[i as int] == "> "@ + ls@[i as int]@);
        assert(out@ =~= join(q.take(i + 1), seq!['\n']));
        i += 1;
    }
    assert(q.take(i as int) =~= q);
    out
}

pub fn render_element(element: &Element, base_path: &str) -> (r: String)
    ensures
        r@ == typst_element(element_v(*element), base_path@),
    decreases element,
{
    let mut out = String::new();
    proof {
        lemma_element_v_unfold(*element);
    }
    match element {
        Element::Heading { level, text } => {
            push_repeated(&mut out, '=', *level as usize);
            push_char(&mut out, ' ');
            push_backslash_escaped(&mut out, &chars_of(text.as_str()), false);
            push_char(&mut out, '\n');
        },
        Element::Paragraph(inlines) => {
            let content = render_inlines(inlines);
            push_str(&mut out, content.as_str());
            push_char(&mut out, '\n');
        },
        Element::CodeBlock { language, code } => {
            push_str(&mut out, "```");
            match language {
                Some(l) => push_str(&mut out, l.as_str()),
                None => {},
            }
            push_char(&mut out, '\n');
            push_str(&mut out, code.as_str());
            push_str(&mut out, "```\n");
        },
        Element::BlockQuote(elements) => {
            let ghost ev = crate::ast::elements_v(elements@);
            let mut content = String::new();
            let mut k: usize = 0;
            while k < elements.len()
                invariant
                    0 <= k <= elements.len(),
                    *element == Element::BlockQuote(*elements),
                    ev == crate::ast::elements_v(elements@),
                    content@ == typst_elements(ev.take(k as int), base_path@),
                decreases elements.len() - k,
            {
                proof {
                    lemma_take_last(ev, k as int);
                    assert(decreases_to!(*element => (*element)->BlockQuote_0));
                    assert(decreases_to!(*elements => elements@));
                    assert(decreases_to!(elements@ => elements@[k as int]));
                }
                let r = render_element(&elements[k], base_path);
                push_str(&mut content, r.as_str());
                assert(content@ =~= typst_elements(ev.take(k + 1), base_path@));
                k += 1;
            }
            assert(ev.take(k as int) =~= ev);
            let quoted = quote_content(&content);
            push_str(&mut out, "#quote[");
            push_str(&mut out, quoted.as_str());
            push_str(&mut out, "]\n");
        },
        Element::List { ordered, items } => {
            let ind: Vec<char> = Vec::new();
            assert(ind@ =~= indent(0));
            let r = render_list(*ordered, items, base_path, &ind, Ghost(0));
            push_str(&mut out, r.as_str());
        },
        Element::ThematicBreak => push_str(&mut out, "#line(length: 100%)\n"),
        Element::PageBreak => {},
        Element::ColumnLayout(_) => {},
        Element::License { .. } => {},
        Element::StatBlock(text) => {
            push_str(&mut out, "#stat-block[");
            let c = convert_markdown_to_typst_content(text.as_str());
            push_str(&mut out, c.as_str());
            push_str(&mut out, "]\n");
        },
        Element::BoxedText(text) => {
            push_str(&mut out, "#boxed-text[");
            let c = convert_markdown_to_typst_content(text.as_str());
            push_str(&mut out, c.as_str());
            push_str(&mut out, "]\n");
        },
        Element::Image(image) => {
            let r = render_image(image, base_path);
            push_str(&mut out, r.as_str());
        },
        Element::Table(table) => {
            let r = render_table(table);
            push_str(&mut out, r.as_str());
        },
        Element::Raw(html) => {
            push_str(&mut out, "// Raw HTML: ");
            let t = trim_chars(&chars_of(html.as_str()));
            push_chars(&mut out, &t);
            push_char(&mut out, '\n');
        },
    }
    assert(out@ =~= typst_element(element_v(*element), base_path@));
    out
}

pub fn generate_preamble() -> (r: String)
    ensures
        r@ == TYPST_PREAMBLE@,
{
    let mut out = String::new();
    push_str(&mut out, TYPST_PREAMBLE);
    assert(out@ =~= TYPST_PREAMBLE@);
    out
}

/// Render a document AST to Typst markup
pub fn render_to_typst(document: &Document, base_path: &str) -> (r: String)
    ensures
        r@ == typst_document(document@, base_path@),
{
    let ghost dv = document@;
    let mut output = String::new();
    let mut in_columns = false;
    // Document preamble with page setup
    let pre = generate_preamble();
    push_str(&mut output, pre.as_str());
    let start_cols = "#columns(2, gutter: 11pt)[\n";
    let end_cols = "]\n";
    let ghost head = output@;
    let mut k: usize = 0;
    while k < document.elements.len()
        invariant
            0 <= k <= document.elements.len(),
            dv == document@,
            dv == crate::ast::elements_v(document.elements@),
            start_cols@ == columns_open(),
            end_cols@ == columns_close(),
            output@ == head + typst_body(dv, base_path@, k as int).0,
            in_columns == typst_body(dv, base_path@, k as int).1,
        decreases document.elements.len() - k,
    {
        let element = &document.elements[k];
        assert(dv[k as int] == element_v(*element));
        let ghost prev = output@;
        match element {
            Element::ColumnLayout(cols) => {
                if *cols == 1 && in_columns {
                    // Close columns for single-column mode
                    push_str(&mut output, end_cols);
                    in_columns = false;
                } else if *cols == 2 && !in_columns {
                    // Start columns
                    push_str(&mut output, start_cols);
                    in_columns = true;
                }
            },
            Element::PageBreak => {
                if in_columns {
                    push_str(&mut output, end_cols);
                    push_str(&mut output, "#pagebreak()\n");
                    push_str(&mut output, start_cols);
                } else {
                    push_str(&mut output, "#pagebreak()\n");
                }
            },
            Element::Heading { level, text } if *level == 1 => {
                // H1: close columns, render centered, reopen
                if in_columns {
                    push_str(&mut output, end_cols);
                }
                push_str(&mut output, "#align(center)[#text(size: 18pt, weight: \"bold\")[");
                push_backslash_escaped(&mut output, &chars_of(text.as_str()), false);
                push_str(&mut output, "]]\n");
                if in_columns {
                    push_str(&mut output, start_cols);
                }
            },
            _ => {
                // Auto-start columns for content if not already in columns
                if !in_columns {
                    push_str(&mut output, start_cols);
                    in_columns = true;
                }
                let r = render_element(element, base_path);
                push_str(&mut output, r.as_str());
                push_char(&mut output, '\n');
            },
        }
        assert(output@ =~= head + typst_body(dv, base_path@, k + 1).0);
        k += 1;
    }
    // Close any open columns
    if in_columns {
        push_str(&mut output, end_cols);
    }
    assert(output@ =~= typst_document(dv, base_path@));
    output
}


/// A compiler diagnostic as plain values: whether it is an error, and its
/// message.
pub struct Diagnostic {
    pub is_error: bool,
    pub message: String,
}

/// The messages of the error diagnostics among `ds`, in order.
pub open spec fn error_messages(ds: Seq<Diagnostic>) -> Seq<Seq<char>>
    decreases ds.len(),
{
    if ds.len() == 0 {
        Seq::empty()
    } else if ds.last().is_error {
        error_messages(ds.drop_last()).push(ds.last().message@)
    } else {
        error_messages(ds.drop_last())
    }
}

/// The messages of the error diagnostics, joined with `; `; warnings are
/// left out.
pub fn format_errors(errors: &Vec<Diagnostic>) -> (r: String)
    ensures
        r@ == join(error_messages(errors@), "; "@),
{
    let mut out = String::new();
    let mut first = true;
    let mut k: usize = 0;
    while k < errors.len()
        invariant
            0 <= k <= errors.len(),
            out@ == join(error_messages(errors@.take(k as int)), "; "@),
            first == (error_messages(errors@.take(k as int)).len() == 0),
        decreases errors.len() - k,
    {
        proof {
            lemma_take_last(errors@, k as int);
        }
        let ghost prev = error_messages(errors@.take(k as int));
        if errors[k].is_error {
            if !first {
                push_str(&mut out, "; ");
            }
            push_str(&mut out, errors[k].message.as_str());
            proof {
                let now = error_messages(errors@.take(k + 1));
                assert(now == prev.push(errors@[k as int].message@));
                assert(now.drop_last() =~= prev);
                if first {
                    assert(out@ =~= errors@[k as int].message@);
                }
            }
            first = false;
        }
        k += 1;
    }
    assert(errors@.take(k as int) =~= errors@);
    out
}

} // verus!

