//! The content decisions of the paginated PDF renderer: how stat-block and
//! boxed text breaks into paragraphs, sub-headings and bullets, where bold,
//! italic and code runs lie in a paragraph's text, and which marker a list
//! item gets. Geometry and drawing are the layout engine's.
//!
//! Positions in spans count characters of the span's text.

use vstd::prelude::*;

use crate::ast::{
    element_v, inlines_v, table_v, lemma_inline_v_unfold, Element, ElementV, Inline, InlineV,
    info_v, LicenseInfo, LicenseInfoV, LicenseKind, Table, TableV,
};
use crate::licenses::{
    body_fragments, body_text, fragment_v, fragments, fragments_v, short_name, short_name_text,
    title, title_text, url, url_text, FragmentV, LicenseFragment,
};
use crate::parser::extensions::{strip_prefix_exec};
use crate::renderer::html_text::{
    bullet_of, fds_from, find_double_star, find_single_star, fss_from, heading_of, join_chars,
    lemma_fds_bounds, lemma_fss_bounds, lone_star, typography, typography_chars,
};
use crate::text::{
    chars_of, decimal, join, lines, lines_exec, push_decimal, push_str, seqs_of, slice_chars,
    split, split_exec, string_of, trim, trim_chars,
};

verus! {

// ---------------------------------------------------------------------------
// Stat-block and boxed text
// ---------------------------------------------------------------------------

/// One piece of stat-block or boxed text.
#[derive(Debug)]
pub enum BoxItem {
    Paragraph(String),
    Heading(String),
    Bullet(String),
}

#[verifier::ext_equal]
pub enum BoxItemV {
    Paragraph(Seq<char>),
    Heading(Seq<char>),
    Bullet(Seq<char>),
}

pub open spec fn box_item_v(b: BoxItem) -> BoxItemV {
    match b {
        BoxItem::Paragraph(t) => BoxItemV::Paragraph(t@),
        BoxItem::Heading(t) => BoxItemV::Heading(t@),
        BoxItem::Bullet(t) => BoxItemV::Bullet(t@),
    }
}

pub open spec fn box_items_v(s: Seq<BoxItem>) -> Seq<BoxItemV> {
    Seq::new(s.len(), |i: int| box_item_v(s[i]))
}

/// The items found so far, and the lines of the chunk being read.
#[verifier::ext_equal]
pub struct BoxState {
    pub items: Seq<BoxItemV>,
    pub para: Seq<Seq<char>>,
    pub bullets: Seq<Seq<char>>,
    pub in_bullets: bool,
}

/// Pending paragraph lines become one paragraph, joined with spaces.
pub open spec fn box_flush_para(st: BoxState) -> BoxState {
    if st.para.len() > 0 {
        BoxState {
            items: st.items.push(BoxItemV::Paragraph(join(st.para, seq![' ']))),
            para: Seq::empty(),
            ..st
        }
    } else {
        st
    }
}

/// Pending bullets become bullet items, in order.
pub open spec fn box_flush_bullets(st: BoxState) -> BoxState {
    BoxState {
        items: st.items + Seq::new(st.bullets.len(), |i: int| BoxItemV::Bullet(st.bullets[i])),
        bullets: Seq::empty(),
        ..st
    }
}

/// Reading one line of a chunk: a bullet (`- `, `* `), a sub-heading
/// (`#### `, `### `), a continuation of the last bullet, or paragraph text.
pub open spec fn box_line(st: BoxState, raw: Seq<char>) -> BoxState {
    let line = trim(raw);
    match bullet_of(line) {
        Some(item) => {
            let f = box_flush_para(st);
            BoxState { in_bullets: true, bullets: f.bullets.push(item), ..f }
        },
        None => match heading_of(line) {
            Some(h) => {
                let f = box_flush_bullets(box_flush_para(st));
                BoxState { items: f.items.push(BoxItemV::Heading(h)), in_bullets: false, ..f }
            },
            None => if st.in_bullets {
                if st.bullets.len() > 0 {
                    BoxState {
                        bullets: st.bullets.update(
                            st.bullets.len() - 1,
                            st.bullets.last() + seq![' '] + line,
                        ),
                        ..st
                    }
                } else {
                    st
                }
            } else {
                BoxState { para: st.para.push(line), ..st }
            },
        },
    }
}

/// The state after the first `k` lines of `ls`, starting from `items`.
pub open spec fn box_fold(items: Seq<BoxItemV>, ls: Seq<Seq<char>>, k: int) -> BoxState
    decreases k,
{
    if k <= 0 || k > ls.len() {
        BoxState { items, para: Seq::empty(), bullets: Seq::empty(), in_bullets: false }
    } else {
        box_line(box_fold(items, ls, k - 1), ls[k - 1])
    }
}

/// `items` followed by the items of one blank-line-separated chunk.
pub open spec fn box_chunk(items: Seq<BoxItemV>, chunk: Seq<char>) -> Seq<BoxItemV> {
    let c = trim(chunk);
    if c.len() == 0 {
        items
    } else {
        let ls = lines(c);
        box_flush_bullets(box_flush_para(box_fold(items, ls, ls.len() as int))).items
    }
}

/// The items of the first `k` chunks.
pub open spec fn box_chunks(chunks: Seq<Seq<char>>, k: int) -> Seq<BoxItemV>
    decreases k,
{
    if k <= 0 || k > chunks.len() {
        Seq::empty()
    } else {
        box_chunk(box_chunks(chunks, k - 1), chunks[k - 1])
    }
}

/// The items of stat-block or boxed text: chunks split at blank lines;
/// within a chunk, lines joined into paragraphs, `### `/`#### ` lines as
/// sub-headings, `- `/`* ` lines as bullets that later plain lines continue.
pub open spec fn box_content(content: Seq<char>) -> Seq<BoxItemV> {
    let chunks = split(trim(content), "\n\n"@);
    box_chunks(chunks, chunks.len() as int)
}

pub open spec fn box_view(
    items: Seq<BoxItem>,
    para: Seq<Vec<char>>,
    bullets: Seq<Vec<char>>,
    in_bullets: bool,
) -> BoxState {
    BoxState { items: box_items_v(items), para: seqs_of(para), bullets: seqs_of(bullets), in_bullets }
}

fn box_push(items: &mut Vec<BoxItem>, b: BoxItem)
    ensures
        box_items_v(final(items)@) == box_items_v(old(items)@).push(box_item_v(b)),
{
    items.push(b);
    assert(box_items_v(items@) =~= box_items_v(old(items)@).push(box_item_v(b)));
}

fn do_box_flush_para(items: &mut Vec<BoxItem>, para: &mut Vec<Vec<char>>)
    ensures
        box_items_v(final(items)@) == box_flush_para(
            box_view(old(items)@, old(para)@, Seq::empty(), false),
        ).items,
        seqs_of(final(para)@) == Seq::<Seq<char>>::empty(),
{
    if para.len() > 0 {
        let joined = join_chars(para, ' ');
        box_push(items, BoxItem::Paragraph(string_of(joined.as_slice())));
        *para = Vec::new();
    }
    assert(seqs_of(para@) =~= Seq::<Seq<char>>::empty());
}

fn do_box_flush_bullets(items: &mut Vec<BoxItem>, bullets: &mut Vec<Vec<char>>)
    ensures
        box_items_v(final(items)@) == box_flush_bullets(
            box_view(old(items)@, Seq::empty(), old(bullets)@, false),
        ).items,
        seqs_of(final(bullets)@) == Seq::<Seq<char>>::empty(),
{
    let ghost start = box_items_v(items@);
    let ghost bv = seqs_of(bullets@);
    let mut k: usize = 0;
    while k < bullets.len()
        invariant
            0 <= k <= bullets.len(),
            bv == seqs_of(bullets@),
            box_items_v(items@) == start + Seq::new(k as nat, |i: int| BoxItemV::Bullet(bv[i])),
        decreases bullets.len() - k,
    {
        box_push(items, BoxItem::Bullet(string_of(bullets[k].as_slice())));
        k += 1;
        assert(box_items_v(items@) =~= start + Seq::new(k as nat, |i: int| BoxItemV::Bullet(bv[i])));
    }
    assert(box_items_v(items@) =~= box_flush_bullets(
        box_view(old(items)@, Seq::empty(), old(bullets)@, false),
    ).items);
    *bullets = Vec::new();
    assert(seqs_of(bullets@) =~= Seq::<Seq<char>>::empty());
}

fn box_line_exec(
    raw: &Vec<char>,
    items: &mut Vec<BoxItem>,
    para: &mut Vec<Vec<char>>,
    bullets: &mut Vec<Vec<char>>,
    in_bullets: &mut bool,
)
    requires
        *old(in_bullets) ==> old(para)@.len() == 0,
    ensures
        box_view(final(items)@, final(para)@, final(bullets)@, *final(in_bullets)) == box_line(
            box_view(old(items)@, old(para)@, old(bullets)@, *old(in_bullets)),
            raw@,
        ),
        *final(in_bullets) ==> final(para)@.len() == 0,
{
    let ghost st = box_view(items@, para@, bullets@, *in_bullets);
    let line = trim_chars(raw);
    let bullet = match strip_prefix_exec(&line, "- ") {
        Some(x) => Some(x),
        None => strip_prefix_exec(&line, "* "),
    };
    let heading = match strip_prefix_exec(&line, "#### ") {
        Some(x) => Some(x),
        None => strip_prefix_exec(&line, "### "),
    };
    assert(match bullet {
        Some(x) => bullet_of(line@) == Some(x@),
        None => bullet_of(line@) is None,
    });
    assert(match heading {
        Some(x) => heading_of(line@) == Some(x@),
        None => heading_of(line@) is None,
    });
    if let Some(item) = bullet {
        do_box_flush_para(items, para);
        assert(para@.len() == seqs_of(para@).len());
        *in_bullets = true;
        let ghost mid = bullets@;
        bullets.push(item);
        assert(seqs_of(bullets@) =~= seqs_of(mid).push(item@));
        assert(box_view(items@, para@, bullets@, *in_bullets) =~= box_line(st, raw@));
    } else if let Some(h) = heading {
        do_box_flush_para(items, para);
        do_box_flush_bullets(items, bullets);
        *in_bullets = false;
        box_push(items, BoxItem::Heading(string_of(h.as_slice())));
        assert(box_view(items@, para@, bullets@, *in_bullets) =~= box_line(st, raw@));
    } else if *in_bullets {
        if bullets.len() > 0 {
            let ghost before = bullets@;
            let mut last = bullets.pop().unwrap();
            assert(last == before.last());
            last.push(' ');
            let ghost l1 = last@;
            assert(l1 =~= before.last()@ + seq![' ']);
            let mut j: usize = 0;
            while j < line.len()
                invariant
                    0 <= j <= line.len(),
                    last@ == l1 + line@.take(j as int),
                decreases line.len() - j,
            {
                last.push(line[j]);
                j += 1;
                assert(last@ =~= l1 + line@.take(j as int));
            }
            assert(line@.take(j as int) =~= line@);
            bullets.push(last);
            assert(bullets@ =~= before.drop_last().push(last));
            assert(seqs_of(before).last() == before.last()@);
            assert(seqs_of(bullets@) =~= seqs_of(before).update(
                before.len() - 1,
                seqs_of(before).last() + seq![' '] + line@,
            ));
        }
        assert(box_view(items@, para@, bullets@, *in_bullets) =~= box_line(st, raw@));
    } else {
        let ghost before = para@;
        para.push(line);
        assert(seqs_of(para@) =~= seqs_of(before).push(line@));
        assert(box_view(items@, para@, bullets@, *in_bullets) =~= box_line(st, raw@));
    }
}

/// Parse a stat-block / boxed-text content string into a sequence of items
/// (paragraph, sub-heading, bullet). Soft newlines within a paragraph join
/// with a space; blank lines split paragraphs. `### `/`#### ` prefix marks a
/// sub-heading; `- `/`* ` prefix marks a bullet (continuation lines append to
/// the previous bullet).
pub fn parse_box_content(content: &str) -> (r: Vec<BoxItem>)
    ensures
        box_items_v(r@) == box_content(content@),
{
    let tc = trim_chars(&chars_of(content));
    let sep = chars_of("\n\n");
    proof {
        reveal_strlit("\n\n");
    }
    let chunks = split_exec(&tc, &sep);
    let ghost cv = seqs_of(chunks@);
    let mut items: Vec<BoxItem> = Vec::new();
    assert(box_items_v(items@) =~= Seq::<BoxItemV>::empty());
    let mut k: usize = 0;
    while k < chunks.len()
        invariant
            0 <= k <= chunks.len(),
            cv == seqs_of(chunks@),
            cv == split(trim(content@), "\n\n"@),
            box_items_v(items@) == box_chunks(cv, k as int),
        decreases chunks.len() - k,
    {
        assert(cv[k as int] == chunks@[k as int]@);
        let chunk = trim_chars(&chunks[k]);
        if chunk.len() > 0 {
            let ls = lines_exec(&chunk);
            let ghost lv = seqs_of(ls@);
            let ghost start = box_items_v(items@);
            let mut para: Vec<Vec<char>> = Vec::new();
            let mut bullets: Vec<Vec<char>> = Vec::new();
            let mut in_bullets = false;
            assert(box_view(items@, para@, bullets@, in_bullets) =~= box_fold(start, lv, 0));
            let mut j: usize = 0;
            while j < ls.len()
                invariant
                    0 <= j <= ls.len(),
                    lv == seqs_of(ls@),
                    box_view(items@, para@, bullets@, in_bullets) == box_fold(start, lv, j as int),
                    in_bullets ==> para@.len() == 0,
                decreases ls.len() - j,
            {
                assert(lv[j as int] == ls@[j as int]@);
                box_line_exec(&ls[j], &mut items, &mut para, &mut bullets, &mut in_bullets);
                j += 1;
            }
            let ghost st = box_view(items@, para@, bullets@, in_bullets);
            do_box_flush_para(&mut items, &mut para);
            assert(box_view(items@, para@, bullets@, in_bullets) =~= box_flush_para(st));
            let ghost st2 = box_view(items@, para@, bullets@, in_bullets);
            do_box_flush_bullets(&mut items, &mut bullets);
            assert(box_items_v(items@) == box_flush_bullets(st2).items);
        }
        k += 1;
    }
    items
}

// ---------------------------------------------------------------------------
// Styled runs
// ---------------------------------------------------------------------------

/// A styled run of a paragraph's text, from character `start` up to `end`.
#[derive(Debug, Clone, Copy, PartialEq, Eq, Structural)]
pub struct InlineSpan {
    pub start: usize,
    pub end: usize,
    pub bold: bool,
    pub italic: bool,
    pub monospace: bool,
}

#[verifier::ext_equal]
pub struct SpanV {
    pub start: nat,
    pub end: nat,
    pub bold: bool,
    pub italic: bool,
    pub monospace: bool,
}

pub open spec fn span_v(s: InlineSpan) -> SpanV {
    SpanV {
        start: s.start as nat,
        end: s.end as nat,
        bold: s.bold,
        italic: s.italic,
        monospace: s.monospace,
    }
}

pub open spec fn spans_v(s: Seq<InlineSpan>) -> Seq<SpanV> {
    Seq::new(s.len(), |i: int| span_v(s[i]))
}

/// The characters of a bold or italic run from `i` on: a backslash gives the
/// character after it.
pub open spec fn unesc_from(cs: Seq<char>, i: int) -> Seq<char>
    decreases cs.len() - i,
{
    if i < 0 || i >= cs.len() {
        Seq::empty()
    } else if cs[i] == '\\' && i + 1 < cs.len() {
        seq![cs[i + 1]] + unesc_from(cs, i + 2)
    } else {
        seq![cs[i]] + unesc_from(cs, i + 1)
    }
}

pub open spec fn styled(start: nat, len: nat, bold: bool, italic: bool) -> SpanV {
    SpanV { start, end: start + len, bold, italic, monospace: false }
}

/// The text and runs of the characters of `cs` from `i` on, the text so far
/// being `base` characters long: `\X` gives `X`, `**bold**` and `*italic*`
/// (no nesting) give runs, everything else stays as it is.
pub open spec fn pim_from(cs: Seq<char>, i: int, base: nat) -> (Seq<char>, Seq<SpanV>)
    decreases cs.len() - i,
{
    if i < 0 || i >= cs.len() {
        (Seq::empty(), Seq::empty())
    } else if cs[i] == '\\' && i + 1 < cs.len() {
        let r = pim_from(cs, i + 2, base + 1);
        (seq![cs[i + 1]] + r.0, r.1)
    } else if i + 1 < cs.len() && cs[i] == '*' && cs[i + 1] == '*' && fds_from(cs, i + 2) is Some {
        let end = fds_from(cs, i + 2).unwrap();
        if end < i + 2 || end + 2 > cs.len() {
            (Seq::empty(), Seq::empty())
        } else {
            let inner = unesc_from(cs.subrange(i + 2, end), 0);
            let r = pim_from(cs, end + 2, base + inner.len());
            (inner + r.0, seq![styled(base, inner.len(), true, false)] + r.1)
        }
    } else if lone_star(cs, i) && fss_from(cs, i + 1) is Some {
        let end = fss_from(cs, i + 1).unwrap();
        if end < i + 1 || end + 1 > cs.len() {
            (Seq::empty(), Seq::empty())
        } else {
            let inner = unesc_from(cs.subrange(i + 1, end), 0);
            let r = pim_from(cs, end + 1, base + inner.len());
            (inner + r.0, seq![styled(base, inner.len(), false, true)] + r.1)
        }
    } else {
        let r = pim_from(cs, i + 1, base + 1);
        (seq![cs[i]] + r.0, r.1)
    }
}

/// The text and runs of stat-block or boxed text, after typography.
pub open spec fn inline_markdown_runs(text: Seq<char>) -> (Seq<char>, Seq<SpanV>) {
    pim_from(typography(text), 0, 0)
}

fn unescape_chars(v: &Vec<char>) -> (r: Vec<char>)
    ensures
        r@ == unesc_from(v@, 0),
{
    let mut out: Vec<char> = Vec::new();
    let mut j: usize = 0;
    while j < v.len()
        invariant
            0 <= j <= v.len(),
            out@ + unesc_from(v@, j as int) == unesc_from(v@, 0),
        decreases v.len() - j,
    {
        let ghost prev = out@;
        if v[j] == '\\' && j + 1 < v.len() {
            out.push(v[j + 1]);
            assert(out@ + unesc_from(v@, j + 2) =~= prev + unesc_from(v@, j as int));
            j += 2;
        } else {
            out.push(v[j]);
            assert(out@ + unesc_from(v@, j + 1) =~= prev + unesc_from(v@, j as int));
            j += 1;
        }
    }
    assert(out@ =~= out@ + unesc_from(v@, j as int));
    out
}

fn append_chars(out: &mut Vec<char>, v: &Vec<char>)
    ensures
        final(out)@ == old(out)@ + v@,
{
    let mut j: usize = 0;
    while j < v.len()
        invariant
            0 <= j <= v.len(),
            out@ == old(out)@ + v@.take(j as int),
        decreases v.len() - j,
    {
        out.push(v[j]);
        j += 1;
        assert(out@ =~= old(out)@ + v@.take(j as int));
    }
    assert(v@.take(j as int) =~= v@);
}

fn push_span(spans: &mut Vec<InlineSpan>, s: InlineSpan)
    ensures
        spans_v(final(spans)@) == spans_v(old(spans)@).push(span_v(s)),
{
    spans.push(s);
    assert(spans_v(spans@) =~= spans_v(old(spans)@).push(span_v(s)));
}

/// Inline-markdown parser used for stat-block / boxed-text content (the
/// document keeps those as raw strings rather than inlines). Handles
/// `**bold**`, `*italic*`, `\X` escape, and `->` typographic substitution.
/// No nesting.
pub fn parse_inline_markdown(text: &str) -> (r: (String, Vec<InlineSpan>))
    ensures
        (r.0@, spans_v(r.1@)) == inline_markdown_runs(text@),
{
    let chars = typography_chars(&chars_of(text));
    let ghost cs = chars@;
    let mut out: Vec<char> = Vec::new();
    let mut spans: Vec<InlineSpan> = Vec::new();
    let mut i: usize = 0;
    while i < chars.len()
        invariant
            0 <= i <= chars.len(),
            cs == chars@,
            out@ + pim_from(cs, i as int, out.len() as nat).0 == pim_from(cs, 0, 0).0,
            spans_v(spans@) + pim_from(cs, i as int, out.len() as nat).1 == pim_from(cs, 0, 0).1,
        decreases chars.len() - i,
    {
        let ghost prev = out@;
        let ghost prev_spans = spans_v(spans@);
        let ghost here = pim_from(cs, i as int, out.len() as nat);
        if chars[i] == '\\' && i + 1 < chars.len() {
            out.push(chars[i + 1]);
            assert(out@ + pim_from(cs, i + 2, out.len() as nat).0 =~= prev + here.0);
            i += 2;
            continue;
        }
        if i + 1 < chars.len() && chars[i] == '*' && chars[i + 1] == '*' {
            proof {
                lemma_fds_bounds(cs, i + 2);
            }
            if let Some(end) = find_double_star(&chars, i + 2) {
                let start = out.len();
                let inner = unescape_chars(&slice_chars(&chars, i + 2, end));
                append_chars(&mut out, &inner);
                let s = InlineSpan { start, end: out.len(), bold: true, italic: false, monospace: false };
                push_span(&mut spans, s);
                assert(span_v(s) == styled(start as nat, inner@.len(), true, false));
                assert(out@ + pim_from(cs, end + 2, out.len() as nat).0 =~= prev + here.0);
                assert(spans_v(spans@) + pim_from(cs, end + 2, out.len() as nat).1 =~= prev_spans
                    + here.1);
                i = end + 2;
                continue;
            }
        }
        if chars[i] == '*' && (i == 0 || chars[i - 1] != '*') && (i + 1 >= chars.len() || chars[i
            + 1] != '*') {
            proof {
                lemma_fss_bounds(cs, i + 1);
            }
            if let Some(end) = find_single_star(&chars, i + 1) {
                let start = out.len();
                let inner = unescape_chars(&slice_chars(&chars, i + 1, end));
                append_chars(&mut out, &inner);
                let s = InlineSpan { start, end: out.len(), bold: false, italic: true, monospace: false };
                push_span(&mut spans, s);
                assert(span_v(s) == styled(start as nat, inner@.len(), false, true));
                assert(out@ + pim_from(cs, end + 1, out.len() as nat).0 =~= prev + here.0);
                assert(spans_v(spans@) + pim_from(cs, end + 1, out.len() as nat).1 =~= prev_spans
                    + here.1);
                i = end + 1;
                continue;
            }
        }
        out.push(chars[i]);
        assert(out@ + pim_from(cs, i + 1, out.len() as nat).0 =~= prev + here.0);
        i += 1;
    }
    assert(out@ =~= out@ + pim_from(cs, i as int, out.len() as nat).0);
    assert(spans_v(spans@) =~= spans_v(spans@) + pim_from(cs, i as int, out.len() as nat).1);
    (string_of(out.as_slice()), spans)
}

/// The text and runs of an inline whose text starts at position `base`,
/// inside bold and/or italic as the flags say: plain text under bold or
/// italic gets a run, code always gets a monospace run, breaks become a space
/// or a newline, images give nothing.
pub open spec fn walk(x: InlineV, base: nat, bold: bool, italic: bool) -> (Seq<char>, Seq<SpanV>)
    decreases x,
{
    match x {
        InlineV::Text(t) => (
            t,
            if bold || italic {
                seq![styled(base, t.len(), bold, italic)]
            } else {
                Seq::empty()
            },
        ),
        InlineV::Code(t) => (
            t,
            seq![SpanV { start: base, end: base + t.len(), bold, italic, monospace: true }],
        ),
        InlineV::Emphasis(v) => walks(v, base, bold, true),
        InlineV::Strong(v) => walks(v, base, true, italic),
        InlineV::Link { text, .. } => walks(text, base, bold, italic),
        InlineV::Image(_) => (Seq::empty(), Seq::empty()),
        InlineV::SoftBreak => (seq![' '], Seq::empty()),
        InlineV::HardBreak => (seq!['\n'], Seq::empty()),
    }
}

/// The text and runs of a sequence of inlines, one after another.
pub open spec fn walks(s: Seq<InlineV>, base: nat, bold: bool, italic: bool) -> (Seq<char>, Seq<SpanV>)
    decreases s,
{
    if s.len() == 0 {
        (Seq::empty(), Seq::empty())
    } else {
        let a = walks(s.drop_last(), base, bold, italic);
        let b = walk(s.last(), base + a.0.len(), bold, italic);
        (a.0 + b.0, a.1 + b.1)
    }
}

fn walk_inlines(
    inlines: &Vec<Inline>,
    text: &mut Vec<char>,
    spans: &mut Vec<InlineSpan>,
    bold: bool,
    italic: bool,
)
    ensures
        final(text)@ == old(text)@ + walks(inlines_v(inlines@), old(text)@.len(), bold, italic).0,
        spans_v(final(spans)@) == spans_v(old(spans)@) + walks(
            inlines_v(inlines@),
            old(text)@.len(),
            bold,
            italic,
        ).1,
    decreases inlines,
{
    let ghost sv = inlines_v(inlines@);
    let ghost t0 = text@;
    let ghost s0 = spans_v(spans@);
    let mut k: usize = 0;
    while k < inlines.len()
        invariant
            0 <= k <= inlines.len(),
            sv == inlines_v(inlines@),
            text@ == t0 + walks(sv.take(k as int), t0.len(), bold, italic).0,
            spans_v(spans@) == s0 + walks(sv.take(k as int), t0.len(), bold, italic).1,
        decreases inlines.len() - k,
    {
        let ghost tp = text@;
        let ghost sp = spans_v(spans@);
        proof {
            assert(sv.take(k + 1).drop_last() =~= sv.take(k as int));
            lemma_inline_v_unfold(inlines@[k as int]);
        }
        let ghost w = walk(sv[k as int], tp.len(), bold, italic);
        match &inlines[k] {
            Inline::Text(t) => {
                let start = text.len();
                append_chars(text, &chars_of(t.as_str()));
                if bold || italic {
                    push_span(
                        spans,
                        InlineSpan { start, end: text.len(), bold, italic, monospace: false },
                    );
                }
            },
            Inline::Code(t) => {
                let start = text.len();
                append_chars(text, &chars_of(t.as_str()));
                push_span(spans, InlineSpan { start, end: text.len(), bold, italic, monospace: true });
            },
            Inline::Emphasis(children) => {
                walk_inlines(children, text, spans, bold, true);
            },
            Inline::Strong(children) => {
                walk_inlines(children, text, spans, true, italic);
            },
            Inline::Link { text: link_text, .. } => {
                walk_inlines(link_text, text, spans, bold, italic);
            },
            Inline::Image(_) => {},
            Inline::SoftBreak => {
                text.push(' ');
            },
            Inline::HardBreak => {
                text.push('\n');
            },
        }
        assert(text@ =~= tp + w.0);
        assert(spans_v(spans@) =~= sp + w.1);
        k += 1;
    }
    assert(sv.take(k as int) =~= sv);
}

/// The plain text of a paragraph's inlines and its styled runs.
pub fn collect_inline_text(inlines: &Vec<Inline>) -> (r: (String, Vec<InlineSpan>))
    ensures
        (r.0@, spans_v(r.1@)) == walks(inlines_v(inlines@), 0, false, false),
{
    let mut text: Vec<char> = Vec::new();
    let mut spans: Vec<InlineSpan> = Vec::new();
    walk_inlines(inlines, &mut text, &mut spans, false, false);
    assert(spans_v(spans@) =~= Seq::<SpanV>::empty() + walks(inlines_v(inlines@), 0, false, false).1);
    assert(text@ =~= Seq::<char>::empty() + walks(inlines_v(inlines@), 0, false, false).0);
    (string_of(text.as_slice()), spans)
}

// ---------------------------------------------------------------------------
// List markers
// ---------------------------------------------------------------------------

/// The marker of item `index` of a list: a task box, the item's number, or a
/// bullet (filled at the top level, hollow when nested).
pub open spec fn marker_text(ordered: bool, index: nat, top_level: bool, task: Option<bool>) -> Seq<
    char,
> {
    match task {
        Some(checked) => if checked {
            "[x]"@
        } else {
            "[ ]"@
        },
        None => if ordered {
            decimal(index + 1) + "."@
        } else if top_level {
            "\u{2022}"@
        } else {
            "\u{25e6}"@
        },
    }
}

pub fn list_marker(ordered: bool, index: usize, top_level: bool, task: Option<bool>) -> (r: String)
    requires
        index < usize::MAX,
    ensures
        r@ == marker_text(ordered, index as nat, top_level, task),
{
    let mut out = String::new();
    if let Some(checked) = task {
        if checked {
            push_str(&mut out, "[x]");
        } else {
            push_str(&mut out, "[ ]");
        }
    } else if ordered {
        push_decimal(&mut out, index + 1);
        push_str(&mut out, ".");
    } else if top_level {
        push_str(&mut out, "\u{2022}");
    } else {
        push_str(&mut out, "\u{25e6}");
    }
    assert(out@ =~= marker_text(ordered, index as nat, top_level, task));
    out
}

// ---------------------------------------------------------------------------
// Tables
// ---------------------------------------------------------------------------

/// The widest row among the first `k` rows.
pub open spec fn widest_row(rows: Seq<Seq<Seq<char>>>, k: int) -> nat
    decreases k,
{
    if k <= 0 || k > rows.len() {
        0
    } else if rows[k - 1].len() > widest_row(rows, k - 1) {
        rows[k - 1].len()
    } else {
        widest_row(rows, k - 1)
    }
}

/// The number of columns a table is laid out with: the header's or the
/// widest row's, whichever is more.
pub open spec fn column_count(t: TableV) -> nat {
    let w = widest_row(t.rows, t.rows.len() as int);
    if t.headers.len() > w {
        t.headers.len()
    } else {
        w
    }
}

pub fn table_columns(table: &Table) -> (r: usize)
    ensures
        r == column_count(table_v(*table)),
{
    let ghost tv = table_v(*table);
    let mut widest: usize = 0;
    let mut k: usize = 0;
    while k < table.rows.len()
        invariant
            0 <= k <= table.rows.len(),
            tv == table_v(*table),
            widest == widest_row(tv.rows, k as int),
        decreases table.rows.len() - k,
    {
        assert(tv.rows[k as int].len() == table.rows@[k as int].len());
        if table.rows[k].len() > widest {
            widest = table.rows[k].len();
        }
        k += 1;
    }
    if table.headers.len() > widest {
        table.headers.len()
    } else {
        widest
    }
}

// ---------------------------------------------------------------------------
// License appendix header
// ---------------------------------------------------------------------------

/// The centred lines above a license body: the title, then the attribution
/// and the changes note when the directive gives them.
pub struct LicenseHeader {
    pub title: String,
    pub attribution: Option<String>,
    pub changes: Option<String>,
}

pub open spec fn attribution_line(kind: LicenseKind, a: Seq<char>) -> Seq<char> {
    a + " Licensed under "@ + short_name_text(kind) + ". To view a copy of this license, visit "@
        + url_text(kind) + "."@
}

pub open spec fn changes_line(c: Seq<char>) -> Seq<char> {
    "Changes from original: "@ + c
}

pub fn license_header(kind: LicenseKind, info: &LicenseInfo) -> (r: LicenseHeader)
    ensures
        r.title@ == title_text(kind),
        match info.attribution {
            Some(a) => r.attribution matches Some(l) && l@ == attribution_line(kind, a@),
            None => r.attribution is None,
        },
        match info.changes {
            Some(c) => r.changes matches Some(l) && l@ == changes_line(c@),
            None => r.changes is None,
        },
{
    let mut t = String::new();
    push_str(&mut t, title(kind));
    let attribution = match &info.attribution {
        Some(a) => {
            let mut l = String::new();
            push_str(&mut l, a.as_str());
            push_str(&mut l, " Licensed under ");
            push_str(&mut l, short_name(kind));
            push_str(&mut l, ". To view a copy of this license, visit ");
            push_str(&mut l, url(kind));
            push_str(&mut l, ".");
            assert(l@ =~= attribution_line(kind, a@));
            Some(l)
        },
        None => None,
    };
    let changes = match &info.changes {
        Some(c) => {
            let mut l = String::new();
            push_str(&mut l, "Changes from original: ");
            push_str(&mut l, c.as_str());
            assert(l@ =~= changes_line(c@));
            Some(l)
        },
        None => None,
    };
    assert(t@ =~= title_text(kind));
    LicenseHeader { title: t, attribution, changes }
}

/// How a block of the license appendix is set.
#[derive(Debug, Clone, Copy, PartialEq, Eq, Structural)]
pub enum LicenseStyle {
    Title,
    Attribution,
    Changes,
    Heading2,
    Heading3,
    Body,
}

/// One block of the license appendix: its text, how it is set, and whether
/// it may be split across columns and pages.
pub struct LicenseBlock {
    pub text: String,
    pub style: LicenseStyle,
    pub splittable: bool,
}

/// The license appendix: a centred one-column header, then the body in two
/// columns.
pub struct LicenseTracks {
    pub header: Vec<LicenseBlock>,
    pub body: Vec<LicenseBlock>,
}

#[verifier::ext_equal]
pub struct LicenseBlockV {
    pub text: Seq<char>,
    pub style: LicenseStyle,
    pub splittable: bool,
}

pub open spec fn license_block_v(b: LicenseBlock) -> LicenseBlockV {
    LicenseBlockV { text: b.text@, style: b.style, splittable: b.splittable }
}

pub open spec fn license_blocks_v(s: Seq<LicenseBlock>) -> Seq<LicenseBlockV> {
    Seq::new(s.len(), |i: int| license_block_v(s[i]))
}

pub open spec fn fixed_block(text: Seq<char>, style: LicenseStyle) -> LicenseBlockV {
    LicenseBlockV { text, style, splittable: false }
}

/// The header: the title, then the attribution and the changes note when
/// the directive gives them; none of them splits.
pub open spec fn license_header_blocks(kind: LicenseKind, info: LicenseInfoV) -> Seq<LicenseBlockV> {
    seq![fixed_block(title_text(kind), LicenseStyle::Title)] + match info.attribution {
        Some(a) => seq![fixed_block(attribution_line(kind, a), LicenseStyle::Attribution)],
        None => Seq::empty(),
    } + match info.changes {
        Some(c) => seq![fixed_block(changes_line(c), LicenseStyle::Changes)],
        None => Seq::empty(),
    }
}

/// One body block per fragment, with the fragment's text; only paragraphs
/// split.
pub open spec fn fragment_block(f: FragmentV) -> LicenseBlockV {
    match f {
        FragmentV::Heading2(t) => fixed_block(t, LicenseStyle::Heading2),
        FragmentV::Heading3(t) => fixed_block(t, LicenseStyle::Heading3),
        FragmentV::Paragraph(t) => LicenseBlockV { text: t, style: LicenseStyle::Body, splittable: true },
    }
}

pub open spec fn license_body_blocks(frags: Seq<FragmentV>) -> Seq<LicenseBlockV> {
    Seq::new(frags.len(), |i: int| fragment_block(frags[i]))
}

fn push_license_block(out: &mut Vec<LicenseBlock>, b: LicenseBlock)
    ensures
        license_blocks_v(final(out)@) == license_blocks_v(old(out)@).push(license_block_v(b)),
{
    out.push(b);
    assert(license_blocks_v(out@) =~= license_blocks_v(old(out)@).push(license_block_v(b)));
}

/// The blocks of the license appendix of `kind`.
pub fn license_tracks(kind: LicenseKind, info: &LicenseInfo) -> (r: LicenseTracks)
    ensures
        license_blocks_v(r.header@) == license_header_blocks(kind, info_v(*info)),
        license_blocks_v(r.body@) == license_body_blocks(body_fragments(body_text(kind))),
{
    let h = license_header(kind, info);
    let mut header: Vec<LicenseBlock> = Vec::new();
    push_license_block(
        &mut header,
        LicenseBlock { text: h.title, style: LicenseStyle::Title, splittable: false },
    );
    if let Some(a) = h.attribution {
        push_license_block(
            &mut header,
            LicenseBlock { text: a, style: LicenseStyle::Attribution, splittable: false },
        );
    }
    if let Some(c) = h.changes {
        push_license_block(
            &mut header,
            LicenseBlock { text: c, style: LicenseStyle::Changes, splittable: false },
        );
    }
    assert(license_blocks_v(header@) =~= license_header_blocks(kind, info_v(*info)));
    let frags = fragments(kind);
    let ghost fv = fragments_v(frags@);
    let mut body: Vec<LicenseBlock> = Vec::new();
    let mut k: usize = 0;
    let n = frags.len();
    let mut rest = frags;
    let mut rev: Vec<LicenseFragment> = Vec::new();
    while rest.len() > 0
        invariant
            rest.len() + rev.len() == n,
            n == fv.len(),
            fragments_v(rest@) == fv.take(rest.len() as int),
            forall|i: int| 0 <= i < rev.len() ==> fragment_v(#[trigger] rev@[i]) == fv[n - 1 - i],
        decreases rest.len(),
    {
        let ghost before = rest@;
        let x = rest.pop().unwrap();
        assert(fragment_v(x) == fragments_v(before)[rest.len() as int]);
        assert(fragments_v(rest@) =~= fv.take(rest.len() as int)) by {
            assert(fragments_v(rest@) =~= fragments_v(before).drop_last());
        }
        rev.push(x);
    }
    while rev.len() > 0
        invariant
            k + rev.len() == n,
            n == fv.len(),
            fv == body_fragments(body_text(kind)),
            forall|i: int| 0 <= i < rev.len() ==> fragment_v(#[trigger] rev@[i]) == fv[n - 1 - i],
            license_blocks_v(body@) == license_body_blocks(fv.take(k as int)),
        decreases rev.len(),
    {
        let ghost before = rev@;
        let f = rev.pop().unwrap();
        assert(fragment_v(f) == fv[k as int]) by {
            assert(f == before[before.len() - 1]);
        }
        let b = match f {
            LicenseFragment::Heading2(t) => LicenseBlock {
                text: t,
                style: LicenseStyle::Heading2,
                splittable: false,
            },
            LicenseFragment::Heading3(t) => LicenseBlock {
                text: t,
                style: LicenseStyle::Heading3,
                splittable: false,
            },
            LicenseFragment::Paragraph(t) => LicenseBlock {
                text: t,
                style: LicenseStyle::Body,
                splittable: true,
            },
        };
        assert(license_block_v(b) == fragment_block(fv[k as int]));
        push_license_block(&mut body, b);
        assert(license_body_blocks(fv.take(k + 1)) =~= license_body_blocks(fv.take(k as int)).push(
            fragment_block(fv[k as int]),
        ));
        k += 1;
    }
    assert(fv.take(k as int) =~= fv);
    LicenseTracks { header, body }
}

// ---------------------------------------------------------------------------
// Tracks: runs of blocks with one column count
// ---------------------------------------------------------------------------

/// A finished track: the next `blocks` laid-out blocks, set in `columns`
/// columns, and whether a page break follows.
#[derive(Debug, Clone, Copy, PartialEq, Eq, Structural)]
pub struct TrackMark {
    pub columns: u8,
    pub blocks: usize,
    pub page_break_after: bool,
}

/// What the layout engine does with an element.
#[derive(Debug, Clone, Copy, PartialEq, Eq, Structural)]
pub enum Placement {
    /// Nothing to lay out (a column switch or a page break).
    Skip,
    /// Lay out into the current track, at the width of this many columns.
    Flow(u8),
    /// Lay out centred across the page as a one-column track of its own.
    Span,
    /// Lay out the license appendix: a one-column header track, then a
    /// two-column body track.
    License,
}

/// The tracks being built.
#[verifier::ext_equal]
pub struct TrackStateV {
    pub tracks: Seq<TrackMark>,
    pub columns: u8,
    pub pending: nat,
}

pub open spec fn track_init() -> TrackStateV {
    TrackStateV { tracks: Seq::empty(), columns: 2, pending: 0 }
}

pub open spec fn clamp_columns(n: u8) -> u8 {
    if n < 1 {
        1
    } else if n > 2 {
        2
    } else {
        n
    }
}

/// Pending blocks closed into a track of the current column count.
pub open spec fn flush_pending(st: TrackStateV) -> TrackStateV {
    if st.pending > 0 {
        TrackStateV {
            tracks: st.tracks.push(
                TrackMark { columns: st.columns, blocks: st.pending as usize, page_break_after: false },
            ),
            pending: 0,
            ..st
        }
    } else {
        st
    }
}

/// A forced page break: pending blocks closed into a track that ends the
/// page, unless nothing is pending and the last track already ends one.
pub open spec fn break_page(st: TrackStateV) -> TrackStateV {
    if st.pending == 0 && st.tracks.len() > 0 && st.tracks.last().page_break_after {
        st
    } else {
        TrackStateV {
            tracks: st.tracks.push(
                TrackMark { columns: st.columns, blocks: st.pending as usize, page_break_after: true },
            ),
            pending: 0,
            ..st
        }
    }
}

/// A column directive: a different (clamped) count closes the pending blocks
/// and switches.
pub open spec fn switch_columns(st: TrackStateV, n: u8) -> TrackStateV {
    let m = clamp_columns(n);
    if m != st.columns {
        TrackStateV { columns: m, ..flush_pending(st) }
    } else {
        st
    }
}

/// The state after planning an element, and what is to be laid out.
pub open spec fn plan(st: TrackStateV, e: ElementV) -> (TrackStateV, Placement) {
    match e {
        ElementV::ColumnLayout(n) => (switch_columns(st, n), Placement::Skip),
        ElementV::PageBreak => (break_page(st), Placement::Skip),
        ElementV::License { .. } => (break_page(st), Placement::License),
        ElementV::Heading { level, .. } => if level == 1 && st.columns == 2 {
            (flush_pending(st), Placement::Span)
        } else {
            (st, Placement::Flow(st.columns))
        },
        _ => (st, Placement::Flow(st.columns)),
    }
}

/// The number of blocks in `tracks`.
pub open spec fn blocks_in(tracks: Seq<TrackMark>) -> nat
    decreases tracks.len(),
{
    if tracks.len() == 0 {
        0
    } else {
        blocks_in(tracks.drop_last()) + tracks.last().blocks as nat
    }
}

/// Every block handed to the planner, in tracks or still pending.
pub open spec fn placed(st: TrackStateV) -> nat {
    blocks_in(st.tracks) + st.pending
}

/// Groups laid-out blocks into tracks, element by element.
pub struct TrackPlanner {
    tracks: Vec<TrackMark>,
    columns: u8,
    pending: usize,
}

impl TrackPlanner {
    pub closed spec fn view_state(&self) -> TrackStateV {
        TrackStateV { tracks: self.tracks@, columns: self.columns, pending: self.pending as nat }
    }

    /// Starts in two-column mode with no tracks.
    pub fn new() -> (r: Self)
        ensures
            r.view_state() == track_init(),
    {
        let r = TrackPlanner { tracks: Vec::new(), columns: 2, pending: 0 };
        assert(r.view_state() =~= track_init());
        r
    }

    /// The number of blocks laid out since the last track was closed.
    pub fn pending(&self) -> (r: usize)
        ensures
            r as nat == self.view_state().pending,
    {
        self.pending
    }

    fn flush(&mut self)
        ensures
            final(self).view_state() == flush_pending(old(self).view_state()),
    {
        if self.pending > 0 {
            self.tracks.push(
                TrackMark { columns: self.columns, blocks: self.pending, page_break_after: false },
            );
            self.pending = 0;
        }
        assert(self.view_state() =~= flush_pending(old(self).view_state()));
    }

    fn page_break(&mut self)
        ensures
            final(self).view_state() == break_page(old(self).view_state()),
    {
        let n = self.tracks.len();
        if self.pending == 0 && n > 0 && self.tracks[n - 1].page_break_after {
            return;
        }
        self.tracks.push(
            TrackMark { columns: self.columns, blocks: self.pending, page_break_after: true },
        );
        self.pending = 0;
        assert(self.view_state() =~= break_page(old(self).view_state()));
    }

    /// Decides where an element goes, closing tracks as column directives,
    /// page breaks, license appendices and page-wide headings require.
    pub fn plan_element(&mut self, element: &Element) -> (r: Placement)
        ensures
            (final(self).view_state(), r) == plan(old(self).view_state(), element_v(*element)),
    {
        match element {
            Element::ColumnLayout(n) => {
                let m = if *n < 1 {
                    1
                } else if *n > 2 {
                    2
                } else {
                    *n
                };
                if m != self.columns {
                    self.flush();
                    self.columns = m;
                }
                assert(self.view_state() =~= switch_columns(old(self).view_state(), *n));
                Placement::Skip
            },
            Element::PageBreak => {
                self.page_break();
                Placement::Skip
            },
            Element::License { .. } => {
                self.page_break();
                Placement::License
            },
            Element::Heading { level, .. } => {
                if *level == 1 && self.columns == 2 {
                    self.flush();
                    Placement::Span
                } else {
                    Placement::Flow(self.columns)
                }
            },
            _ => Placement::Flow(self.columns),
        }
    }

    /// Records `n` more blocks laid out into the current track.
    pub fn add_blocks(&mut self, n: usize)
        requires
            old(self).view_state().pending + n <= usize::MAX,
        ensures
            final(self).view_state() == (TrackStateV {
                pending: old(self).view_state().pending + n as nat,
                ..old(self).view_state()
            }),
    {
        self.pending = self.pending + n;
        assert(self.view_state() =~= TrackStateV {
            pending: old(self).view_state().pending + n as nat,
            ..old(self).view_state()
        });
    }

    /// Records a track of its own (a page-wide heading, a license header or
    /// body) made of the next `n` blocks; nothing may be pending.
    pub fn push_track(&mut self, columns: u8, n: usize)
        requires
            old(self).view_state().pending == 0,
        ensures
            final(self).view_state() == (TrackStateV {
                tracks: old(self).view_state().tracks.push(
                    TrackMark { columns, blocks: n, page_break_after: false },
                ),
                ..old(self).view_state()
            }),
    {
        self.tracks.push(TrackMark { columns, blocks: n, page_break_after: false });
        assert(self.view_state() =~= TrackStateV {
            tracks: old(self).view_state().tracks.push(
                TrackMark { columns, blocks: n, page_break_after: false },
            ),
            ..old(self).view_state()
        });
    }

    /// Records the license appendix: a one-column track of its header
    /// blocks, then a two-column track of its body blocks; nothing may be
    /// pending.
    pub fn push_license(&mut self, appendix: &LicenseTracks)
        requires
            old(self).view_state().pending == 0,
        ensures
            final(self).view_state() == (TrackStateV {
                tracks: old(self).view_state().tracks.push(
                    TrackMark { columns: 1, blocks: appendix.header.len(), page_break_after: false },
                ).push(TrackMark { columns: 2, blocks: appendix.body.len(), page_break_after: false }),
                ..old(self).view_state()
            }),
    {
        self.push_track(1, appendix.header.len());
        self.push_track(2, appendix.body.len());
    }

    /// The tracks, the pending blocks closed into the last one.
    pub fn finish(self) -> (r: Vec<TrackMark>)
        ensures
            r@ == flush_pending(self.view_state()).tracks,
    {
        let mut s = self;
        s.flush();
        s.tracks
    }
}

// ---------------------------------------------------------------------------
// The document outline
// ---------------------------------------------------------------------------

/// One step of building the outline (the bookmark tree) from the headings in
/// order: open a node for heading `i`, or close the innermost open node,
/// attaching it to the node it sits in (the outline itself at the top).
#[derive(Debug, Clone, Copy, PartialEq, Eq, Structural)]
pub enum OutlineOp {
    Open(usize),
    Close,
}

/// How many of the innermost open nodes close before a heading of level `l`:
/// those of level `l` or deeper.
pub open spec fn pops(stack: Seq<usize>, levels: Seq<u8>, l: u8) -> nat
    decreases stack.len(),
{
    if stack.len() > 0 && levels[stack.last() as int] >= l {
        1 + pops(stack.drop_last(), levels, l)
    } else {
        0
    }
}

/// The open nodes (innermost last) before heading `i` is read.
pub open spec fn stack_before(levels: Seq<u8>, i: nat) -> Seq<usize>
    decreases i,
{
    if i == 0 {
        Seq::empty()
    } else {
        let s = stack_before(levels, (i - 1) as nat);
        let p = pops(s, levels, levels[i - 1]);
        s.take(s.len() - p).push((i - 1) as usize)
    }
}

pub open spec fn closes(n: nat) -> Seq<OutlineOp> {
    Seq::new(n, |k: int| OutlineOp::Close)
}

/// The steps for the first `k` headings.
pub open spec fn ops_upto(levels: Seq<u8>, k: nat) -> Seq<OutlineOp>
    decreases k,
{
    if k == 0 {
        Seq::empty()
    } else {
        let s = stack_before(levels, (k - 1) as nat);
        ops_upto(levels, (k - 1) as nat) + closes(pops(s, levels, levels[k - 1])) + seq![
            OutlineOp::Open((k - 1) as usize),
        ]
    }
}

/// All the steps: each heading closes the open nodes of its level or deeper
/// and opens its own; at the end every open node closes.
pub open spec fn outline_ops_spec(levels: Seq<u8>) -> Seq<OutlineOp> {
    ops_upto(levels, levels.len()) + closes(stack_before(levels, levels.len()).len())
}

proof fn lemma_pops_bound(s: Seq<usize>, levels: Seq<u8>, l: u8)
    ensures
        pops(s, levels, l) <= s.len(),
    decreases s.len(),
{
    if s.len() > 0 {
        lemma_pops_bound(s.drop_last(), levels, l);
    }
}

proof fn lemma_stack_below(levels: Seq<u8>, i: nat)
    requires
        i <= levels.len(),
    ensures
        forall|j: int| 0 <= j < stack_before(levels, i).len() ==> (#[trigger] stack_before(levels, i)[j]) < i,
    decreases i,
{
    if i > 0 {
        lemma_stack_below(levels, (i - 1) as nat);
        let s = stack_before(levels, (i - 1) as nat);
        lemma_pops_bound(s, levels, levels[i - 1]);
    }
}

/// The node heading `i` opens inside: the innermost node still open once
/// the nodes of its level or deeper have closed; `None` at the top.
pub open spec fn parent_of(levels: Seq<u8>, i: nat) -> Option<usize> {
    let s = stack_before(levels, i);
    let p = pops(s, levels, levels[i as int]);
    if s.len() > p {
        Some(s[s.len() - p - 1])
    } else {
        None
    }
}

/// The last heading before position `j` whose level is lower than that of
/// heading `i`.
pub open spec fn nearest_lower(levels: Seq<u8>, i: int, j: int) -> Option<usize>
    decreases j,
{
    if j <= 0 {
        None
    } else if levels[j - 1] < levels[i] {
        Some((j - 1) as usize)
    } else {
        nearest_lower(levels, i, j - 1)
    }
}

/// No heading after `j` and before `i` has a level as low as that of `j`.
pub open spec fn unshadowed(levels: Seq<u8>, j: int, i: int) -> bool {
    forall|k: int| j < k < i ==> #[trigger] levels[k] > levels[j]
}

/// The open nodes before heading `i`, innermost last, are in heading order
/// with strictly rising levels, and are exactly the earlier headings that no
/// later heading before `i` shadows.
pub open spec fn stack_shape(levels: Seq<u8>, i: int, s: Seq<usize>) -> bool {
    &&& forall|a: int, b: int| 0 <= a < b < s.len() ==> (#[trigger] s[a]) < (#[trigger] s[b])
    &&& forall|a: int| 0 <= a < s.len() ==> 0 <= (#[trigger] s[a]) < i
    &&& forall|a: int, b: int|
        0 <= a < b < s.len() ==> levels[(#[trigger] s[a]) as int] < levels[(#[trigger] s[b]) as int]
    &&& forall|j: int| 0 <= j < i ==> (s.contains(j as usize) <==> #[trigger] unshadowed(levels, j, i))
}

proof fn lemma_pops_split(s: Seq<usize>, levels: Seq<u8>, l: u8)
    requires
        forall|a: int, b: int|
            0 <= a < b < s.len() ==> levels[(#[trigger] s[a]) as int] < levels[(#[trigger] s[b]) as int],
    ensures
        pops(s, levels, l) <= s.len(),
        forall|a: int|
            0 <= a < s.len() ==> (a < s.len() - pops(s, levels, l) <==> levels[(#[trigger] s[a]) as int] < l),
    decreases s.len(),
{
    if s.len() > 0 {
        let t = s.drop_last();
        lemma_pops_split(t, levels, l);
        if levels[s.last() as int] >= l {
            assert forall|a: int| 0 <= a < s.len() implies (a < s.len() - pops(s, levels, l) <==> levels[(#[trigger] s[a]) as int] < l) by {
                if a < t.len() {
                    assert(s[a] == t[a]);
                }
            }
        } else {
            assert forall|a: int| 0 <= a < s.len() implies (a < s.len() - pops(s, levels, l) <==> levels[(#[trigger] s[a]) as int] < l) by {
                if a < s.len() - 1 {
                    assert(levels[s[a] as int] < levels[s[s.len() - 1] as int]);
                }
            }
        }
    }
}

proof fn lemma_stack_shape(levels: Seq<u8>, i: nat)
    requires
        i <= levels.len(),
        levels.len() <= usize::MAX,
    ensures
        stack_shape(levels, i as int, stack_before(levels, i)),
    decreases i,
{
    if i > 0 {
        let i0 = (i - 1) as nat;
        lemma_stack_shape(levels, i0);
        let s = stack_before(levels, i0);
        let l = levels[i0 as int];
        lemma_pops_split(s, levels, l);
        let p = pops(s, levels, l);
        let kept = s.take(s.len() - p);
        let s2 = kept.push(i0 as usize);
        assert(s2 == stack_before(levels, i));
        assert forall|j: int| 0 <= j < i implies (s2.contains(j as usize) <==> #[trigger] unshadowed(levels, j, i as int)) by {
            if j == i0 {
                assert(s2[s2.len() - 1] == j as usize);
            } else {
                assert(s2[kept.len() as int] == i0 as usize);
                if s2.contains(j as usize) {
                    let a = choose|a: int| 0 <= a < s2.len() && s2[a] == j as usize;
                    assert(a < kept.len());
                    assert(s[a] == j as usize);
                    assert(s.contains(j as usize));
                    assert(unshadowed(levels, j, i0 as int));
                    assert(levels[j] < l);
                    assert forall|k: int| j < k < i implies #[trigger] levels[k] > levels[j] by {
                        if k < i0 {
                            assert(unshadowed(levels, j, i0 as int));
                        }
                    }
                }
                if unshadowed(levels, j, i as int) {
                    assert forall|k: int| j < k < i0 implies #[trigger] levels[k] > levels[j] by {
                        assert(j < k < i);
                    }
                    assert(unshadowed(levels, j, i0 as int));
                    assert(s.contains(j as usize));
                    let a = choose|a: int| 0 <= a < s.len() && s[a] == j as usize;
                    assert(levels[i0 as int] > levels[j]);
                    assert(a < s.len() - p);
                    assert(s2[a] == j as usize);
                }
            }
        }
        assert forall|a: int, b: int| 0 <= a < b < s2.len() implies (#[trigger] s2[a]) < (#[trigger] s2[b]) by {
            if b < kept.len() {
                assert(s2[a] == s[a] && s2[b] == s[b]);
            } else {
                assert(s2[a] == s[a]);
            }
        }
        assert forall|a: int, b: int| 0 <= a < b < s2.len() implies levels[(#[trigger] s2[a]) as int]
            < levels[(#[trigger] s2[b]) as int] by {
            if b < kept.len() {
                assert(s2[a] == s[a] && s2[b] == s[b]);
            } else {
                assert(s2[a] == s[a]);
                assert(a < s.len() - p);
            }
        }
        assert forall|a: int| 0 <= a < s2.len() implies 0 <= (#[trigger] s2[a]) < i by {
            if a < kept.len() {
                assert(s2[a] == s[a]);
            }
        }
    }
}

proof fn lemma_nearest_lower(levels: Seq<u8>, i: int, j: int)
    requires
        0 <= i < levels.len(),
        levels.len() <= usize::MAX,
        0 <= j <= levels.len(),
    ensures
        nearest_lower(levels, i, j) matches Some(m) ==> m < j && levels[m as int] < levels[i]
            && forall|k: int| m < k < j ==> #[trigger] levels[k] >= levels[i],
        nearest_lower(levels, i, j) is None ==> forall|k: int| 0 <= k < j ==> #[trigger] levels[k] >= levels[i],
    decreases j,
{
    if j > 0 {
        lemma_nearest_lower(levels, i, j - 1);
    }
}

/// No heading strictly between `t` and `i` is lower than heading `i`, when
/// every open node after `t` is at least as deep.
proof fn lemma_none_lower_between(levels: Seq<u8>, i: int, s: Seq<usize>, p: nat, t: int, k: int)
    requires
        0 <= i < levels.len(),
        levels.len() <= usize::MAX,
        stack_shape(levels, i, s),
        p <= s.len(),
        forall|a: int| 0 <= a < s.len() ==> (a < s.len() - p <==> levels[(#[trigger] s[a]) as int] < levels[i]),
        t == if s.len() > p { s[s.len() - p - 1] as int } else { -1 },
        t < k < i,
    ensures
        levels[k] >= levels[i],
    decreases i - k,
{
    if levels[k] < levels[i] {
        if s.contains(k as usize) {
            let a = choose|a: int| 0 <= a < s.len() && s[a] == k as usize;
            if s.len() > p {
                assert(s[s.len() - p - 1] < s[a] ==> s.len() - p - 1 < a) by {
                    if a <= s.len() - p - 1 {
                        if a < s.len() - p - 1 {
                            assert(s[a] < s[s.len() - p - 1]);
                        }
                    }
                }
            }
            assert(a >= s.len() - p);
        } else {
            assert(!unshadowed(levels, k, i));
            let m = choose|m: int| k < m < i && !(#[trigger] levels[m] > levels[k]);
            lemma_none_lower_between(levels, i, s, p, t, m);
        }
    }
}

/// Outline nesting follows heading levels: each heading's node sits inside
/// the node of the nearest earlier heading of a lower level, and at the top
/// when there is none.
pub proof fn law_outline_nests_under_nearest_lower_heading(levels: Seq<u8>, i: nat)
    requires
        i < levels.len(),
        levels.len() <= usize::MAX,
    ensures
        parent_of(levels, i) == nearest_lower(levels, i as int, i as int),
{
    lemma_stack_shape(levels, i);
    let s = stack_before(levels, i);
    let l = levels[i as int];
    lemma_pops_split(s, levels, l);
    let p = pops(s, levels, l);
    lemma_nearest_lower(levels, i as int, i as int);
    let t: int = if s.len() > p { s[s.len() - p - 1] as int } else { -1 };
    assert forall|k: int| t < k < i implies #[trigger] levels[k] >= l by {
        lemma_none_lower_between(levels, i as int, s, p, t, k);
    }
    if s.len() > p {
        assert(levels[t] < l);
        match nearest_lower(levels, i as int, i as int) {
            Some(m) => {
                assert(levels[m as int] < l);
                if (m as int) < t {
                    assert(levels[t] >= l);
                }
            },
            None => {
                assert(levels[t] >= l);
            },
        }
    } else {
        match nearest_lower(levels, i as int, i as int) {
            Some(m) => {
                assert(levels[m as int] >= l);
            },
            None => {},
        }
    }
}

/// The steps that build the outline of headings with these levels, in the
/// order the outline's nodes are opened and closed.
pub fn outline_ops(levels: &Vec<u8>) -> (r: Vec<OutlineOp>)
    ensures
        r@ == outline_ops_spec(levels@),
{
    let ghost lv = levels@;
    let mut ops: Vec<OutlineOp> = Vec::new();
    let mut stack: Vec<usize> = Vec::new();
    let mut i: usize = 0;
    while i < levels.len()
        invariant
            0 <= i <= levels.len(),
            lv == levels@,
            stack@ == stack_before(lv, i as nat),
            ops@ == ops_upto(lv, i as nat),
        decreases levels.len() - i,
    {
        proof {
            lemma_stack_below(lv, i as nat);
        }
        let ghost s0 = stack@;
        let ghost o0 = ops@;
        let l = levels[i];
        let ghost mut p: nat = 0;
        while stack.len() > 0 && levels[stack[stack.len() - 1]] >= l
            invariant
                lv == levels@,
                i < levels.len(),
                l == lv[i as int],
                p <= s0.len(),
                stack@ == s0.take(s0.len() - p),
                forall|j: int| 0 <= j < s0.len() ==> (#[trigger] s0[j]) < i,
                ops@ == o0 + closes(p),
                pops(s0, lv, l) == p + pops(stack@, lv, l),
            decreases stack.len(),
        {
            let ghost before = stack@;
            stack.pop();
            ops.push(OutlineOp::Close);
            proof {
                assert(before.drop_last() =~= s0.take(s0.len() - (p + 1)));
                assert(ops@ =~= o0 + closes(p + 1));
                p = p + 1;
            }
        }
        assert(pops(stack@, lv, l) == 0);
        ops.push(OutlineOp::Open(i));
        stack.push(i);
        proof {
            assert(ops@ =~= ops_upto(lv, (i + 1) as nat));
            assert(stack@ =~= stack_before(lv, (i + 1) as nat));
        }
        i += 1;
    }
    let ghost o1 = ops@;
    let ghost s1 = stack@;
    while stack.len() > 0
        invariant
            ops@ == o1 + closes((s1.len() - stack.len()) as nat),
            stack.len() <= s1.len(),
        decreases stack.len(),
    {
        stack.pop();
        ops.push(OutlineOp::Close);
        assert(ops@ =~= o1 + closes((s1.len() - stack.len()) as nat));
    }
    ops
}

// ---------------------------------------------------------------------------
// Laws
// ---------------------------------------------------------------------------

/// The runs of a text that starts at position `base` lie inside it, each
/// ending no later than the next one starts.
pub open spec fn runs_within(r: (Seq<char>, Seq<SpanV>), base: nat) -> bool {
    &&& forall|j: int|
        0 <= j < r.1.len() ==> base <= (#[trigger] r.1[j]).start && r.1[j].start <= r.1[j].end
            && r.1[j].end <= base + r.0.len()
    &&& forall|j: int, k: int| 0 <= j < k < r.1.len() ==> (#[trigger] r.1[j]).end <= (#[trigger] r.1[k]).start
}

proof fn lemma_runs_concat(a: (Seq<char>, Seq<SpanV>), b: (Seq<char>, Seq<SpanV>), base: nat)
    requires
        runs_within(a, base),
        runs_within(b, base + a.0.len()),
    ensures
        runs_within((a.0 + b.0, a.1 + b.1), base),
{
    let s = a.1 + b.1;
    let n = a.1.len();
    assert forall|j: int| 0 <= j < s.len() implies base <= (#[trigger] s[j]).start && s[j].start
        <= s[j].end && s[j].end <= base + (a.0 + b.0).len() by {
        if j < n {
            assert(s[j] == a.1[j]);
        } else {
            assert(s[j] == b.1[j - n]);
        }
    }
    assert forall|j: int, k: int| 0 <= j < k < s.len() implies (#[trigger] s[j]).end <= (
    #[trigger] s[k]).start by {
        if k < n {
            assert(s[j] == a.1[j] && s[k] == a.1[k]);
        } else if j >= n {
            assert(s[j] == b.1[j - n] && s[k] == b.1[k - n]);
        } else {
            assert(s[j] == a.1[j] && s[k] == b.1[k - n]);
        }
    }
}

proof fn lemma_pim_runs(cs: Seq<char>, i: int, base: nat)
    requires
        0 <= i,
    ensures
        runs_within(pim_from(cs, i, base), base),
    decreases cs.len() - i,
{
    if i < cs.len() {
        if cs[i] == '\\' && i + 1 < cs.len() {
            lemma_pim_runs(cs, i + 2, base + 1);
            lemma_runs_concat((seq![cs[i + 1]], Seq::empty()), pim_from(cs, i + 2, base + 1), base);
        } else if i + 1 < cs.len() && cs[i] == '*' && cs[i + 1] == '*' && fds_from(cs, i + 2) is Some {
            let end = fds_from(cs, i + 2).unwrap();
            if !(end < i + 2 || end + 2 > cs.len()) {
                let inner = unesc_from(cs.subrange(i + 2, end), 0);
                lemma_pim_runs(cs, end + 2, base + inner.len());
                lemma_runs_concat(
                    (inner, seq![styled(base, inner.len(), true, false)]),
                    pim_from(cs, end + 2, base + inner.len()),
                    base,
                );
            }
        } else if lone_star(cs, i) && fss_from(cs, i + 1) is Some {
            let end = fss_from(cs, i + 1).unwrap();
            if !(end < i + 1 || end + 1 > cs.len()) {
                let inner = unesc_from(cs.subrange(i + 1, end), 0);
                lemma_pim_runs(cs, end + 1, base + inner.len());
                lemma_runs_concat(
                    (inner, seq![styled(base, inner.len(), false, true)]),
                    pim_from(cs, end + 1, base + inner.len()),
                    base,
                );
            }
        } else {
            lemma_pim_runs(cs, i + 1, base + 1);
            lemma_runs_concat((seq![cs[i]], Seq::empty()), pim_from(cs, i + 1, base + 1), base);
        }
    }
}

/// The runs found in stat-block or boxed text lie inside the text and do not
/// overlap, in order.
pub proof fn law_markdown_runs_lie_within_text(text: Seq<char>)
    ensures
        runs_within(inline_markdown_runs(text), 0),
{
    lemma_pim_runs(typography(text), 0, 0);
}

proof fn lemma_walk_runs(x: InlineV, base: nat, bold: bool, italic: bool)
    ensures
        runs_within(walk(x, base, bold, italic), base),
    decreases x,
{
    match x {
        InlineV::Emphasis(v) => lemma_walks_runs(v, base, bold, true),
        InlineV::Strong(v) => lemma_walks_runs(v, base, true, italic),
        InlineV::Link { text, .. } => lemma_walks_runs(text, base, bold, italic),
        _ => {},
    }
}

proof fn lemma_walks_runs(s: Seq<InlineV>, base: nat, bold: bool, italic: bool)
    ensures
        runs_within(walks(s, base, bold, italic), base),
    decreases s,
{
    if s.len() > 0 {
        let a = walks(s.drop_last(), base, bold, italic);
        lemma_walks_runs(s.drop_last(), base, bold, italic);
        lemma_walk_runs(s.last(), base + a.0.len(), bold, italic);
        lemma_runs_concat(a, walk(s.last(), base + a.0.len(), bold, italic), base);
    }
}

/// The runs collected from a paragraph's inlines lie inside its text and do
/// not overlap, in order.
pub proof fn law_paragraph_runs_lie_within_text(inlines: Seq<InlineV>)
    ensures
        runs_within(walks(inlines, 0, false, false), 0),
{
    lemma_walks_runs(inlines, 0, false, false);
}

/// Adjacent page breaks make one: a second break with nothing laid out in
/// between changes nothing, so no blank page appears between them.
pub proof fn law_adjacent_page_breaks_merge(st: TrackStateV)
    ensures
        break_page(break_page(st)) == break_page(st),
{
}

proof fn lemma_blocks_in_push(tracks: Seq<TrackMark>, t: TrackMark)
    ensures
        blocks_in(tracks.push(t)) == blocks_in(tracks) + t.blocks,
{
    assert(tracks.push(t).drop_last() =~= tracks);
}

/// Planning an element loses no block and invents none: every block laid
/// out so far is in exactly one track or still pending.
pub proof fn law_planning_keeps_every_block(st: TrackStateV, e: ElementV)
    requires
        st.pending <= usize::MAX,
    ensures
        placed(plan(st, e).0) == placed(st),
        placed(flush_pending(st)) == placed(st),
{
    let m = TrackMark { columns: st.columns, blocks: st.pending as usize, page_break_after: false };
    lemma_blocks_in_push(st.tracks, m);
    let m2 = TrackMark { columns: st.columns, blocks: st.pending as usize, page_break_after: true };
    lemma_blocks_in_push(st.tracks, m2);
}

/// An element that neither switches columns, breaks the page, opens the
/// license appendix nor spans the page as a top-level banner is laid out at
/// the width of the columns currently set, and changes nothing.
pub proof fn law_flow_width_is_current_columns(st: TrackStateV, e: ElementV)
    requires
        !(e is ColumnLayout),
        !(e is PageBreak),
        !(e is License),
        !(e matches ElementV::Heading { level, .. } && level == 1 && st.columns == 2),
    ensures
        plan(st, e) == (st, Placement::Flow(st.columns)),
{
}

/// A column directive sets the width of what follows: after
/// `ColumnLayout(n)`, an element that is not itself a directive, page break,
/// license or banner flows in one column when `n` is at most 1 and in two
/// otherwise, whatever the column count was before.
pub proof fn law_column_directive_sets_flow_width(st: TrackStateV, n: u8, e: ElementV)
    requires
        !(e is ColumnLayout),
        !(e is PageBreak),
        !(e is License),
        !(e matches ElementV::Heading { level, .. } && level == 1),
    ensures
        plan(st, ElementV::ColumnLayout(n)).1 == Placement::Skip,
        plan(st, ElementV::ColumnLayout(n)).0.columns == (if n <= 1 {
            1u8
        } else {
            2u8
        }),
        plan(plan(st, ElementV::ColumnLayout(n)).0, e).1 == Placement::Flow(
            if n <= 1 {
                1u8
            } else {
                2u8
            },
        ),
{
}

} // verus!
