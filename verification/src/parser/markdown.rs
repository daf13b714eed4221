//! Builds the document tree from the CommonMark event stream.

use vstd::prelude::*;

use crate::ast::{
    element_v, elements_v, image_v, inline_v, inlines_v, item_v, items_v, lemma_element_v_unfold,
    lemma_inline_v_unfold, opt_str_v, strings_v, Alignment, Document, Element, ElementV, Inline,
    InlineV, ListItem, ListItemV, Table, TableV,
};
use crate::parser::cmark::{cmark_events, markdown_events, MdEvent, MdTag, MdTagEnd};
use crate::parser::extensions::{
    code_block_type_v, detect_code_block_type, image_attributes_readable, image_spec,
    is_page_break, parse_boxed_text, parse_column_layout, parse_license,
    parse_image_attributes, CodeBlockType,
};
use crate::error::SieveError;
use crate::parser::markdown_spec::{
    add_inline, add_to_item, code_block_element, fenced_inner, inline_source, inlines_source,
    is_line_break, is_slash_fence, paragraph_element, slash_fenced, document_of, html_block_element, run, step, empty_list, end_tag, image_info, image_marker, inline_text, inlines_text,
    is_image_marker, is_link_marker, link_info, link_marker, pop_ctx, push_ctx, start_tag,
    state_init, with_inline, ListStateV, MdEventV, MdTagEndV, MdTagV, StateV, TableStateV,
};
use crate::text::{
    chars_of, ends_with_exec, eq_chars, find_char_from_exec, lemma_find_char_from_bounds, push_char,
    push_str,
    slice_chars, starts_with_exec, string_of, trim_chars,
};

verus! {

// ---------------------------------------------------------------------------
// Views of the event stream
// ---------------------------------------------------------------------------

pub open spec fn tag_v(t: MdTag) -> MdTagV {
    match t {
        MdTag::Paragraph => MdTagV::Paragraph,
        MdTag::Heading(l) => MdTagV::Heading(l),
        MdTag::BlockQuote => MdTagV::BlockQuote,
        MdTag::CodeBlock(i) => MdTagV::CodeBlock(opt_str_v(i)),
        MdTag::HtmlBlock => MdTagV::HtmlBlock,
        MdTag::List(s) => MdTagV::List(s),
        MdTag::Item => MdTagV::Item,
        MdTag::FootnoteDefinition(s) => MdTagV::FootnoteDefinition(s@),
        MdTag::Table(a) => MdTagV::Table(a@),
        MdTag::TableHead => MdTagV::TableHead,
        MdTag::TableRow => MdTagV::TableRow,
        MdTag::TableCell => MdTagV::TableCell,
        MdTag::Emphasis => MdTagV::Emphasis,
        MdTag::Strong => MdTagV::Strong,
        MdTag::Strikethrough => MdTagV::Strikethrough,
        MdTag::Link { dest_url, title } => MdTagV::Link { dest_url: dest_url@, title: title@ },
        MdTag::Image { dest_url, title } => MdTagV::Image { dest_url: dest_url@, title: title@ },
        MdTag::MetadataBlock => MdTagV::MetadataBlock,
    }
}

pub open spec fn tag_end_v(t: MdTagEnd) -> MdTagEndV {
    match t {
        MdTagEnd::Paragraph => MdTagEndV::Paragraph,
        MdTagEnd::Heading(l) => MdTagEndV::Heading(l),
        MdTagEnd::BlockQuote => MdTagEndV::BlockQuote,
        MdTagEnd::CodeBlock => MdTagEndV::CodeBlock,
        MdTagEnd::HtmlBlock => MdTagEndV::HtmlBlock,
        MdTagEnd::List(b) => MdTagEndV::List(b),
        MdTagEnd::Item => MdTagEndV::Item,
        MdTagEnd::FootnoteDefinition => MdTagEndV::FootnoteDefinition,
        MdTagEnd::Table => MdTagEndV::Table,
        MdTagEnd::TableHead => MdTagEndV::TableHead,
        MdTagEnd::TableRow => MdTagEndV::TableRow,
        MdTagEnd::TableCell => MdTagEndV::TableCell,
        MdTagEnd::Emphasis => MdTagEndV::Emphasis,
        MdTagEnd::Strong => MdTagEndV::Strong,
        MdTagEnd::Strikethrough => MdTagEndV::Strikethrough,
        MdTagEnd::Link => MdTagEndV::Link,
        MdTagEnd::Image => MdTagEndV::Image,
        MdTagEnd::MetadataBlock => MdTagEndV::MetadataBlock,
    }
}

pub open spec fn event_v(e: MdEvent) -> MdEventV {
    match e {
        MdEvent::Start(t) => MdEventV::Start(tag_v(t)),
        MdEvent::End(t) => MdEventV::End(tag_end_v(t)),
        MdEvent::Text(s) => MdEventV::Text(s@),
        MdEvent::Code(s) => MdEventV::Code(s@),
        MdEvent::Html(s) => MdEventV::Html(s@),
        MdEvent::InlineHtml(s) => MdEventV::InlineHtml(s@),
        MdEvent::FootnoteReference(s) => MdEventV::FootnoteReference(s@),
        MdEvent::SoftBreak => MdEventV::SoftBreak,
        MdEvent::HardBreak => MdEventV::HardBreak,
        MdEvent::Rule => MdEventV::Rule,
        MdEvent::TaskListMarker(b) => MdEventV::TaskListMarker(b),
    }
}

pub open spec fn events_v(s: Seq<MdEvent>) -> Seq<MdEventV> {
    Seq::new(s.len(), |i: int| event_v(s[i]))
}

// ---------------------------------------------------------------------------
// Parser state
// ---------------------------------------------------------------------------

struct ListState {
    ordered: bool,
    items: Vec<ListItem>,
    current_item: Vec<Element>,
    current_task: Option<bool>,
}

struct TableState {
    headers: Vec<String>,
    alignments: Vec<Alignment>,
    rows: Vec<Vec<String>>,
    current_row: Vec<String>,
    current_cell: String,
    in_head: bool,
}

struct ParserState {
    /// Stack of inline content being built
    inline_stack: Vec<Vec<Inline>>,
    /// Current code block info
    code_block_type: Option<CodeBlockType>,
    code_block_content: String,
    /// List state
    list_stack: Vec<ListState>,
    /// Table state
    table_state: Option<TableState>,
    /// Blockquote content
    blockquote_content: Vec<Element>,
    /// Track nesting level
    in_blockquote: bool,
}

spec fn list_v(l: ListState) -> ListStateV {
    ListStateV {
        ordered: l.ordered,
        items: items_v(l.items@),
        current_item: elements_v(l.current_item@),
        current_task: l.current_task,
    }
}

spec fn rows_v(rows: Seq<Vec<String>>) -> Seq<Seq<Seq<char>>> {
    Seq::new(rows.len(), |i: int| strings_v(rows[i]@))
}

spec fn table_state_v(t: TableState) -> TableStateV {
    TableStateV {
        headers: strings_v(t.headers@),
        alignments: t.alignments@,
        rows: rows_v(t.rows@),
        current_row: strings_v(t.current_row@),
        current_cell: t.current_cell@,
        in_head: t.in_head,
    }
}

spec fn stack_v(s: Seq<Vec<Inline>>) -> Seq<Seq<InlineV>> {
    Seq::new(s.len(), |i: int| inlines_v(s[i]@))
}

spec fn lists_v(s: Seq<ListState>) -> Seq<ListStateV> {
    Seq::new(s.len(), |i: int| list_v(s[i]))
}

impl ParserState {
    spec fn view_state(&self) -> StateV {
        StateV {
            inline_stack: stack_v(self.inline_stack@),
            code_block_type: match self.code_block_type {
                Some(t) => Some(code_block_type_v(t)),
                None => None,
            },
            code_block_content: self.code_block_content@,
            list_stack: lists_v(self.list_stack@),
            table_state: match self.table_state {
                Some(t) => Some(table_state_v(t)),
                None => None,
            },
            blockquote_content: elements_v(self.blockquote_content@),
            in_blockquote: self.in_blockquote,
        }
    }

    fn new() -> (s: Self)
        ensures
            s.view_state() == state_init(),
    {
        let s = Self {
            inline_stack: Vec::new(),
            code_block_type: None,
            code_block_content: String::new(),
            list_stack: Vec::new(),
            table_state: None,
            blockquote_content: Vec::new(),
            in_blockquote: false,
        };
        assert(s.view_state() =~= state_init());
        s
    }

    fn push_inline_context(&mut self)
        ensures
            final(self).view_state() == push_ctx(old(self).view_state()),
    {
        let fresh: Vec<Inline> = Vec::new();
        assert(inlines_v(fresh@) =~= Seq::<InlineV>::empty());
        self.inline_stack.push(fresh);
        assert(stack_v(self.inline_stack@) =~= stack_v(old(self).inline_stack@).push(
            Seq::<InlineV>::empty(),
        ));
        assert(self.view_state() =~= push_ctx(old(self).view_state()));
    }

    fn pop_inline_context(&mut self) -> (r: Vec<Inline>)
        ensures
            (inlines_v(r@), final(self).view_state().inline_stack) == pop_ctx(
                old(self).view_state().inline_stack,
            ),
            final(self).view_state() == (StateV {
                inline_stack: final(self).view_state().inline_stack,
                ..old(self).view_state()
            }),
    {
        let r = match self.inline_stack.pop() {
            Some(v) => v,
            None => Vec::new(),
        };
        assert(self.view_state().inline_stack =~= pop_ctx(old(self).view_state().inline_stack).1);
        assert(inlines_v(r@) =~= pop_ctx(old(self).view_state().inline_stack).0);
        assert(self.view_state() =~= StateV {
            inline_stack: self.view_state().inline_stack,
            ..old(self).view_state()
        });
        r
    }

    fn current_inlines(&mut self) -> (r: &mut Vec<Inline>)
        ensures
            old(self).inline_stack.len() == 0 ==> r@.len() == 0,
            old(self).inline_stack.len() > 0 ==> *r == old(self).inline_stack@.last(),
            final(self).inline_stack@ == (if old(self).inline_stack.len() == 0 {
                seq![*final(r)]
            } else {
                old(self).inline_stack@.update(old(self).inline_stack.len() - 1, *final(r))
            }),
            final(self).code_block_type == old(self).code_block_type,
            final(self).code_block_content == old(self).code_block_content,
            final(self).list_stack == old(self).list_stack,
            final(self).table_state == old(self).table_state,
            final(self).blockquote_content == old(self).blockquote_content,
            final(self).in_blockquote == old(self).in_blockquote,
    {
        if self.inline_stack.len() == 0 {
            self.inline_stack.push(Vec::new());
        }
        let n = self.inline_stack.len();
        &mut self.inline_stack[n - 1]
    }

    fn add_inline(&mut self, inline: Inline)
        ensures
            final(self).view_state() == with_inline(old(self).view_state(), inline_v(inline)),
    {
        let ghost old_stack = self.inline_stack@;
        let top = self.current_inlines();
        top.push(inline);
        proof {
            let st = old(self).view_state();
            let ns = self.view_state();
            assert(ns.inline_stack =~= add_inline(st.inline_stack, inline_v(inline))) by {
                if old_stack.len() == 0 {
                    assert(self.inline_stack@[0]@ =~= seq![inline]);
                    assert(inlines_v(self.inline_stack@[0]@) =~= seq![inline_v(inline)]);
                } else {
                    let k = old_stack.len() - 1;
                    assert(inlines_v(self.inline_stack@[k]@) =~= st.inline_stack.last().push(
                        inline_v(inline),
                    ));
                }
            }
            assert(ns =~= with_inline(st, inline_v(inline)));
        }
    }
}


proof fn lemma_elements_v_push(v: Seq<Element>, e: Element)
    ensures
        elements_v(v.push(e)) == elements_v(v).push(element_v(e)),
{
    assert(elements_v(v.push(e)) =~= elements_v(v).push(element_v(e)));
}

proof fn lemma_inlines_v_push(v: Seq<Inline>, x: Inline)
    ensures
        inlines_v(v.push(x)) == inlines_v(v).push(inline_v(x)),
{
    assert(inlines_v(v.push(x)) =~= inlines_v(v).push(inline_v(x)));
}

impl ParserState {
    /// Adds `e` to the current item of the innermost list, if there is one.
    fn add_to_current_item(&mut self, e: Element)
        ensures
            final(self).view_state() == (StateV {
                list_stack: add_to_item(old(self).view_state().list_stack, element_v(e)),
                ..old(self).view_state()
            }),
    {
        let ghost old_lists = self.list_stack@;
        match self.list_stack.pop() {
            Some(mut l) => {
                let ghost l0 = l;
                proof {
                    lemma_elements_v_push(l.current_item@, e);
                }
                l.current_item.push(e);
                self.list_stack.push(l);
                proof {
                    let n = old_lists.len() - 1;
                    assert(self.list_stack@ == old_lists.update(n, l));
                    assert(list_v(l) =~= ListStateV {
                        current_item: list_v(l0).current_item.push(element_v(e)),
                        ..list_v(l0)
                    });
                    assert(lists_v(self.list_stack@) =~= add_to_item(
                        lists_v(old_lists),
                        element_v(e),
                    ));
                }
            },
            None => {
                assert(lists_v(self.list_stack@) =~= add_to_item(lists_v(old_lists), element_v(e)));
            },
        }
        assert(self.view_state() =~= StateV {
            list_stack: add_to_item(old(self).view_state().list_stack, element_v(e)),
            ..old(self).view_state()
        });
    }
}

/// The plain text of inlines: link and image markers and images are dropped,
/// breaks become spaces.
fn inlines_to_string(inlines: &Vec<Inline>) -> (r: String)
    ensures
        r@ == inlines_text(inlines_v(inlines@)),
    decreases inlines,
{
    let ghost sv = inlines_v(inlines@);
    let mut result = String::new();
    let mut k: usize = 0;
    while k < inlines.len()
        invariant
            0 <= k <= inlines.len(),
            sv == inlines_v(inlines@),
            result@ == inlines_text(sv.take(k as int)),
        decreases inlines.len() - k,
    {
        let ghost prev = result@;
        proof {
            assert(sv.take(k as int + 1).drop_last() =~= sv.take(k as int));
            lemma_inline_v_unfold(inlines@[k as int]);
        }
        match &inlines[k] {
            Inline::Text(text) => {
                let cs = chars_of(text.as_str());
                if !(cs.len() > 0 && cs[0] == '\0') {
                    push_str(&mut result, text.as_str());
                }
            },
            Inline::Emphasis(inner) => {
                let t = inlines_to_string(inner);
                push_str(&mut result, t.as_str());
            },
            Inline::Strong(inner) => {
                let t = inlines_to_string(inner);
                push_str(&mut result, t.as_str());
            },
            Inline::Code(code) => {
                push_str(&mut result, code.as_str());
            },
            Inline::Link { text, .. } => {
                let t = inlines_to_string(text);
                push_str(&mut result, t.as_str());
            },
            Inline::SoftBreak | Inline::HardBreak => {
                push_char(&mut result, ' ');
            },
            Inline::Image(_) => {},
        }
        assert(result@ =~= prev + inline_text(sv[k as int]));
        k += 1;
    }
    assert(sv.take(k as int) =~= sv);
    result
}

/// Splits a link's inline context into the URL of its marker and the
/// remaining inlines, in order.
fn extract_link_info(inlines: Vec<Inline>) -> (r: (String, Vec<Inline>))
    ensures
        (r.0@, inlines_v(r.1@)) == link_info(inlines_v(inlines@), inlines@.len() as int),
{
    let ghost sv = inlines_v(inlines@);
    let ghost n = inlines@.len();
    let mut rest = inlines;
    // Reverse the vector so that popping yields the inlines in order.
    let mut rev: Vec<Inline> = Vec::new();
    while rest.len() > 0
        invariant
            rest.len() + rev.len() == n,
            n == inlines@.len(),
            rest@ == inlines@.take(rest.len() as int),
            forall|i: int| 0 <= i < rev.len() ==> rev@[i] == inlines@[n - 1 - i],
        decreases rest.len(),
    {
        let ghost before = rest@;
        let x = rest.pop().unwrap();
        assert(x == inlines@[rest.len() as int]);
        assert(rest@ =~= inlines@.take(rest.len() as int));
        rev.push(x);
    }
    let mut url = String::new();
    let mut text: Vec<Inline> = Vec::new();
    let ghost mut k: int = 0;
    while rev.len() > 0
        invariant
            k + rev.len() == n,
            0 <= k <= n,
            sv == inlines_v(inlines@),
            n == inlines@.len(),
            forall|i: int| 0 <= i < rev.len() ==> rev@[i] == inlines@[n - 1 - i],
            (url@, inlines_v(text@)) == link_info(sv, k),
        decreases rev.len(),
    {
        let x = rev.pop().unwrap();
        assert(x == inlines@[k]);
        assert(sv[k] == inline_v(x));
        let mut is_marker = false;
        if let Inline::Text(t) = &x {
            let cs = chars_of(t.as_str());
            let p = chars_of("\0LINK:");
            let z = chars_of("\0");
            proof {
                reveal_strlit("\0");
                reveal_strlit("\0LINK:");
            }
            let b1 = starts_with_exec(&cs, &p);
            let b2 = ends_with_exec(&cs, &z);
            assert(sv[k] == InlineV::Text(t@));
            assert(z@ =~= seq!['\0']);
            assert(cs@ == t@);
            assert((b1 && b2) == is_link_marker(t@));
            if b1 && b2 {
                assert(p@ == "\0LINK:"@);
                assert(p@[5] == ':' && p@.len() == 6);
                assert(cs@.subrange(0, 6)[5] == cs@[5]);
                assert(z@ == "\0"@ && z@.len() == 1 && z@[0] == '\0');
                assert(cs@.subrange(cs@.len() - 1, cs@.len() as int)[0] == cs@[cs@.len() - 1]);
                assert(cs@.len() >= 7);
                let u = slice_chars(&cs, 6, cs.len() - 1);
                url = string_of(u.as_slice());
                is_marker = true;
                assert(link_info(sv, k + 1) == (t@.subrange(6, t@.len() - 1), link_info(sv, k).1));
            }
        }
        if !is_marker {
            assert(link_info(sv, k + 1) == (link_info(sv, k).0, link_info(sv, k).1.push(sv[k])));
            proof {
                lemma_inlines_v_push(text@, x);
            }
            text.push(x);
        }
        proof {
            k = k + 1;
        }
        assert((url@, inlines_v(text@)) == link_info(sv, k));
    }
    (url, text)
}

/// The path and title of the first image marker whose content has a `:`.
fn extract_image_info(inlines: &Vec<Inline>) -> (r: Option<(String, String)>)
    ensures
        match image_info(inlines_v(inlines@), 0) {
            Some((p, t)) => r matches Some((rp, rt)) && rp@ == p && rt@ == t,
            None => r is None,
        },
{
    let ghost sv = inlines_v(inlines@);
    let mut k: usize = 0;
    while k < inlines.len()
        invariant
            0 <= k <= inlines.len(),
            sv == inlines_v(inlines@),
            image_info(sv, 0) == image_info(sv, k as int),
        decreases inlines.len() - k,
    {
        assert(sv[k as int] == inline_v(inlines@[k as int]));
        if let Inline::Text(t) = &inlines[k] {
            let cs = chars_of(t.as_str());
            let p = chars_of("\0IMAGE:");
            let z = chars_of("\0");
            proof {
                reveal_strlit("\0IMAGE:");
                reveal_strlit("\0");
            }
            let b1 = starts_with_exec(&cs, &p);
            let b2 = ends_with_exec(&cs, &z);
            assert(sv[k as int] == InlineV::Text(t@));
            assert(z@ =~= seq!['\0']);
            assert(cs@ == t@);
            assert((b1 && b2) == is_image_marker(t@));
            if b1 && b2 {
                assert(p@ == "\0IMAGE:"@);
                assert(p@[6] == ':' && p@.len() == 7);
                assert(cs@.subrange(0, 7)[6] == cs@[6]);
                assert(z@ == "\0"@ && z@.len() == 1 && z@[0] == '\0');
                assert(cs@.subrange(cs@.len() - 1, cs@.len() as int)[0] == cs@[cs@.len() - 1]);
                assert(cs@.len() >= 8);
                let content = slice_chars(&cs, 7, cs.len() - 1);
                match find_char_from_exec(&content, ':', 0) {
                    Some(c) => {
                        proof {
                            lemma_find_char_from_bounds(content@, ':', 0);
                        }
                        let path = slice_chars(&content, 0, c);
                        let title = slice_chars(&content, c + 1, content.len());
                        assert(path@ =~= content@.take(c as int));
                        assert(title@ =~= content@.skip(c as int + 1));
                        assert(image_info(sv, k as int) == Some((path@, title@)));
                        return Some((string_of(path.as_slice()), string_of(title.as_slice())));
                    },
                    None => {
                        assert(image_info(sv, k as int) == image_info(sv, k + 1));
                    },
                }
            } else {
                assert(image_info(sv, k as int) == image_info(sv, k + 1));
            }
        } else {
            assert(image_info(sv, k as int) == image_info(sv, k + 1));
        }
        k += 1;
    }
    None
}


fn link_marker_string(url: &String) -> (r: String)
    ensures
        r@ == link_marker(url@),
{
    let mut m = String::new();
    push_str(&mut m, "\0LINK:");
    push_str(&mut m, url.as_str());
    push_char(&mut m, '\0');
    assert(m@ =~= link_marker(url@));
    m
}

fn image_marker_string(url: &String, title: &String) -> (r: String)
    ensures
        r@ == image_marker(url@, title@),
{
    let mut m = String::new();
    push_str(&mut m, "\0IMAGE:");
    push_str(&mut m, url.as_str());
    push_char(&mut m, ':');
    push_str(&mut m, title.as_str());
    push_char(&mut m, '\0');
    assert(m@ =~= image_marker(url@, title@));
    m
}

fn process_start_tag(tag: MdTag, state: &mut ParserState)
    ensures
        final(state).view_state() == start_tag(tag_v(tag), old(state).view_state()),
{
    let ghost st = state.view_state();
    match tag {
        MdTag::Paragraph => state.push_inline_context(),
        MdTag::Heading(_) => state.push_inline_context(),
        MdTag::Item => state.push_inline_context(),
        MdTag::Emphasis => state.push_inline_context(),
        MdTag::Strong => state.push_inline_context(),
        MdTag::CodeBlock(info) => {
            let info_s = match info {
                Some(i) => i,
                None => String::new(),
            };
            state.code_block_type = Some(detect_code_block_type(info_s.as_str()));
            state.code_block_content = String::new();
            assert(state.view_state() =~= start_tag(tag_v(tag), st));
        },
        MdTag::BlockQuote => {
            state.in_blockquote = true;
            state.blockquote_content = Vec::new();
            assert(state.view_state() =~= start_tag(tag_v(tag), st));
        },
        MdTag::List(start) => {
            // Inline text pending in an enclosing item goes before the nested list.
            if state.list_stack.len() > 0 && state.inline_stack.len() > 0 {
                let inlines = state.pop_inline_context();
                state.push_inline_context();
                if inlines.len() > 0 {
                    state.add_to_current_item(Element::Paragraph(inlines));
                }
            }
            let ghost st1 = state.view_state();
            let fresh = ListState {
                ordered: start.is_some(),
                items: Vec::new(),
                current_item: Vec::new(),
                current_task: None,
            };
            assert(list_v(fresh) =~= empty_list(start is Some));
            let ghost old_lists = state.list_stack@;
            state.list_stack.push(fresh);
            assert(lists_v(state.list_stack@) =~= lists_v(old_lists).push(list_v(fresh)));
            assert(state.view_state() =~= start_tag(tag_v(tag), st));
        },
        MdTag::Table(alignments) => {
            let t = TableState {
                headers: Vec::new(),
                alignments,
                rows: Vec::new(),
                current_row: Vec::new(),
                current_cell: String::new(),
                in_head: false,
            };
            assert(strings_v(t.headers@) =~= Seq::<Seq<char>>::empty());
            assert(strings_v(t.current_row@) =~= Seq::<Seq<char>>::empty());
            assert(rows_v(t.rows@) =~= Seq::<Seq<Seq<char>>>::empty());
            state.table_state = Some(t);
            assert(state.view_state() =~= start_tag(tag_v(tag), st));
        },
        MdTag::TableHead => {
            if let Some(mut t) = state.table_state.take() {
                t.in_head = true;
                state.table_state = Some(t);
            }
            assert(state.view_state() =~= start_tag(tag_v(tag), st));
        },
        MdTag::TableRow => {
            if let Some(mut t) = state.table_state.take() {
                t.current_row = Vec::new();
                assert(strings_v(t.current_row@) =~= Seq::<Seq<char>>::empty());
                state.table_state = Some(t);
            }
            assert(state.view_state() =~= start_tag(tag_v(tag), st));
        },
        MdTag::TableCell => {
            if let Some(mut t) = state.table_state.take() {
                t.current_cell = String::new();
                state.table_state = Some(t);
            }
            assert(state.view_state() =~= start_tag(tag_v(tag), st));
        },
        MdTag::Link { dest_url, .. } => {
            state.push_inline_context();
            let m = link_marker_string(&dest_url);
            state.add_inline(Inline::Text(m));
        },
        MdTag::Image { dest_url, title } => {
            state.push_inline_context();
            let m = image_marker_string(&dest_url, &title);
            state.add_inline(Inline::Text(m));
        },
        _ => {},
    }
}


proof fn lemma_strings_v_push(v: Seq<String>, x: String)
    ensures
        strings_v(v.push(x)) == strings_v(v).push(x@),
{
    assert(strings_v(v.push(x)) =~= strings_v(v).push(x@));
}

proof fn lemma_items_v_push(v: Seq<ListItem>, x: ListItem)
    ensures
        items_v(v.push(x)) == items_v(v).push(item_v(x)),
{
    assert(items_v(v.push(x)) =~= items_v(v).push(item_v(x)));
}

/// The element a finished code block becomes.
fn finish_code_block(bt: CodeBlockType, content: String) -> (r: Element)
    ensures
        element_v(r) == code_block_element(code_block_type_v(bt), content@),
{
    match bt {
        CodeBlockType::StatBlock => Element::StatBlock(
            string_of(trim_chars(&chars_of(content.as_str())).as_slice()),
        ),
        CodeBlockType::Boxed => Element::BoxedText(parse_boxed_text(content.as_str())),
        CodeBlockType::Regular(lang) => Element::CodeBlock { language: lang, code: content },
    }
}

/// The message of a parse failure on an image's attribute list.
pub open spec fn image_error_message(path: Seq<char>) -> Seq<char> {
    "image attributes cannot be read in '"@ + path + "'"@
}

fn image_error(path: &String) -> (r: SieveError)
    ensures
        r matches SieveError::ParseMarkdown(m) && m@ == image_error_message(path@),
{
    let mut m = String::new();
    push_str(&mut m, "image attributes cannot be read in '");
    push_str(&mut m, path.as_str());
    push_str(&mut m, "'");
    assert(m@ =~= image_error_message(path@));
    SieveError::ParseMarkdown(m)
}

/// The markdown inlines `a..b` were read from (see `inline_source`).
fn source_of(inlines: &Vec<Inline>, a: usize, b: usize) -> (r: String)
    requires
        a <= b <= inlines.len(),
    ensures
        r@ == inlines_source(inlines_v(inlines@).subrange(a as int, b as int)),
    decreases inlines,
{
    let ghost sv = inlines_v(inlines@);
    let mut out = String::new();
    let mut k: usize = a;
    assert(sv.subrange(a as int, a as int) =~= Seq::<InlineV>::empty());
    while k < b
        invariant
            a <= k <= b <= inlines.len(),
            sv == inlines_v(inlines@),
            out@ == inlines_source(sv.subrange(a as int, k as int)),
        decreases b - k,
    {
        let ghost prev = out@;
        proof {
            assert(sv.subrange(a as int, k + 1).drop_last() =~= sv.subrange(a as int, k as int));
            assert(sv.subrange(a as int, k + 1).last() == sv[k as int]);
            lemma_inline_v_unfold(inlines@[k as int]);
        }
        match &inlines[k] {
            Inline::Text(t) => {
                push_str(&mut out, t.as_str());
            },
            Inline::Code(c) => {
                push_char(&mut out, '`');
                push_str(&mut out, c.as_str());
                push_char(&mut out, '`');
            },
            Inline::Emphasis(inner) => {
                let t = source_of(inner, 0, inner.len());
                assert(inlines_v(inner@).subrange(0, inner@.len() as int) =~= inlines_v(inner@));
                push_char(&mut out, '*');
                push_str(&mut out, t.as_str());
                push_char(&mut out, '*');
            },
            Inline::Strong(inner) => {
                let t = source_of(inner, 0, inner.len());
                assert(inlines_v(inner@).subrange(0, inner@.len() as int) =~= inlines_v(inner@));
                push_str(&mut out, "**");
                push_str(&mut out, t.as_str());
                push_str(&mut out, "**");
            },
            Inline::Link { text, url } => {
                let t = source_of(text, 0, text.len());
                assert(inlines_v(text@).subrange(0, text@.len() as int) =~= inlines_v(text@));
                push_char(&mut out, '[');
                push_str(&mut out, t.as_str());
                push_str(&mut out, "](");
                push_str(&mut out, url.as_str());
                push_char(&mut out, ')');
            },
            Inline::Image(im) => {
                push_str(&mut out, "![");
                push_str(&mut out, im.alt.as_str());
                push_str(&mut out, "](");
                push_str(&mut out, im.path.as_str());
                push_char(&mut out, ')');
            },
            Inline::SoftBreak | Inline::HardBreak => {
                push_char(&mut out, '\n');
            },
        }
        assert(out@ =~= prev + inline_source(sv[k as int]));
        k += 1;
    }
    out
}

fn is_fence_text(x: &Inline) -> (r: bool)
    ensures
        r == is_slash_fence(inline_v(*x)),
{
    match x {
        Inline::Text(t) => {
            let cs = chars_of(t.as_str());
            let f = chars_of("///");
            proof {
                reveal_strlit("///");
            }
            eq_chars(&cs, &f)
        },
        _ => false,
    }
}

fn is_break(x: &Inline) -> (r: bool)
    ensures
        r == is_line_break(inline_v(*x)),
{
    match x {
        Inline::SoftBreak | Inline::HardBreak => true,
        _ => false,
    }
}

/// The element a finished paragraph becomes: a stat block between two `///`
/// lines, else the paragraph.
fn finish_paragraph(inlines: Vec<Inline>) -> (r: Element)
    ensures
        element_v(r) == paragraph_element(inlines_v(inlines@)),
{
    let ghost sv = inlines_v(inlines@);
    let n = inlines.len();
    if n >= 3 && is_fence_text(&inlines[0]) && is_break(&inlines[1]) && is_fence_text(
        &inlines[n - 1],
    ) && is_break(&inlines[n - 2]) {
        assert(slash_fenced(sv));
        let src = if n >= 4 {
            source_of(&inlines, 2, n - 2)
        } else {
            assert(Seq::<InlineV>::empty() =~= fenced_inner(sv));
            String::new()
        };
        Element::StatBlock(string_of(trim_chars(&chars_of(src.as_str())).as_slice()))
    } else {
        assert(!slash_fenced(sv));
        Element::Paragraph(inlines)
    }
}

fn process_end_tag(tag: MdTagEnd, document: &mut Document, state: &mut ParserState) -> (r: Result<
    (),
    SieveError,
>)
    ensures
        match end_tag(tag_end_v(tag), old(document)@, old(state).view_state()) {
            Some((d, s)) => r is Ok && final(document)@ == d && final(state).view_state() == s,
            None => r matches Err(SieveError::ParseMarkdown(_)),
        },
{
    let ghost st = state.view_state();
    let ghost doc0 = document@;
    match tag {
        MdTagEnd::Paragraph => {
            let inlines = state.pop_inline_context();
            if inlines.len() > 0 {
                let e = finish_paragraph(inlines);
                if state.in_blockquote {
                    let ghost old_bq = state.blockquote_content@;
                    proof {
                        lemma_elements_v_push(old_bq, e);
                    }
                    state.blockquote_content.push(e);
                    assert(state.view_state() =~= StateV {
                        blockquote_content: st.blockquote_content.push(element_v(e)),
                        inline_stack: pop_ctx(st.inline_stack).1,
                        ..st
                    });
                } else if state.list_stack.len() > 0 {
                    state.add_to_current_item(e);
                } else {
                    document.push(e);
                }
            }
            Ok(())
        },
        MdTagEnd::Heading(level) => {
            let inlines = state.pop_inline_context();
            let text = inlines_to_string(&inlines);
            document.push(Element::Heading { level, text });
            Ok(())
        },
        MdTagEnd::CodeBlock => {
            if let Some(bt) = state.code_block_type.take() {
                let mut content = String::new();
                std::mem::swap(&mut content, &mut state.code_block_content);
                let element = finish_code_block(bt, content);
                document.push(element);
            }
            assert(state.view_state() =~= end_tag(tag_end_v(tag), doc0, st).unwrap().1);
            Ok(())
        },
        MdTagEnd::BlockQuote => {
            state.in_blockquote = false;
            let mut content: Vec<Element> = Vec::new();
            std::mem::swap(&mut content, &mut state.blockquote_content);
            assert(elements_v(state.blockquote_content@) =~= Seq::<ElementV>::empty());
            if content.len() > 0 {
                let e = Element::BlockQuote(content);
                proof {
                    lemma_element_v_unfold(e);
                }
                document.push(e);
            }
            assert(state.view_state() =~= end_tag(tag_end_v(tag), doc0, st).unwrap().1);
            Ok(())
        },
        MdTagEnd::List(_) => {
            let ghost old_lists = state.list_stack@;
            if let Some(ls) = state.list_stack.pop() {
                let e = Element::List { ordered: ls.ordered, items: ls.items };
                proof {
                    lemma_element_v_unfold(e);
                    assert(lists_v(state.list_stack@) =~= st.list_stack.drop_last());
                    assert(list_v(ls) == st.list_stack.last());
                }
                if state.list_stack.len() > 0 {
                    state.add_to_current_item(e);
                } else {
                    document.push(e);
                }
            }
            assert(state.view_state() =~= end_tag(tag_end_v(tag), doc0, st).unwrap().1);
            Ok(())
        },
        MdTagEnd::Item => {
            let inlines = state.pop_inline_context();
            let ghost st1 = state.view_state();
            let ghost old_lists = state.list_stack@;
            if let Some(mut l) = state.list_stack.pop() {
                let ghost l0 = list_v(l);
                if inlines.len() > 0 {
                    proof {
                        lemma_elements_v_push(l.current_item@, Element::Paragraph(inlines));
                    }
                    l.current_item.push(Element::Paragraph(inlines));
                }
                let mut content: Vec<Element> = Vec::new();
                std::mem::swap(&mut content, &mut l.current_item);
                let task = l.current_task.take();
                let item = ListItem { content, task };
                proof {
                    lemma_items_v_push(l.items@, item);
                }
                l.items.push(item);
                assert(list_v(l) =~= ListStateV {
                    items: l0.items.push(ListItemV { content: elements_v(content@), task }),
                    current_item: Seq::empty(),
                    current_task: None,
                    ..l0
                });
                state.list_stack.push(l);
                assert(lists_v(state.list_stack@) =~= lists_v(old_lists).update(
                    old_lists.len() - 1,
                    list_v(l),
                ));
            }
            assert(state.view_state() =~= end_tag(tag_end_v(tag), doc0, st).unwrap().1);
            Ok(())
        },
        MdTagEnd::Table => {
            if let Some(t) = state.table_state.take() {
                let e = Element::Table(Table { headers: t.headers, alignments: t.alignments, rows: t.rows });
                assert(element_v(e) =~= ElementV::Table(
                    TableV {
                        headers: table_state_v(t).headers,
                        alignments: table_state_v(t).alignments,
                        rows: table_state_v(t).rows,
                    },
                ));
                document.push(e);
            }
            assert(state.view_state() =~= end_tag(tag_end_v(tag), doc0, st).unwrap().1);
            Ok(())
        },
        MdTagEnd::TableHead => {
            if let Some(mut t) = state.table_state.take() {
                t.in_head = false;
                let mut row: Vec<String> = Vec::new();
                std::mem::swap(&mut row, &mut t.current_row);
                t.headers = row;
                assert(strings_v(t.current_row@) =~= Seq::<Seq<char>>::empty());
                state.table_state = Some(t);
            }
            assert(state.view_state() =~= end_tag(tag_end_v(tag), doc0, st).unwrap().1);
            Ok(())
        },
        MdTagEnd::TableRow => {
            if let Some(mut t) = state.table_state.take() {
                if !t.in_head {
                    let mut row: Vec<String> = Vec::new();
                    std::mem::swap(&mut row, &mut t.current_row);
                    let ghost old_rows = t.rows@;
                    t.rows.push(row);
                    assert(rows_v(t.rows@) =~= rows_v(old_rows).push(strings_v(row@)));
                    assert(strings_v(t.current_row@) =~= Seq::<Seq<char>>::empty());
                }
                state.table_state = Some(t);
            }
            assert(state.view_state() =~= end_tag(tag_end_v(tag), doc0, st).unwrap().1);
            Ok(())
        },
        MdTagEnd::TableCell => {
            if let Some(mut t) = state.table_state.take() {
                let mut cell = String::new();
                std::mem::swap(&mut cell, &mut t.current_cell);
                proof {
                    lemma_strings_v_push(t.current_row@, cell);
                }
                t.current_row.push(cell);
                state.table_state = Some(t);
            }
            assert(state.view_state() =~= end_tag(tag_end_v(tag), doc0, st).unwrap().1);
            Ok(())
        },
        MdTagEnd::Emphasis => {
            let inlines = state.pop_inline_context();
            let x = Inline::Emphasis(inlines);
            proof {
                lemma_inline_v_unfold(x);
            }
            state.add_inline(x);
            Ok(())
        },
        MdTagEnd::Strong => {
            let inlines = state.pop_inline_context();
            let x = Inline::Strong(inlines);
            proof {
                lemma_inline_v_unfold(x);
            }
            state.add_inline(x);
            Ok(())
        },
        MdTagEnd::Link => {
            let inlines = state.pop_inline_context();
            let (url, text) = extract_link_info(inlines);
            let x = Inline::Link { text, url };
            proof {
                lemma_inline_v_unfold(x);
            }
            state.add_inline(x);
            Ok(())
        },
        MdTagEnd::Image => {
            let inlines = state.pop_inline_context();
            match extract_image_info(&inlines) {
                Some((path, title)) => {
                    if !image_attributes_readable(path.as_str()) {
                        return Err(image_error(&path));
                    }
                    proof {
                        reveal_strlit("");
                    }
                    assert(""@ =~= Seq::<char>::empty());
                    let image = parse_image_attributes("", path.as_str(), Some(title.as_str()));
                    assert(image_v(image) == image_spec(Seq::empty(), path@, Some(title@)));
                    state.add_inline(Inline::Image(image));
                },
                None => {},
            }
            Ok(())
        },
        _ => Ok(()),
    }
}


impl ParserState {
    /// Marks the current item of the innermost list as a task.
    fn set_task(&mut self, checked: bool)
        ensures
            final(self).view_state() == (if old(self).list_stack.len() > 0 {
                StateV {
                    list_stack: old(self).view_state().list_stack.update(
                        old(self).list_stack.len() - 1,
                        ListStateV {
                            current_task: Some(checked),
                            ..old(self).view_state().list_stack.last()
                        },
                    ),
                    ..old(self).view_state()
                }
            } else {
                old(self).view_state()
            }),
    {
        let ghost old_lists = self.list_stack@;
        if let Some(mut l) = self.list_stack.pop() {
            let ghost l0 = list_v(l);
            l.current_task = Some(checked);
            assert(list_v(l) =~= ListStateV { current_task: Some(checked), ..l0 });
            self.list_stack.push(l);
            assert(lists_v(self.list_stack@) =~= lists_v(old_lists).update(
                old_lists.len() - 1,
                list_v(l),
            ));
        }
        assert(self.view_state() =~= (if old(self).list_stack.len() > 0 {
            StateV {
                list_stack: old(self).view_state().list_stack.update(
                    old(self).list_stack.len() - 1,
                    ListStateV {
                        current_task: Some(checked),
                        ..old(self).view_state().list_stack.last()
                    },
                ),
                ..old(self).view_state()
            }
        } else {
            old(self).view_state()
        }));
    }
}

/// The block element of an HTML block: a page break, a column layout, a
/// license directive, or raw HTML.
pub fn html_block(html: String) -> (r: Element)
    ensures
        element_v(r) == html_block_element(html@),
{
    if is_page_break(html.as_str()) {
        Element::PageBreak
    } else if let Some(columns) = parse_column_layout(html.as_str()) {
        Element::ColumnLayout(columns)
    } else if let Some((kind, info)) = parse_license(html.as_str()) {
        Element::License { kind, info }
    } else {
        Element::Raw(html)
    }
}

fn process_event(event: MdEvent, document: &mut Document, state: &mut ParserState) -> (r: Result<
    (),
    SieveError,
>)
    ensures
        match step(event_v(event), old(document)@, old(state).view_state()) {
            Some((d, s)) => r is Ok && final(document)@ == d && final(state).view_state() == s,
            None => r matches Err(SieveError::ParseMarkdown(_)),
        },
{
    let ghost st = state.view_state();
    match event {
        MdEvent::Start(tag) => {
            process_start_tag(tag, state);
            Ok(())
        },
        MdEvent::End(tag) => process_end_tag(tag, document, state),
        MdEvent::Text(text) => {
            if state.code_block_type.is_some() {
                push_str(&mut state.code_block_content, text.as_str());
                assert(state.view_state() =~= StateV {
                    code_block_content: st.code_block_content + text@,
                    ..st
                });
            } else if let Some(mut t) = state.table_state.take() {
                push_str(&mut t.current_cell, text.as_str());
                state.table_state = Some(t);
                assert(state.view_state() =~= step(event_v(event), old(document)@, st).unwrap().1);
            } else {
                state.add_inline(Inline::Text(text));
            }
            Ok(())
        },
        MdEvent::Code(code) => {
            state.add_inline(Inline::Code(code));
            Ok(())
        },
        MdEvent::SoftBreak => {
            if state.code_block_type.is_some() {
                push_char(&mut state.code_block_content, '\n');
                assert(state.view_state() =~= StateV {
                    code_block_content: st.code_block_content.push('\n'),
                    ..st
                });
            } else {
                state.add_inline(Inline::SoftBreak);
            }
            Ok(())
        },
        MdEvent::HardBreak => {
            state.add_inline(Inline::HardBreak);
            Ok(())
        },
        MdEvent::Html(html) => {
            document.push(html_block(html));
            Ok(())
        },
        MdEvent::InlineHtml(html) => {
            state.add_inline(Inline::Text(html));
            Ok(())
        },
        MdEvent::Rule => {
            document.push(Element::ThematicBreak);
            Ok(())
        },
        MdEvent::TaskListMarker(checked) => {
            state.set_task(checked);
            Ok(())
        },
        MdEvent::FootnoteReference(_) => Ok(()),
    }
}

/// Once the run has failed it stays failed.
proof fn lemma_run_fails_on(events: Seq<MdEventV>, k: int, j: int)
    requires
        0 <= k <= j <= events.len(),
        run(events, k) is None,
    ensures
        run(events, j) is None,
    decreases j - k,
{
    if k < j {
        lemma_run_fails_on(events, k + 1, j);
    }
}

/// Builds the document of an event stream, one event at a time.
pub fn parse_events(events: Vec<MdEvent>) -> (r: Result<Document, SieveError>)
    ensures
        match document_of(events_v(events@)) {
            Some(d) => r matches Ok(doc) && doc@ == d,
            None => r matches Err(SieveError::ParseMarkdown(_)),
        },
{
    let ghost ev = events_v(events@);
    let ghost orig = events@;
    let ghost n = events@.len();
    let mut rest = events;
    let mut rev: Vec<MdEvent> = Vec::new();
    while rest.len() > 0
        invariant
            rest.len() + rev.len() == n,
            n == orig.len(),
            rest@ == orig.take(rest.len() as int),
            forall|i: int| 0 <= i < rev.len() ==> rev@[i] == orig[n - 1 - i],
        decreases rest.len(),
    {
        let x = rest.pop().unwrap();
        assert(rest@ =~= orig.take(rest.len() as int));
        rev.push(x);
    }
    let mut document = Document::new();
    let mut state = ParserState::new();
    let ghost mut k: int = 0;
    while rev.len() > 0
        invariant
            k + rev.len() == n,
            0 <= k <= n,
            n == orig.len(),
            ev == events_v(orig),
            orig == events@,
            forall|i: int| 0 <= i < rev.len() ==> rev@[i] == orig[n - 1 - i],
            run(ev, k) == Some((document@, state.view_state())),
        decreases rev.len(),
    {
        let x = rev.pop().unwrap();
        assert(x == orig[k]);
        assert(ev[k] == event_v(x));
        let res = process_event(x, &mut document, &mut state);
        if let Err(e) = res {
            proof {
                assert(run(ev, k + 1) is None);
                lemma_run_fails_on(ev, k + 1, n as int);
                assert(ev.len() == n);
                assert(document_of(ev) is None);
                assert(e is ParseMarkdown);
            }
            return Err(e);
        }
        proof {
            k = k + 1;
        }
    }
    Ok(document)
}

/// Parse markdown content into the intermediate document: the CommonMark
/// events of `content`, with tables, strikethrough and task lists, built into
/// a tree. Fails where an image's attribute list cannot be read.
pub fn parse(content: &str) -> (r: Result<Document, SieveError>)
    ensures
        match document_of(events_v(cmark_events(content@, true, true, true))) {
            Some(d) => r matches Ok(doc) && doc@ == d,
            None => r matches Err(SieveError::ParseMarkdown(_)),
        },
{
    let events = markdown_events(content, true, true, true);
    parse_events(events)
}

} // verus!
