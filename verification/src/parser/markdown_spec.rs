//! The tree builder's behaviour, stated over the model: the state it keeps,
//! one step per event, and the document a whole event stream gives.

use vstd::prelude::*;

use crate::ast::{Alignment, ElementV, InlineV, ListItemV, TableV};
use crate::parser::extensions::{
    column_layout_spec, detect_spec, image_spec, image_url_ok, license_spec, page_break_spec,
    CodeBlockTypeV,
};
use crate::text::{ends_with, find_char_from, starts_with, trim};

verus! {

/// A start tag, as a model.
#[verifier::ext_equal]
pub enum MdTagV {
    Paragraph,
    Heading(u8),
    BlockQuote,
    CodeBlock(Option<Seq<char>>),
    HtmlBlock,
    List(Option<u64>),
    Item,
    FootnoteDefinition(Seq<char>),
    Table(Seq<Alignment>),
    TableHead,
    TableRow,
    TableCell,
    Emphasis,
    Strong,
    Strikethrough,
    Link { dest_url: Seq<char>, title: Seq<char> },
    Image { dest_url: Seq<char>, title: Seq<char> },
    MetadataBlock,
}

/// An end tag, as a model.
#[verifier::ext_equal]
pub enum MdTagEndV {
    Paragraph,
    Heading(u8),
    BlockQuote,
    CodeBlock,
    HtmlBlock,
    List(bool),
    Item,
    FootnoteDefinition,
    Table,
    TableHead,
    TableRow,
    TableCell,
    Emphasis,
    Strong,
    Strikethrough,
    Link,
    Image,
    MetadataBlock,
}

/// An event, as a model.
#[verifier::ext_equal]
pub enum MdEventV {
    Start(MdTagV),
    End(MdTagEndV),
    Text(Seq<char>),
    Code(Seq<char>),
    Html(Seq<char>),
    InlineHtml(Seq<char>),
    FootnoteReference(Seq<char>),
    SoftBreak,
    HardBreak,
    Rule,
    TaskListMarker(bool),
}

/// A list being built.
#[verifier::ext_equal]
pub struct ListStateV {
    pub ordered: bool,
    pub items: Seq<ListItemV>,
    pub current_item: Seq<ElementV>,
    pub current_task: Option<bool>,
}

/// A table being built.
#[verifier::ext_equal]
pub struct TableStateV {
    pub headers: Seq<Seq<char>>,
    pub alignments: Seq<Alignment>,
    pub rows: Seq<Seq<Seq<char>>>,
    pub current_row: Seq<Seq<char>>,
    pub current_cell: Seq<char>,
    pub in_head: bool,
}

/// The tree builder's state.
#[verifier::ext_equal]
pub struct StateV {
    pub inline_stack: Seq<Seq<InlineV>>,
    pub code_block_type: Option<CodeBlockTypeV>,
    pub code_block_content: Seq<char>,
    pub list_stack: Seq<ListStateV>,
    pub table_state: Option<TableStateV>,
    pub blockquote_content: Seq<ElementV>,
    pub in_blockquote: bool,
}

pub open spec fn state_init() -> StateV {
    StateV {
        inline_stack: Seq::empty(),
        code_block_type: None,
        code_block_content: Seq::empty(),
        list_stack: Seq::empty(),
        table_state: None,
        blockquote_content: Seq::empty(),
        in_blockquote: false,
    }
}

// ---------------------------------------------------------------------------
// The inline stack
// ---------------------------------------------------------------------------

/// `x` added to the innermost inline context (a new one if there is none).
pub open spec fn add_inline(stack: Seq<Seq<InlineV>>, x: InlineV) -> Seq<Seq<InlineV>> {
    if stack.len() == 0 {
        seq![seq![x]]
    } else {
        stack.update(stack.len() - 1, stack.last().push(x))
    }
}

/// The innermost inline context taken off (empty if there is none).
pub open spec fn pop_ctx(stack: Seq<Seq<InlineV>>) -> (Seq<InlineV>, Seq<Seq<InlineV>>) {
    if stack.len() == 0 {
        (Seq::empty(), stack)
    } else {
        (stack.last(), stack.drop_last())
    }
}

pub open spec fn with_inline(st: StateV, x: InlineV) -> StateV {
    StateV { inline_stack: add_inline(st.inline_stack, x), ..st }
}

pub open spec fn push_ctx(st: StateV) -> StateV {
    StateV { inline_stack: st.inline_stack.push(Seq::empty()), ..st }
}

// ---------------------------------------------------------------------------
// Text of inlines and the link/image markers
// ---------------------------------------------------------------------------

/// The plain text of an inline (markers and images dropped, breaks as spaces).
pub open spec fn inline_text(x: InlineV) -> Seq<char>
    decreases x,
{
    match x {
        InlineV::Text(t) => if t.len() > 0 && t[0] == '\0' {
            Seq::empty()
        } else {
            t
        },
        InlineV::Emphasis(v) => inlines_text(v),
        InlineV::Strong(v) => inlines_text(v),
        InlineV::Code(c) => c,
        InlineV::Link { text, .. } => inlines_text(text),
        InlineV::Image(_) => Seq::empty(),
        InlineV::SoftBreak => seq![' '],
        InlineV::HardBreak => seq![' '],
    }
}

pub open spec fn inlines_text(s: Seq<InlineV>) -> Seq<char>
    decreases s,
{
    if s.len() == 0 {
        Seq::empty()
    } else {
        inlines_text(s.drop_last()) + inline_text(s.last())
    }
}

/// The marker text a link start leaves in its inline context.
pub open spec fn link_marker(url: Seq<char>) -> Seq<char> {
    "\0LINK:"@ + url + seq!['\0']
}

/// The marker text an image start leaves in its inline context.
pub open spec fn image_marker(url: Seq<char>, title: Seq<char>) -> Seq<char> {
    "\0IMAGE:"@ + url + seq![':'] + title + seq!['\0']
}

pub open spec fn is_link_marker(t: Seq<char>) -> bool {
    starts_with(t, "\0LINK:"@) && ends_with(t, seq!['\0'])
}

pub open spec fn is_image_marker(t: Seq<char>) -> bool {
    starts_with(t, "\0IMAGE:"@) && ends_with(t, seq!['\0'])
}

/// The URL and the remaining inlines of a link's context after its first `k`
/// inlines: the last link marker gives the URL, the others stay in order.
pub open spec fn link_info(s: Seq<InlineV>, k: int) -> (Seq<char>, Seq<InlineV>)
    decreases k,
{
    if k <= 0 || k > s.len() {
        (Seq::empty(), Seq::empty())
    } else {
        let (url, text) = link_info(s, k - 1);
        match s[k - 1] {
            InlineV::Text(t) => if is_link_marker(t) {
                (t.subrange(6, t.len() - 1), text)
            } else {
                (url, text.push(s[k - 1]))
            },
            x => (url, text.push(x)),
        }
    }
}

/// The path and title of the first image marker from position `k` on whose
/// content has a `:`, split at the first `:`.
pub open spec fn image_info(s: Seq<InlineV>, k: int) -> Option<(Seq<char>, Seq<char>)>
    decreases s.len() - k,
{
    if k < 0 || k >= s.len() {
        None
    } else {
        match s[k] {
            InlineV::Text(t) => if is_image_marker(t) {
                let content = t.subrange(7, t.len() - 1);
                match find_char_from(content, ':', 0) {
                    Some(c) => Some((content.take(c), content.skip(c + 1))),
                    None => image_info(s, k + 1),
                }
            } else {
                image_info(s, k + 1)
            },
            _ => image_info(s, k + 1),
        }
    }
}

// ---------------------------------------------------------------------------
// One step per event
// ---------------------------------------------------------------------------

/// The block element of an HTML block: a page break, a column layout, a
/// license directive, or raw HTML.
pub open spec fn html_block_element(h: Seq<char>) -> ElementV {
    if page_break_spec(h) {
        ElementV::PageBreak
    } else {
        match column_layout_spec(h) {
            Some(c) => ElementV::ColumnLayout(c),
            None => match license_spec(h) {
                Some((kind, info)) => ElementV::License { kind, info },
                None => ElementV::Raw(h),
            },
        }
    }
}

pub open spec fn empty_list(ordered: bool) -> ListStateV {
    ListStateV {
        ordered,
        items: Seq::empty(),
        current_item: Seq::empty(),
        current_task: None,
    }
}

/// `e` added to the current item of the innermost list.
pub open spec fn add_to_item(lists: Seq<ListStateV>, e: ElementV) -> Seq<ListStateV> {
    if lists.len() == 0 {
        lists
    } else {
        lists.update(
            lists.len() - 1,
            ListStateV { current_item: lists.last().current_item.push(e), ..lists.last() },
        )
    }
}

/// The state after a start tag.
pub open spec fn start_tag(tag: MdTagV, st: StateV) -> StateV {
    match tag {
        MdTagV::Paragraph => push_ctx(st),
        MdTagV::Heading(_) => push_ctx(st),
        MdTagV::CodeBlock(info) => StateV {
            code_block_type: Some(
                detect_spec(
                    match info {
                        Some(i) => i,
                        None => Seq::empty(),
                    },
                ),
            ),
            code_block_content: Seq::empty(),
            ..st
        },
        MdTagV::BlockQuote => StateV {
            in_blockquote: true,
            blockquote_content: Seq::empty(),
            ..st
        },
        MdTagV::List(start) => {
            // Inline text pending in an enclosing item goes before the nested list.
            let st1 = if st.list_stack.len() > 0 && st.inline_stack.len() > 0 {
                let (inl, rest) = pop_ctx(st.inline_stack);
                StateV {
                    inline_stack: rest.push(Seq::empty()),
                    list_stack: if inl.len() > 0 {
                        add_to_item(st.list_stack, ElementV::Paragraph(inl))
                    } else {
                        st.list_stack
                    },
                    ..st
                }
            } else {
                st
            };
            StateV { list_stack: st1.list_stack.push(empty_list(start is Some)), ..st1 }
        },
        MdTagV::Item => push_ctx(st),
        MdTagV::Table(alignments) => StateV {
            table_state: Some(
                TableStateV {
                    headers: Seq::empty(),
                    alignments,
                    rows: Seq::empty(),
                    current_row: Seq::empty(),
                    current_cell: Seq::empty(),
                    in_head: false,
                },
            ),
            ..st
        },
        MdTagV::TableHead => match st.table_state {
            Some(t) => StateV { table_state: Some(TableStateV { in_head: true, ..t }), ..st },
            None => st,
        },
        MdTagV::TableRow => match st.table_state {
            Some(t) => StateV {
                table_state: Some(TableStateV { current_row: Seq::empty(), ..t }),
                ..st
            },
            None => st,
        },
        MdTagV::TableCell => match st.table_state {
            Some(t) => StateV {
                table_state: Some(TableStateV { current_cell: Seq::empty(), ..t }),
                ..st
            },
            None => st,
        },
        MdTagV::Emphasis => push_ctx(st),
        MdTagV::Strong => push_ctx(st),
        MdTagV::Link { dest_url, .. } => with_inline(push_ctx(st), InlineV::Text(link_marker(dest_url))),
        MdTagV::Image { dest_url, title } => with_inline(
            push_ctx(st),
            InlineV::Text(image_marker(dest_url, title)),
        ),
        _ => st,
    }
}

/// The markdown an inline was read from, as far as the inline keeps it:
/// emphasis, strong text, code, links and images written back with their
/// markers, line breaks as newlines.
pub open spec fn inline_source(x: InlineV) -> Seq<char>
    decreases x,
{
    match x {
        InlineV::Text(t) => t,
        InlineV::Code(c) => seq!['`'] + c + seq!['`'],
        InlineV::Emphasis(v) => seq!['*'] + inlines_source(v) + seq!['*'],
        InlineV::Strong(v) => "**"@ + inlines_source(v) + "**"@,
        InlineV::Link { text, url } => seq!['['] + inlines_source(text) + "]("@ + url + seq![')'],
        InlineV::Image(im) => "!["@ + im.alt + "]("@ + im.path + seq![')'],
        InlineV::SoftBreak => seq!['\n'],
        InlineV::HardBreak => seq!['\n'],
    }
}

pub open spec fn inlines_source(s: Seq<InlineV>) -> Seq<char>
    decreases s,
{
    if s.len() == 0 {
        Seq::empty()
    } else {
        inlines_source(s.drop_last()) + inline_source(s.last())
    }
}

pub open spec fn is_line_break(x: InlineV) -> bool {
    x is SoftBreak || x is HardBreak
}

/// A line holding exactly `///`.
pub open spec fn is_slash_fence(x: InlineV) -> bool {
    x == InlineV::Text("///"@)
}

/// A paragraph whose first and last lines are exactly `///`: a stat block
/// written between two `///` lines.
pub open spec fn slash_fenced(inl: Seq<InlineV>) -> bool {
    &&& inl.len() >= 3
    &&& is_slash_fence(inl[0])
    &&& is_line_break(inl[1])
    &&& is_slash_fence(inl.last())
    &&& is_line_break(inl[inl.len() - 2])
}

/// The lines between the two `///` lines.
pub open spec fn fenced_inner(inl: Seq<InlineV>) -> Seq<InlineV> {
    if inl.len() >= 4 {
        inl.subrange(2, inl.len() - 2)
    } else {
        Seq::empty()
    }
}

/// The element a finished paragraph becomes: a stat block when it is fenced
/// by `///` lines (its text between the fences, trimmed), else a paragraph.
pub open spec fn paragraph_element(inl: Seq<InlineV>) -> ElementV {
    if slash_fenced(inl) {
        ElementV::StatBlock(trim(inlines_source(fenced_inner(inl))))
    } else {
        ElementV::Paragraph(inl)
    }
}

/// The element a finished code block becomes.
pub open spec fn code_block_element(bt: CodeBlockTypeV, content: Seq<char>) -> ElementV {
    match bt {
        CodeBlockTypeV::StatBlock => ElementV::StatBlock(trim(content)),
        CodeBlockTypeV::Boxed => ElementV::BoxedText(trim(content)),
        CodeBlockTypeV::Regular(lang) => ElementV::CodeBlock { language: lang, code: content },
    }
}

/// The document and state after an end tag; `None` where an image's
/// attribute list cannot be read.
pub open spec fn end_tag(tag: MdTagEndV, doc: Seq<ElementV>, st: StateV) -> Option<
    (Seq<ElementV>, StateV),
> {
    match tag {
        MdTagEndV::Paragraph => {
            let (inl, rest) = pop_ctx(st.inline_stack);
            let st1 = StateV { inline_stack: rest, ..st };
            if inl.len() == 0 {
                Some((doc, st1))
            } else if st.in_blockquote {
                Some(
                    (
                        doc,
                        StateV {
                            blockquote_content: st.blockquote_content.push(paragraph_element(inl)),
                            ..st1
                        },
                    ),
                )
            } else if st.list_stack.len() > 0 {
                Some(
                    (
                        doc,
                        StateV {
                            list_stack: add_to_item(st.list_stack, paragraph_element(inl)),
                            ..st1
                        },
                    ),
                )
            } else {
                Some((doc.push(paragraph_element(inl)), st1))
            }
        },
        MdTagEndV::Heading(level) => {
            let (inl, rest) = pop_ctx(st.inline_stack);
            Some(
                (
                    doc.push(ElementV::Heading { level, text: inlines_text(inl) }),
                    StateV { inline_stack: rest, ..st },
                ),
            )
        },
        MdTagEndV::CodeBlock => match st.code_block_type {
            Some(bt) => Some(
                (
                    doc.push(code_block_element(bt, st.code_block_content)),
                    StateV { code_block_type: None, code_block_content: Seq::empty(), ..st },
                ),
            ),
            None => Some((doc, st)),
        },
        MdTagEndV::BlockQuote => {
            let st1 = StateV { in_blockquote: false, blockquote_content: Seq::empty(), ..st };
            if st.blockquote_content.len() > 0 {
                Some((doc.push(ElementV::BlockQuote(st.blockquote_content)), st1))
            } else {
                Some((doc, st1))
            }
        },
        MdTagEndV::List(_) => if st.list_stack.len() > 0 {
            let ls = st.list_stack.last();
            let rest = st.list_stack.drop_last();
            let el = ElementV::List { ordered: ls.ordered, items: ls.items };
            if rest.len() > 0 {
                Some((doc, StateV { list_stack: add_to_item(rest, el), ..st }))
            } else {
                Some((doc.push(el), StateV { list_stack: rest, ..st }))
            }
        } else {
            Some((doc, st))
        },
        MdTagEndV::Item => {
            let (inl, rest) = pop_ctx(st.inline_stack);
            let st1 = StateV { inline_stack: rest, ..st };
            if st.list_stack.len() > 0 {
                let ls = st.list_stack.last();
                let content = if inl.len() > 0 {
                    ls.current_item.push(ElementV::Paragraph(inl))
                } else {
                    ls.current_item
                };
                let ls2 = ListStateV {
                    items: ls.items.push(ListItemV { content, task: ls.current_task }),
                    current_item: Seq::empty(),
                    current_task: None,
                    ..ls
                };
                Some(
                    (
                        doc,
                        StateV {
                            list_stack: st.list_stack.update(st.list_stack.len() - 1, ls2),
                            ..st1
                        },
                    ),
                )
            } else {
                Some((doc, st1))
            }
        },
        MdTagEndV::Table => match st.table_state {
            Some(t) => Some(
                (
                    doc.push(
                        ElementV::Table(
                            TableV { headers: t.headers, alignments: t.alignments, rows: t.rows },
                        ),
                    ),
                    StateV { table_state: None, ..st },
                ),
            ),
            None => Some((doc, st)),
        },
        MdTagEndV::TableHead => match st.table_state {
            Some(t) => Some(
                (
                    doc,
                    StateV {
                        table_state: Some(
                            TableStateV {
                                in_head: false,
                                headers: t.current_row,
                                current_row: Seq::empty(),
                                ..t
                            },
                        ),
                        ..st
                    },
                ),
            ),
            None => Some((doc, st)),
        },
        MdTagEndV::TableRow => match st.table_state {
            Some(t) => if !t.in_head {
                Some(
                    (
                        doc,
                        StateV {
                            table_state: Some(
                                TableStateV {
                                    rows: t.rows.push(t.current_row),
                                    current_row: Seq::empty(),
                                    ..t
                                },
                            ),
                            ..st
                        },
                    ),
                )
            } else {
                Some((doc, st))
            },
            None => Some((doc, st)),
        },
        MdTagEndV::TableCell => match st.table_state {
            Some(t) => Some(
                (
                    doc,
                    StateV {
                        table_state: Some(
                            TableStateV {
                                current_row: t.current_row.push(t.current_cell),
                                current_cell: Seq::empty(),
                                ..t
                            },
                        ),
                        ..st
                    },
                ),
            ),
            None => Some((doc, st)),
        },
        MdTagEndV::Emphasis => {
            let (inl, rest) = pop_ctx(st.inline_stack);
            Some((doc, with_inline(StateV { inline_stack: rest, ..st }, InlineV::Emphasis(inl))))
        },
        MdTagEndV::Strong => {
            let (inl, rest) = pop_ctx(st.inline_stack);
            Some((doc, with_inline(StateV { inline_stack: rest, ..st }, InlineV::Strong(inl))))
        },
        MdTagEndV::Link => {
            let (inl, rest) = pop_ctx(st.inline_stack);
            let (url, text) = link_info(inl, inl.len() as int);
            Some((doc, with_inline(StateV { inline_stack: rest, ..st }, InlineV::Link { text, url })))
        },
        MdTagEndV::Image => {
            let (inl, rest) = pop_ctx(st.inline_stack);
            let st1 = StateV { inline_stack: rest, ..st };
            match image_info(inl, 0) {
                Some((path, title)) => if image_url_ok(path) {
                    Some(
                        (doc, with_inline(st1, InlineV::Image(image_spec(Seq::empty(), path, Some(title))))),
                    )
                } else {
                    None
                },
                None => Some((doc, st1)),
            }
        },
        _ => Some((doc, st)),
    }
}

/// The document and state after one event; `None` where an image's attribute
/// list cannot be read.
pub open spec fn step(ev: MdEventV, doc: Seq<ElementV>, st: StateV) -> Option<
    (Seq<ElementV>, StateV),
> {
    match ev {
        MdEventV::Start(tag) => Some((doc, start_tag(tag, st))),
        MdEventV::End(tag) => end_tag(tag, doc, st),
        MdEventV::Text(t) => if st.code_block_type is Some {
            Some((doc, StateV { code_block_content: st.code_block_content + t, ..st }))
        } else {
            match st.table_state {
                Some(tb) => Some(
                    (
                        doc,
                        StateV {
                            table_state: Some(
                                TableStateV { current_cell: tb.current_cell + t, ..tb },
                            ),
                            ..st
                        },
                    ),
                ),
                None => Some((doc, with_inline(st, InlineV::Text(t)))),
            }
        },
        MdEventV::Code(c) => Some((doc, with_inline(st, InlineV::Code(c)))),
        MdEventV::SoftBreak => if st.code_block_type is Some {
            Some((doc, StateV { code_block_content: st.code_block_content.push('\n'), ..st }))
        } else {
            Some((doc, with_inline(st, InlineV::SoftBreak)))
        },
        MdEventV::HardBreak => Some((doc, with_inline(st, InlineV::HardBreak))),
        MdEventV::Html(h) => Some((doc.push(html_block_element(h)), st)),
        MdEventV::InlineHtml(h) => Some((doc, with_inline(st, InlineV::Text(h)))),
        MdEventV::Rule => Some((doc.push(ElementV::ThematicBreak), st)),
        MdEventV::TaskListMarker(checked) => if st.list_stack.len() > 0 {
            Some(
                (
                    doc,
                    StateV {
                        list_stack: st.list_stack.update(
                            st.list_stack.len() - 1,
                            ListStateV { current_task: Some(checked), ..st.list_stack.last() },
                        ),
                        ..st
                    },
                ),
            )
        } else {
            Some((doc, st))
        },
        MdEventV::FootnoteReference(_) => Some((doc, st)),
    }
}

/// The document and state after the first `k` events; `None` once an image's
/// attribute list could not be read.
pub open spec fn run(events: Seq<MdEventV>, k: int) -> Option<(Seq<ElementV>, StateV)>
    decreases k,
{
    if k <= 0 || k > events.len() {
        Some((Seq::empty(), state_init()))
    } else {
        match run(events, k - 1) {
            Some((doc, st)) => step(events[k - 1], doc, st),
            None => None,
        }
    }
}

/// The document an event stream builds; `None` where an image's attribute
/// list cannot be read.
pub open spec fn document_of(events: Seq<MdEventV>) -> Option<Seq<ElementV>> {
    match run(events, events.len() as int) {
        Some((doc, _)) => Some(doc),
        None => None,
    }
}

// ---------------------------------------------------------------------------
// Laws
// ---------------------------------------------------------------------------

/// An HTML block is never dropped: it becomes one element at the end of the
/// document; a page-break comment a page break, a column comment a column
/// switch.
pub proof fn law_html_blocks_become_elements(h: Seq<char>, doc: Seq<ElementV>, st: StateV)
    ensures
        step(MdEventV::Html(h), doc, st) == Some((doc.push(html_block_element(h)), st)),
        page_break_spec(h) ==> html_block_element(h) == ElementV::PageBreak,
        !page_break_spec(h) && column_layout_spec(h) is Some ==> html_block_element(h)
            == ElementV::ColumnLayout(column_layout_spec(h).unwrap()),
{
}

/// The only event the tree builder can fail on is the end of an image whose
/// attribute list cannot be read.
pub proof fn law_only_images_can_fail(ev: MdEventV, doc: Seq<ElementV>, st: StateV)
    ensures
        step(ev, doc, st) is None ==> ev == MdEventV::End(MdTagEndV::Image),
{
}

/// A list's kind is fixed by its start tag: a start number (`1.`, `7.`)
/// opens a numbered list and none a bullet list. Items added to it leave the
/// kind alone, and the list it closes into has the same kind.
pub proof fn law_list_kind_follows_start_number(
    start: Option<u64>,
    b: bool,
    doc: Seq<ElementV>,
    st: StateV,
)
    ensures
        start_tag(MdTagV::List(start), st).list_stack.len() == st.list_stack.len() + 1,
        start_tag(MdTagV::List(start), st).list_stack.last().ordered <==> start is Some,
        start_tag(MdTagV::List(start), st).list_stack.last().items.len() == 0,
        st.list_stack.len() > 0 ==> end_tag(MdTagEndV::Item, doc, st) is Some && end_tag(
            MdTagEndV::Item,
            doc,
            st,
        ).unwrap().1.list_stack.last().ordered == st.list_stack.last().ordered,
        st.list_stack.len() == 1 ==> end_tag(MdTagEndV::List(b), doc, st) == Some(
            (
                doc.push(
                    ElementV::List {
                        ordered: st.list_stack.last().ordered,
                        items: st.list_stack.last().items,
                    },
                ),
                StateV { list_stack: Seq::empty(), ..st },
            ),
        ),
{
}

/// A one-item list read from the start of a stream is a numbered list
/// exactly when its start tag carries a start number, whatever its text.
pub proof fn law_one_item_list_kind(start: Option<u64>, t: Seq<char>, b: bool)
    ensures
        document_of(
            seq![
                MdEventV::Start(MdTagV::List(start)),
                MdEventV::Start(MdTagV::Item),
                MdEventV::Text(t),
                MdEventV::End(MdTagEndV::Item),
                MdEventV::End(MdTagEndV::List(b)),
            ],
        ) == Some(
            seq![
                ElementV::List {
                    ordered: start is Some,
                    items: seq![
                        ListItemV {
                            content: seq![ElementV::Paragraph(seq![InlineV::Text(t)])],
                            task: None,
                        },
                    ],
                },
            ],
        ),
{
    let evs = seq![
        MdEventV::Start(MdTagV::List(start)),
        MdEventV::Start(MdTagV::Item),
        MdEventV::Text(t),
        MdEventV::End(MdTagEndV::Item),
        MdEventV::End(MdTagEndV::List(b)),
    ];
    reveal_with_fuel(run, 6);
    let r = run(evs, 5);
    assert(r is Some);
    assert(r.unwrap().0 =~= seq![
        ElementV::List {
            ordered: start is Some,
            items: seq![
                ListItemV {
                    content: seq![ElementV::Paragraph(seq![InlineV::Text(t)])],
                    task: None,
                },
            ],
        },
    ]);
}

} // verus!
