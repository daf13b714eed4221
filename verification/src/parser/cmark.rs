//! The CommonMark event stream, as plain values the tree builder reads.

use vstd::prelude::*;

use pulldown_cmark::{Alignment as CmarkAlign, CodeBlockKind, CowStr, Event, Tag, TagEnd};

verus! {

#[verifier::external_type_specification]
#[verifier::external_body]
pub struct ExEvent<'a>(Event<'a>);

#[verifier::external_type_specification]
#[verifier::external_body]
pub struct ExTag<'a>(Tag<'a>);

#[verifier::external_type_specification]
#[verifier::external_body]
pub struct ExTagEnd(TagEnd);

#[verifier::external_type_specification]
#[verifier::external_body]
pub struct ExCowStr<'a>(CowStr<'a>);

#[verifier::external_type_specification]
#[verifier::external_body]
pub struct ExCodeBlockKind<'a>(CodeBlockKind<'a>);

#[verifier::external_type_specification]
#[verifier::external_body]
pub struct ExCmarkAlign(CmarkAlign);

/// A start tag of the event stream.
pub enum MdTag {
    Paragraph,
    Heading(u8),
    BlockQuote,
    /// `None` for an indented block, else the fence's info string.
    CodeBlock(Option<String>),
    HtmlBlock,
    /// The first number of an ordered list.
    List(Option<u64>),
    Item,
    FootnoteDefinition(String),
    Table(Vec<crate::ast::Alignment>),
    TableHead,
    TableRow,
    TableCell,
    Emphasis,
    Strong,
    Strikethrough,
    Link { dest_url: String, title: String },
    Image { dest_url: String, title: String },
    MetadataBlock,
}

/// An end tag of the event stream.
pub enum MdTagEnd {
    Paragraph,
    Heading(u8),
    BlockQuote,
    CodeBlock,
    HtmlBlock,
    List(bool),
    Item,
    FootnoteDefinition,
    Table,
    TableHead,
    TableRow,
    TableCell,
    Emphasis,
    Strong,
    Strikethrough,
    Link,
    Image,
    MetadataBlock,
}

/// One event of the CommonMark parse.
pub enum MdEvent {
    Start(MdTag),
    End(MdTagEnd),
    Text(String),
    Code(String),
    Html(String),
    InlineHtml(String),
    FootnoteReference(String),
    SoftBreak,
    HardBreak,
    Rule,
    TaskListMarker(bool),
}

/// What `pulldown_cmark::Parser::new_ext` yields for `src` with the given
/// extensions switched on, each event taken as a plain value.
pub uninterp spec fn cmark_events(src: Seq<char>, tables: bool, strikethrough: bool, tasklists: bool) -> Seq<MdEvent>;

/// `pulldown_cmark::Parser::new_ext` over `src`, with the table,
/// strikethrough and task-list extensions switched on as the flags say, its
/// events collected in order. The sequence is named by `cmark_events`: the
/// CommonMark grammar is the crate's and is not restated here.
#[verifier::external_body]
pub(crate) fn markdown_events(src: &str, tables: bool, strikethrough: bool, tasklists: bool) -> (r: Vec<
    MdEvent,
>)
    ensures
        r@ == cmark_events(src@, tables, strikethrough, tasklists),
{
    let mut options = pulldown_cmark::Options::empty();
    options.set(pulldown_cmark::Options::ENABLE_TABLES, tables);
    options.set(pulldown_cmark::Options::ENABLE_STRIKETHROUGH, strikethrough);
    options.set(pulldown_cmark::Options::ENABLE_TASKLISTS, tasklists);
    let mut out = Vec::new();
    for event in pulldown_cmark::Parser::new_ext(src, options) {
        out.push(event_value(event));
    }
    out
}

/// `pulldown_cmark::Event` as a plain value, variant for variant.
#[verifier::external_body]
fn event_value(e: Event) -> MdEvent {
    match e {
        Event::Start(t) => MdEvent::Start(tag_value(t)),
        Event::End(t) => MdEvent::End(tag_end_value(t)),
        Event::Text(s) => MdEvent::Text(s.into_string()),
        Event::Code(s) => MdEvent::Code(s.into_string()),
        Event::Html(s) => MdEvent::Html(s.into_string()),
        Event::InlineHtml(s) => MdEvent::InlineHtml(s.into_string()),
        Event::FootnoteReference(s) => MdEvent::FootnoteReference(s.into_string()),
        Event::SoftBreak => MdEvent::SoftBreak,
        Event::HardBreak => MdEvent::HardBreak,
        Event::Rule => MdEvent::Rule,
        Event::TaskListMarker(b) => MdEvent::TaskListMarker(b),
    }
}

/// `pulldown_cmark::Tag` as a plain value, variant for variant: the block
/// tags here, the others by `inline_tag_value`.
#[verifier::external_body]
fn tag_value(t: Tag) -> MdTag {
    match t {
        Tag::Paragraph => MdTag::Paragraph,
        Tag::Heading { level, .. } => MdTag::Heading(level as u8),
        Tag::BlockQuote => MdTag::BlockQuote,
        Tag::CodeBlock(k) => MdTag::CodeBlock(fence_info(k)),
        Tag::HtmlBlock => MdTag::HtmlBlock,
        Tag::List(n) => MdTag::List(n),
        Tag::Item => MdTag::Item,
        Tag::FootnoteDefinition(s) => MdTag::FootnoteDefinition(s.into_string()),
        Tag::Table(a) => MdTag::Table(a.into_iter().map(alignment_value).collect()),
        other => inline_tag_value(other),
    }
}

/// `pulldown_cmark::Tag` as a plain value, variant for variant: the table
/// parts, the inline tags and metadata here, the block tags by `tag_value`.
#[verifier::external_body]
fn inline_tag_value(t: Tag) -> MdTag {
    match t {
        Tag::TableHead => MdTag::TableHead,
        Tag::TableRow => MdTag::TableRow,
        Tag::TableCell => MdTag::TableCell,
        Tag::Emphasis => MdTag::Emphasis,
        Tag::Strong => MdTag::Strong,
        Tag::Strikethrough => MdTag::Strikethrough,
        Tag::Link { dest_url, title, .. } => link_value(dest_url, title, false),
        Tag::Image { dest_url, title, .. } => link_value(dest_url, title, true),
        Tag::MetadataBlock(_) => MdTag::MetadataBlock,
        block => tag_value(block),
    }
}

/// The destination and title of a link or image tag as plain values.
#[verifier::external_body]
fn link_value(dest_url: CowStr, title: CowStr, image: bool) -> MdTag {
    let (dest_url, title) = (dest_url.into_string(), title.into_string());
    if image { MdTag::Image { dest_url, title } } else { MdTag::Link { dest_url, title } }
}

/// `pulldown_cmark::CodeBlockKind` as the fence's info string, `None` when indented.
#[verifier::external_body]
fn fence_info(k: CodeBlockKind) -> Option<String> {
    match k {
        CodeBlockKind::Fenced(s) => Some(s.into_string()),
        CodeBlockKind::Indented => None,
    }
}

/// `pulldown_cmark::Alignment` as the library's alignment, variant for variant.
#[verifier::external_body]
fn alignment_value(a: CmarkAlign) -> crate::ast::Alignment {
    match a {
        CmarkAlign::None => crate::ast::Alignment::Unset,
        CmarkAlign::Left => crate::ast::Alignment::Left,
        CmarkAlign::Center => crate::ast::Alignment::Center,
        CmarkAlign::Right => crate::ast::Alignment::Right,
    }
}

/// `pulldown_cmark::TagEnd` as a plain value, variant for variant: the
/// block tags here, the others by `inline_tag_end_value`.
#[verifier::external_body]
fn tag_end_value(t: TagEnd) -> MdTagEnd {
    match t {
        TagEnd::Paragraph => MdTagEnd::Paragraph,
        TagEnd::Heading(l) => MdTagEnd::Heading(l as u8),
        TagEnd::BlockQuote => MdTagEnd::BlockQuote,
        TagEnd::CodeBlock => MdTagEnd::CodeBlock,
        TagEnd::HtmlBlock => MdTagEnd::HtmlBlock,
        TagEnd::List(b) => MdTagEnd::List(b),
        TagEnd::Item => MdTagEnd::Item,
        TagEnd::FootnoteDefinition => MdTagEnd::FootnoteDefinition,
        TagEnd::Table => MdTagEnd::Table,
        other => inline_tag_end_value(other),
    }
}

/// `pulldown_cmark::TagEnd` as a plain value, variant for variant: the table
/// parts, the inline tags and metadata here, the block tags by
/// `tag_end_value`.
#[verifier::external_body]
fn inline_tag_end_value(t: TagEnd) -> MdTagEnd {
    match t {
        TagEnd::TableHead => MdTagEnd::TableHead,
        TagEnd::TableRow => MdTagEnd::TableRow,
        TagEnd::TableCell => MdTagEnd::TableCell,
        TagEnd::Emphasis => MdTagEnd::Emphasis,
        TagEnd::Strong => MdTagEnd::Strong,
        TagEnd::Strikethrough => MdTagEnd::Strikethrough,
        TagEnd::Link => MdTagEnd::Link,
        TagEnd::Image => MdTagEnd::Image,
        TagEnd::MetadataBlock(_) => MdTagEnd::MetadataBlock,
        block => tag_end_value(block),
    }
}

} // verus!
