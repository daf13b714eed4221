//! Intermediate document representation for TTRPG content, and its
//! mathematical model (each string taken as its characters).

use vstd::prelude::*;

verus! {

/// Intermediate document representation for TTRPG content
#[derive(Debug)]
pub struct Document {
    pub elements: Vec<Element>,
}

#[derive(Debug)]
pub enum Element {
    Heading { level: u8, text: String },
    Paragraph(Vec<Inline>),
    CodeBlock { language: Option<String>, code: String },
    BlockQuote(Vec<Element>),
    List { ordered: bool, items: Vec<ListItem> },
    ThematicBreak,
    PageBreak,
    /// Number of columns (1 = single, 2 = two-column)
    ColumnLayout(u8),
    /// Shaded box for stat blocks
    StatBlock(String),
    BoxedText(String),
    Image(Image),
    Table(Table),
    License { kind: LicenseKind, info: LicenseInfo },
    Raw(String),
}

#[derive(Debug, Clone, Copy, PartialEq, Eq, Structural)]
pub enum LicenseKind {
    Ogl1_0a,
    CcBySa4_0,
}

#[derive(Debug, Default, PartialEq, Eq)]
pub struct LicenseInfo {
    pub attribution: Option<String>,
    pub changes: Option<String>,
}

#[derive(Debug)]
pub enum Inline {
    Text(String),
    Emphasis(Vec<Inline>),
    Strong(Vec<Inline>),
    Code(String),
    Link { text: Vec<Inline>, url: String },
    Image(Image),
    SoftBreak,
    HardBreak,
}

#[derive(Debug)]
pub struct ListItem {
    pub content: Vec<Element>,
    /// None = ordinary list item; Some(false) = unchecked task; Some(true) = checked task.
    pub task: Option<bool>,
}

/// An image reference; `path` is the path text as written in the source.
#[derive(Debug)]
pub struct Image {
    pub alt: String,
    pub path: String,
    pub width: Option<String>,
}

#[derive(Debug)]
pub struct Table {
    pub headers: Vec<String>,
    pub alignments: Vec<Alignment>,
    pub rows: Vec<Vec<String>>,
}

#[derive(Debug, Clone, Copy, PartialEq, Eq, Structural)]
pub enum Alignment {
    Left,
    Center,
    Right,
    /// No alignment given for the column.
    Unset,
}

// ---------------------------------------------------------------------------
// Model
// ---------------------------------------------------------------------------

#[verifier::ext_equal]
pub struct ImageV {
    pub alt: Seq<char>,
    pub path: Seq<char>,
    pub width: Option<Seq<char>>,
}

#[verifier::ext_equal]
pub enum InlineV {
    Text(Seq<char>),
    Emphasis(Seq<InlineV>),
    Strong(Seq<InlineV>),
    Code(Seq<char>),
    Link { text: Seq<InlineV>, url: Seq<char> },
    Image(ImageV),
    SoftBreak,
    HardBreak,
}

#[verifier::ext_equal]
pub struct LicenseInfoV {
    pub attribution: Option<Seq<char>>,
    pub changes: Option<Seq<char>>,
}

#[verifier::ext_equal]
pub struct TableV {
    pub headers: Seq<Seq<char>>,
    pub alignments: Seq<Alignment>,
    pub rows: Seq<Seq<Seq<char>>>,
}

#[verifier::ext_equal]
pub struct ListItemV {
    pub content: Seq<ElementV>,
    pub task: Option<bool>,
}

#[verifier::ext_equal]
pub enum ElementV {
    Heading { level: u8, text: Seq<char> },
    Paragraph(Seq<InlineV>),
    CodeBlock { language: Option<Seq<char>>, code: Seq<char> },
    BlockQuote(Seq<ElementV>),
    List { ordered: bool, items: Seq<ListItemV> },
    ThematicBreak,
    PageBreak,
    ColumnLayout(u8),
    StatBlock(Seq<char>),
    BoxedText(Seq<char>),
    Image(ImageV),
    Table(TableV),
    License { kind: LicenseKind, info: LicenseInfoV },
    Raw(Seq<char>),
}

pub open spec fn opt_str_v(o: Option<String>) -> Option<Seq<char>> {
    match o {
        Some(s) => Some(s@),
        None => None,
    }
}

pub open spec fn strings_v(v: Seq<String>) -> Seq<Seq<char>> {
    Seq::new(v.len(), |i: int| v[i]@)
}

pub open spec fn image_v(im: Image) -> ImageV {
    ImageV { alt: im.alt@, path: im.path@, width: opt_str_v(im.width) }
}

pub open spec fn info_v(info: LicenseInfo) -> LicenseInfoV {
    LicenseInfoV { attribution: opt_str_v(info.attribution), changes: opt_str_v(info.changes) }
}

pub open spec fn table_v(t: Table) -> TableV {
    TableV {
        headers: strings_v(t.headers@),
        alignments: t.alignments@,
        rows: Seq::new(t.rows@.len(), |i: int| strings_v(t.rows@[i]@)),
    }
}

/// The model of an inline.
pub open spec fn inline_v(x: Inline) -> InlineV
    decreases x,
{
    match x {
        Inline::Text(t) => InlineV::Text(t@),
        Inline::Emphasis(v) => InlineV::Emphasis(
            Seq::new(
                v@.len(),
                |i: int|
                    if 0 <= i < v@.len() {
                        inline_v(v@[i])
                    } else {
                        InlineV::SoftBreak
                    },
            ),
        ),
        Inline::Strong(v) => InlineV::Strong(
            Seq::new(
                v@.len(),
                |i: int|
                    if 0 <= i < v@.len() {
                        inline_v(v@[i])
                    } else {
                        InlineV::SoftBreak
                    },
            ),
        ),
        Inline::Code(t) => InlineV::Code(t@),
        Inline::Link { text, url } => InlineV::Link {
            text: Seq::new(
                text@.len(),
                |i: int|
                    if 0 <= i < text@.len() {
                        inline_v(text@[i])
                    } else {
                        InlineV::SoftBreak
                    },
            ),
            url: url@,
        },
        Inline::Image(im) => InlineV::Image(image_v(im)),
        Inline::SoftBreak => InlineV::SoftBreak,
        Inline::HardBreak => InlineV::HardBreak,
    }
}

/// The model of a sequence of inlines.
pub open spec fn inlines_v(s: Seq<Inline>) -> Seq<InlineV> {
    Seq::new(s.len(), |i: int| inline_v(s[i]))
}

/// The model of an element.
pub open spec fn element_v(e: Element) -> ElementV
    decreases e,
{
    match e {
        Element::Heading { level, text } => ElementV::Heading { level, text: text@ },
        Element::Paragraph(v) => ElementV::Paragraph(inlines_v(v@)),
        Element::CodeBlock { language, code } => ElementV::CodeBlock {
            language: opt_str_v(language),
            code: code@,
        },
        Element::BlockQuote(v) => ElementV::BlockQuote(
            Seq::new(
                v@.len(),
                |i: int|
                    if 0 <= i < v@.len() {
                        element_v(v@[i])
                    } else {
                        ElementV::ThematicBreak
                    },
            ),
        ),
        Element::List { ordered, items } => ElementV::List {
            ordered,
            items: Seq::new(
                items@.len(),
                |i: int|
                    if 0 <= i < items@.len() {
                        ListItemV {
                            content: Seq::new(
                                items@[i].content@.len(),
                                |j: int|
                                    if 0 <= j < items@[i].content@.len() {
                                        element_v(items@[i].content@[j])
                                    } else {
                                        ElementV::ThematicBreak
                                    },
                            ),
                            task: items@[i].task,
                        }
                    } else {
                        ListItemV { content: Seq::empty(), task: None }
                    },
            ),
        },
        Element::ThematicBreak => ElementV::ThematicBreak,
        Element::PageBreak => ElementV::PageBreak,
        Element::ColumnLayout(n) => ElementV::ColumnLayout(n),
        Element::StatBlock(t) => ElementV::StatBlock(t@),
        Element::BoxedText(t) => ElementV::BoxedText(t@),
        Element::Image(im) => ElementV::Image(image_v(im)),
        Element::Table(t) => ElementV::Table(table_v(t)),
        Element::License { kind, info } => ElementV::License { kind, info: info_v(info) },
        Element::Raw(t) => ElementV::Raw(t@),
    }
}

/// The model of a sequence of elements.
pub open spec fn elements_v(s: Seq<Element>) -> Seq<ElementV> {
    Seq::new(s.len(), |i: int| element_v(s[i]))
}

/// The model of a list item.
pub open spec fn item_v(it: ListItem) -> ListItemV {
    ListItemV { content: elements_v(it.content@), task: it.task }
}

/// The model of a sequence of list items.
pub open spec fn items_v(s: Seq<ListItem>) -> Seq<ListItemV> {
    Seq::new(s.len(), |i: int| item_v(s[i]))
}

pub proof fn lemma_element_v_unfold(e: Element)
    ensures
        e matches Element::BlockQuote(v) ==> element_v(e) == ElementV::BlockQuote(elements_v(v@)),
        e matches Element::List { ordered, items } ==> element_v(e) == (ElementV::List {
            ordered,
            items: items_v(items@),
        }),
{
    match e {
        Element::BlockQuote(v) => {
            assert(element_v(e) == ElementV::BlockQuote(elements_v(v@))) by {
                if let ElementV::BlockQuote(s) = element_v(e) {
                    assert(s =~= elements_v(v@));
                }
            }
        },
        Element::List { ordered, items } => {
            if let ElementV::List { items: s, .. } = element_v(e) {
                assert forall|i: int| 0 <= i < items@.len() implies s[i] == item_v(items@[i]) by {
                    assert(s[i].content =~= elements_v(items@[i].content@));
                }
                assert(s =~= items_v(items@));
            }
        },
        _ => {},
    }
}

pub proof fn lemma_inline_v_unfold(x: Inline)
    ensures
        x matches Inline::Emphasis(v) ==> inline_v(x) == InlineV::Emphasis(inlines_v(v@)),
        x matches Inline::Strong(v) ==> inline_v(x) == InlineV::Strong(inlines_v(v@)),
        x matches Inline::Link { text, url } ==> inline_v(x) == (InlineV::Link {
            text: inlines_v(text@),
            url: url@,
        }),
{
    match x {
        Inline::Emphasis(v) => {
            if let InlineV::Emphasis(s) = inline_v(x) {
                assert(s =~= inlines_v(v@));
            }
        },
        Inline::Strong(v) => {
            if let InlineV::Strong(s) = inline_v(x) {
                assert(s =~= inlines_v(v@));
            }
        },
        Inline::Link { text, url } => {
            if let InlineV::Link { text: s, .. } = inline_v(x) {
                assert(s =~= inlines_v(text@));
            }
        },
        _ => {},
    }
}

impl View for Document {
    type V = Seq<ElementV>;

    open spec fn view(&self) -> Seq<ElementV> {
        elements_v(self.elements@)
    }
}

impl Document {
    pub fn new() -> (d: Self)
        ensures
            d@ == Seq::<ElementV>::empty(),
    {
        let d = Self { elements: Vec::new() };
        assert(d@ =~= Seq::<ElementV>::empty());
        d
    }

    pub fn push(&mut self, element: Element)
        ensures
            final(self)@ == old(self)@.push(element_v(element)),
    {
        self.elements.push(element);
        assert(self@ =~= old(self)@.push(element_v(element)));
    }
}

impl Default for Document {
    fn default() -> (d: Self)
        ensures
            d@ == Seq::<ElementV>::empty(),
    {
        Self::new()
    }
}

// ---------------------------------------------------------------------------
// Copies
// ---------------------------------------------------------------------------

fn clone_opt_string(o: &Option<String>) -> (r: Option<String>)
    ensures
        r == *o,
{
    match o {
        Some(s) => Some(s.clone()),
        None => None,
    }
}

fn clone_image(im: &Image) -> (r: Image)
    ensures
        r == *im,
{
    Image { alt: im.alt.clone(), path: im.path.clone(), width: clone_opt_string(&im.width) }
}

fn clone_strings(v: &Vec<String>) -> (r: Vec<String>)
    ensures
        r@ == v@,
{
    let mut out: Vec<String> = Vec::new();
    let mut k: usize = 0;
    while k < v.len()
        invariant
            0 <= k <= v.len(),
            out@ == v@.take(k as int),
        decreases v.len() - k,
    {
        out.push(v[k].clone());
        assert(out@ =~= v@.take(k + 1));
        k += 1;
    }
    assert(v@.take(k as int) =~= v@);
    out
}

fn clone_table(t: &Table) -> (r: Table)
    ensures
        table_v(r) == table_v(*t),
{
    let mut alignments: Vec<Alignment> = Vec::new();
    let mut k: usize = 0;
    while k < t.alignments.len()
        invariant
            0 <= k <= t.alignments.len(),
            alignments@ == t.alignments@.take(k as int),
        decreases t.alignments.len() - k,
    {
        alignments.push(t.alignments[k]);
        assert(alignments@ =~= t.alignments@.take(k + 1));
        k += 1;
    }
    assert(t.alignments@.take(k as int) =~= t.alignments@);
    let mut rows: Vec<Vec<String>> = Vec::new();
    let mut j: usize = 0;
    while j < t.rows.len()
        invariant
            0 <= j <= t.rows.len(),
            rows@.len() == j,
            forall|i: int| 0 <= i < j ==> (#[trigger] rows@[i])@ == t.rows@[i]@,
        decreases t.rows.len() - j,
    {
        rows.push(clone_strings(&t.rows[j]));
        j += 1;
    }
    let r = Table { headers: clone_strings(&t.headers), alignments, rows };
    assert(table_v(r).rows =~= table_v(*t).rows);
    r
}

fn clone_info(info: &LicenseInfo) -> (r: LicenseInfo)
    ensures
        r == *info,
{
    LicenseInfo {
        attribution: clone_opt_string(&info.attribution),
        changes: clone_opt_string(&info.changes),
    }
}

fn clone_inline(x: &Inline) -> (r: Inline)
    ensures
        inline_v(r) == inline_v(*x),
    decreases x,
{
    proof {
        lemma_inline_v_unfold(*x);
    }
    let r = match x {
        Inline::Text(t) => Inline::Text(t.clone()),
        Inline::Emphasis(v) => Inline::Emphasis(clone_inlines(v)),
        Inline::Strong(v) => Inline::Strong(clone_inlines(v)),
        Inline::Code(t) => Inline::Code(t.clone()),
        Inline::Link { text, url } => Inline::Link { text: clone_inlines(text), url: url.clone() },
        Inline::Image(im) => Inline::Image(clone_image(im)),
        Inline::SoftBreak => Inline::SoftBreak,
        Inline::HardBreak => Inline::HardBreak,
    };
    proof {
        lemma_inline_v_unfold(r);
    }
    r
}

fn clone_inlines(v: &Vec<Inline>) -> (r: Vec<Inline>)
    ensures
        inlines_v(r@) == inlines_v(v@),
    decreases v,
{
    let mut out: Vec<Inline> = Vec::new();
    let mut k: usize = 0;
    while k < v.len()
        invariant
            0 <= k <= v.len(),
            out@.len() == k,
            forall|i: int| 0 <= i < k ==> inline_v(#[trigger] out@[i]) == inline_v(v@[i]),
        decreases v.len() - k,
    {
        proof {
            assert(decreases_to!(*v => v@));
            assert(decreases_to!(v@ => v@[k as int]));
        }
        out.push(clone_inline(&v[k]));
        k += 1;
    }
    assert(inlines_v(out@) =~= inlines_v(v@));
    out
}

fn clone_element(e: &Element) -> (r: Element)
    ensures
        element_v(r) == element_v(*e),
    decreases e,
{
    proof {
        lemma_element_v_unfold(*e);
    }
    let r = match e {
        Element::Heading { level, text } => Element::Heading { level: *level, text: text.clone() },
        Element::Paragraph(v) => Element::Paragraph(clone_inlines(v)),
        Element::CodeBlock { language, code } => Element::CodeBlock {
            language: clone_opt_string(language),
            code: code.clone(),
        },
        Element::BlockQuote(v) => Element::BlockQuote(clone_elements(v)),
        Element::List { ordered, items } => Element::List {
            ordered: *ordered,
            items: clone_items(items),
        },
        Element::ThematicBreak => Element::ThematicBreak,
        Element::PageBreak => Element::PageBreak,
        Element::ColumnLayout(n) => Element::ColumnLayout(*n),
        Element::StatBlock(t) => Element::StatBlock(t.clone()),
        Element::BoxedText(t) => Element::BoxedText(t.clone()),
        Element::Image(im) => Element::Image(clone_image(im)),
        Element::Table(t) => Element::Table(clone_table(t)),
        Element::License { kind, info } => Element::License { kind: *kind, info: clone_info(info) },
        Element::Raw(t) => Element::Raw(t.clone()),
    };
    proof {
        lemma_element_v_unfold(r);
    }
    r
}

fn clone_elements(v: &Vec<Element>) -> (r: Vec<Element>)
    ensures
        elements_v(r@) == elements_v(v@),
    decreases v,
{
    let mut out: Vec<Element> = Vec::new();
    let mut k: usize = 0;
    while k < v.len()
        invariant
            0 <= k <= v.len(),
            out@.len() == k,
            forall|i: int| 0 <= i < k ==> element_v(#[trigger] out@[i]) == element_v(v@[i]),
        decreases v.len() - k,
    {
        proof {
            assert(decreases_to!(*v => v@));
            assert(decreases_to!(v@ => v@[k as int]));
        }
        out.push(clone_element(&v[k]));
        k += 1;
    }
    assert(elements_v(out@) =~= elements_v(v@));
    out
}

fn clone_items(v: &Vec<ListItem>) -> (r: Vec<ListItem>)
    ensures
        items_v(r@) == items_v(v@),
    decreases v,
{
    let mut out: Vec<ListItem> = Vec::new();
    let mut k: usize = 0;
    while k < v.len()
        invariant
            0 <= k <= v.len(),
            out@.len() == k,
            forall|i: int| 0 <= i < k ==> item_v(#[trigger] out@[i]) == item_v(v@[i]),
        decreases v.len() - k,
    {
        proof {
            assert(decreases_to!(*v => v@));
            assert(decreases_to!(v@ => v@[k as int]));
            assert(decreases_to!(v@[k as int] => v@[k as int].content));
        }
        let item = ListItem { content: clone_elements(&v[k].content), task: v[k].task };
        out.push(item);
        k += 1;
    }
    assert(items_v(out@) =~= items_v(v@));
    out
}

impl Clone for Image {
    fn clone(&self) -> (r: Self)
        ensures
            r == *self,
    {
        clone_image(self)
    }
}

impl Clone for Table {
    fn clone(&self) -> (r: Self)
        ensures
            table_v(r) == table_v(*self),
    {
        clone_table(self)
    }
}

impl Clone for LicenseInfo {
    fn clone(&self) -> (r: Self)
        ensures
            r == *self,
    {
        clone_info(self)
    }
}

impl Clone for Inline {
    fn clone(&self) -> (r: Self)
        ensures
            inline_v(r) == inline_v(*self),
    {
        clone_inline(self)
    }
}

impl Clone for Element {
    fn clone(&self) -> (r: Self)
        ensures
            element_v(r) == element_v(*self),
    {
        clone_element(self)
    }
}

impl Clone for ListItem {
    fn clone(&self) -> (r: Self)
        ensures
            item_v(r) == item_v(*self),
    {
        ListItem { content: clone_elements(&self.content), task: self.task }
    }
}

impl Clone for Document {
    fn clone(&self) -> (r: Self)
        ensures
            r@ == self@,
    {
        Document { elements: clone_elements(&self.elements) }
    }
}

} // verus!
