//! The alt-markdown syntax tree, its attribute records, and the mathematical
//! view of each node that the contracts of the parser speak of.
use vstd::prelude::*;

verus! {

/// A byte range into the original source, reserved for a future lossless
/// concrete syntax tree.
#[derive(Debug, Clone, Copy, PartialEq, Eq)]
pub struct Span {
    /// Inclusive start byte offset.
    pub start: usize,
    /// Exclusive end byte offset.
    pub end: usize,
}

/// A parsed alt-markdown document: a sequence of block-level nodes.
#[derive(Debug, PartialEq, Eq)]
pub struct Document {
    /// Top-level block nodes in document order.
    pub blocks: Vec<Block>,
}

/// Block-level content.
#[derive(Debug, PartialEq, Eq)]
pub enum Block {
    /// A heading, level 1 to 6, with inline content.
    Heading { level: u8, content: Vec<Inline> },
    /// A paragraph of inline content.
    Paragraph(Vec<Inline>),
    /// A block quote containing block-level children.
    BlockQuote(Vec<Block>),
    /// An ordered or unordered list.
    List(List),
    /// A code block with an info string and literal contents.
    CodeBlock { info: String, literal: String },
    /// A thematic break.
    ThematicBreak,
    /// A GFM pipe table.
    Table(Table),
    /// A GFM footnote definition.
    FootnoteDefinition { name: String, blocks: Vec<Block> },
    /// A raw HTML block, sanitised before rendering.
    HtmlBlock(String),
    /// A standard-library component.
    Component(Component),
}

/// An ordered or unordered list.
#[derive(Debug, PartialEq, Eq)]
pub struct List {
    /// Whether the list is ordered rather than bulleted.
    pub ordered: bool,
    /// The starting number for an ordered list (1 for unordered).
    pub start: u32,
    /// Whether the list is tight (its items' paragraphs render without `<p>`).
    pub tight: bool,
    /// The list items.
    pub items: Vec<ListItem>,
}

/// A single list item, with its optional GFM task-list state.
#[derive(Debug, PartialEq, Eq)]
pub struct ListItem {
    /// `None` for an ordinary item; `Some(checked)` for a task item.
    pub task: Option<bool>,
    /// The block-level content of the item.
    pub blocks: Vec<Block>,
}

/// A GFM pipe table.
#[derive(Debug, PartialEq, Eq)]
pub struct Table {
    /// Per-column alignment, in column order.
    pub alignments: Vec<Alignment>,
    /// The header row: one cell of inline content per column.
    pub header: Vec<Vec<Inline>>,
    /// The body rows.
    pub rows: Vec<Vec<Vec<Inline>>>,
}

/// Column alignment for a [`Table`].
#[derive(Debug, Clone, Copy, PartialEq, Eq)]
pub enum Alignment {
    /// No explicit alignment.
    Unaligned,
    Left,
    Center,
    Right,
}

/// Inline-level content.
#[derive(Debug, PartialEq, Eq)]
pub enum Inline {
    /// Literal text.
    Text(String),
    /// Emphasised content.
    Emphasis(Vec<Inline>),
    /// Strong content.
    Strong(Vec<Inline>),
    /// Inline code.
    Code(String),
    /// GFM strikethrough.
    Strikethrough(Vec<Inline>),
    /// A GFM footnote reference.
    FootnoteReference { name: String },
    /// A cross-reference `[#label]`.
    CrossRef { target: String },
    /// A citation `[@key]`.
    Citation { key: String },
    /// A hyperlink.
    Link { url: String, title: String, content: Vec<Inline> },
    /// An image.
    Image { url: String, title: String, alt: Vec<Inline> },
    /// A soft line break.
    SoftBreak,
    /// A hard line break.
    HardBreak,
    /// Raw inline HTML, sanitised before rendering.
    HtmlInline(String),
}

/// Attributes shared across the component syntaxes, written `{#id .class key=value}`.
#[derive(Debug, PartialEq, Eq)]
pub struct Attrs {
    /// The `#id` attribute, if present.
    pub id: Option<String>,
    /// The `.class` attributes, in source order.
    pub classes: Vec<String>,
    /// The `key=value` pairs, in source order.
    pub pairs: Vec<(String, String)>,
}

/// A standard-library component node.
#[derive(Debug, PartialEq, Eq)]
pub struct Component {
    /// The component name, for example `callout` or `chart`.
    pub name: String,
    /// The component's attributes.
    pub attrs: Attrs,
    /// The component's body.
    pub body: ComponentBody,
}

/// The body of a component: block children (directive) or a raw payload (fence).
#[derive(Debug, PartialEq, Eq)]
pub enum ComponentBody {
    /// Block-level children, from a container directive.
    Children(Vec<Block>),
    /// A raw text payload, from a fenced component.
    Raw(String),
}

/// Errors that can arise when building an alt-markdown syntax tree.
#[derive(Debug, PartialEq, Eq)]
pub enum AstError {
    /// A parser produced or met a node that violates a structural rule.
    Malformed(String),
}

impl AstError {
    /// The human-readable description of the error.
    pub fn message(&self) -> (r: String)
        ensures
            r@ == self.msg(),
    {
        match self {
            AstError::Malformed(m) => {
                let mut r = String::new();
                r.append("malformed AST node: ");
                r.append(m.as_str());
                r
            }
        }
    }

    /// The description that [`AstError::message`] returns.
    pub open spec fn msg(&self) -> Seq<char> {
        match self {
            AstError::Malformed(m) => "malformed AST node: "@ + m@,
        }
    }
}

/// The value an attribute key maps to: the first pair with that key.
pub open spec fn first_value(pairs: Seq<(Seq<char>, Seq<char>)>, key: Seq<char>) -> Option<Seq<char>>
    decreases pairs.len(),
{
    if pairs.len() == 0 {
        None
    } else if pairs[0].0 == key {
        Some(pairs[0].1)
    } else {
        first_value(pairs.drop_first(), key)
    }
}

impl Attrs {
    /// Attributes with no id, no classes and no pairs.
    pub fn new() -> (a: Attrs)
        ensures
            a@ == AttrsV::empty(),
    {
        let a = Attrs { id: None, classes: Vec::new(), pairs: Vec::new() };
        assert(a@.classes =~= Seq::<Seq<char>>::empty());
        assert(a@.pairs =~= Seq::<(Seq<char>, Seq<char>)>::empty());
        a
    }

    /// Look up the first value for `key`, if any.
    pub fn get(&self, key: &str) -> (r: Option<&str>)
        ensures
            r.is_some() == first_value(self@.pairs, key@).is_some(),
            r matches Some(v) ==> v@ == first_value(self@.pairs, key@)->0,
    {
        let mut i: usize = 0;
        assert(self@.pairs.skip(0) =~= self@.pairs);
        while i < self.pairs.len()
            invariant
                i <= self.pairs.len(),
                first_value(self@.pairs, key@) == first_value(self@.pairs.skip(i as int), key@),
            decreases self.pairs.len() - i,
        {
            assert(self@.pairs.skip(i as int).drop_first() =~= self@.pairs.skip(i + 1));
            if crate::text::str_eq(self.pairs[i].0.as_str(), key) {
                return Some(self.pairs[i].1.as_str());
            }
            i = i + 1;
        }
        None
    }
}

/// The mathematical view of [`Attrs`].
pub struct AttrsV {
    pub id: Option<Seq<char>>,
    pub classes: Seq<Seq<char>>,
    pub pairs: Seq<(Seq<char>, Seq<char>)>,
}

impl AttrsV {
    pub open spec fn empty() -> AttrsV {
        AttrsV { id: None, classes: Seq::empty(), pairs: Seq::empty() }
    }
}

impl View for Attrs {
    type V = AttrsV;

    open spec fn view(&self) -> AttrsV {
        AttrsV {
            id: match self.id {
                Some(s) => Some(s@),
                None => None,
            },
            classes: self.classes@.map_values(|s: String| s@),
            pairs: self.pairs@.map_values(|p: (String, String)| (p.0@, p.1@)),
        }
    }
}

impl ListItem {
    /// An ordinary (non-task) list item wrapping the given blocks.
    pub fn new(blocks: Vec<Block>) -> (r: ListItem)
        ensures
            r.task.is_none(),
            r.blocks == blocks,
    {
        ListItem { task: None, blocks }
    }
}

/// The mathematical view of an [`Inline`].
pub enum InlineV {
    Text(Seq<char>),
    Emphasis(Seq<InlineV>),
    Strong(Seq<InlineV>),
    Code(Seq<char>),
    Strikethrough(Seq<InlineV>),
    FootnoteReference(Seq<char>),
    CrossRef(Seq<char>),
    Citation(Seq<char>),
    Link { url: Seq<char>, title: Seq<char>, content: Seq<InlineV> },
    Image { url: Seq<char>, title: Seq<char>, alt: Seq<InlineV> },
    SoftBreak,
    HardBreak,
    HtmlInline(Seq<char>),
}

/// The mathematical view of a [`Block`].
pub enum BlockV {
    Heading { level: u8, content: Seq<InlineV> },
    Paragraph(Seq<InlineV>),
    BlockQuote(Seq<BlockV>),
    List { ordered: bool, start: u32, tight: bool, items: Seq<ItemV> },
    CodeBlock { info: Seq<char>, literal: Seq<char> },
    ThematicBreak,
    Table { alignments: Seq<Alignment>, header: Seq<Seq<InlineV>>, rows: Seq<Seq<Seq<InlineV>>> },
    FootnoteDefinition { name: Seq<char>, blocks: Seq<BlockV> },
    HtmlBlock(Seq<char>),
    Component { name: Seq<char>, attrs: AttrsV, body: BodyV },
}

/// The mathematical view of a [`ListItem`].
pub struct ItemV {
    pub task: Option<bool>,
    pub blocks: Seq<BlockV>,
}

/// The mathematical view of a [`ComponentBody`].
pub enum BodyV {
    Children(Seq<BlockV>),
    Raw(Seq<char>),
}

pub open spec fn inline_v(i: Inline) -> InlineV
    decreases i,
{
    match i {
        Inline::Text(s) => InlineV::Text(s@),
        Inline::Emphasis(c) => InlineV::Emphasis(inlines_v(c@)),
        Inline::Strong(c) => InlineV::Strong(inlines_v(c@)),
        Inline::Code(s) => InlineV::Code(s@),
        Inline::Strikethrough(c) => InlineV::Strikethrough(inlines_v(c@)),
        Inline::FootnoteReference { name } => InlineV::FootnoteReference(name@),
        Inline::CrossRef { target } => InlineV::CrossRef(target@),
        Inline::Citation { key } => InlineV::Citation(key@),
        Inline::Link { url, title, content } => InlineV::Link {
            url: url@,
            title: title@,
            content: inlines_v(content@),
        },
        Inline::Image { url, title, alt } => InlineV::Image {
            url: url@,
            title: title@,
            alt: inlines_v(alt@),
        },
        Inline::SoftBreak => InlineV::SoftBreak,
        Inline::HardBreak => InlineV::HardBreak,
        Inline::HtmlInline(s) => InlineV::HtmlInline(s@),
    }
}

pub open spec fn inlines_v(s: Seq<Inline>) -> Seq<InlineV>
    decreases s,
{
    if s.len() == 0 {
        Seq::empty()
    } else {
        inlines_v(s.drop_last()).push(inline_v(s.last()))
    }
}

pub open spec fn cells_v(s: Seq<Vec<Inline>>) -> Seq<Seq<InlineV>>
    decreases s,
{
    if s.len() == 0 {
        Seq::empty()
    } else {
        cells_v(s.drop_last()).push(inlines_v(s.last()@))
    }
}

pub open spec fn rows_v(s: Seq<Vec<Vec<Inline>>>) -> Seq<Seq<Seq<InlineV>>>
    decreases s,
{
    if s.len() == 0 {
        Seq::empty()
    } else {
        rows_v(s.drop_last()).push(cells_v(s.last()@))
    }
}

pub open spec fn block_v(b: Block) -> BlockV
    decreases b,
{
    match b {
        Block::Heading { level, content } => BlockV::Heading { level, content: inlines_v(content@) },
        Block::Paragraph(c) => BlockV::Paragraph(inlines_v(c@)),
        Block::BlockQuote(c) => BlockV::BlockQuote(blocks_v(c@)),
        Block::List(l) => BlockV::List {
            ordered: l.ordered,
            start: l.start,
            tight: l.tight,
            items: items_v(l.items@),
        },
        Block::CodeBlock { info, literal } => BlockV::CodeBlock { info: info@, literal: literal@ },
        Block::ThematicBreak => BlockV::ThematicBreak,
        Block::Table(t) => BlockV::Table {
            alignments: t.alignments@,
            header: cells_v(t.header@),
            rows: rows_v(t.rows@),
        },
        Block::FootnoteDefinition { name, blocks } => BlockV::FootnoteDefinition {
            name: name@,
            blocks: blocks_v(blocks@),
        },
        Block::HtmlBlock(s) => BlockV::HtmlBlock(s@),
        Block::Component(c) => BlockV::Component {
            name: c.name@,
            attrs: c.attrs@,
            body: match c.body {
                ComponentBody::Children(k) => BodyV::Children(blocks_v(k@)),
                ComponentBody::Raw(r) => BodyV::Raw(r@),
            },
        },
    }
}

pub open spec fn blocks_v(s: Seq<Block>) -> Seq<BlockV>
    decreases s,
{
    if s.len() == 0 {
        Seq::empty()
    } else {
        blocks_v(s.drop_last()).push(block_v(s.last()))
    }
}

pub open spec fn items_v(s: Seq<ListItem>) -> Seq<ItemV>
    decreases s,
{
    if s.len() == 0 {
        Seq::empty()
    } else {
        items_v(s.drop_last()).push(ItemV { task: s.last().task, blocks: blocks_v(s.last().blocks@) })
    }
}

impl View for Inline {
    type V = InlineV;

    open spec fn view(&self) -> InlineV {
        inline_v(*self)
    }
}

impl View for Block {
    type V = BlockV;

    open spec fn view(&self) -> BlockV {
        block_v(*self)
    }
}

impl View for Document {
    type V = Seq<BlockV>;

    open spec fn view(&self) -> Seq<BlockV> {
        blocks_v(self.blocks@)
    }
}

/// Each view of a sequence has one entry per element, each the view of that element.
pub broadcast proof fn lemma_inlines_v(s: Seq<Inline>)
    ensures
        #[trigger] inlines_v(s).len() == s.len(),
        forall|k: int| 0 <= k < s.len() ==> #[trigger] inlines_v(s)[k] == inline_v(s[k]),
    decreases s.len(),
{
    if s.len() > 0 {
        lemma_inlines_v(s.drop_last());
    }
}

pub broadcast proof fn lemma_blocks_v(s: Seq<Block>)
    ensures
        #[trigger] blocks_v(s).len() == s.len(),
        forall|k: int| 0 <= k < s.len() ==> #[trigger] blocks_v(s)[k] == block_v(s[k]),
    decreases s.len(),
{
    if s.len() > 0 {
        lemma_blocks_v(s.drop_last());
    }
}

pub broadcast proof fn lemma_cells_v(s: Seq<Vec<Inline>>)
    ensures
        #[trigger] cells_v(s).len() == s.len(),
        forall|k: int| 0 <= k < s.len() ==> #[trigger] cells_v(s)[k] == inlines_v(s[k]@),
    decreases s.len(),
{
    if s.len() > 0 {
        lemma_cells_v(s.drop_last());
    }
}

pub broadcast proof fn lemma_rows_v(s: Seq<Vec<Vec<Inline>>>)
    ensures
        #[trigger] rows_v(s).len() == s.len(),
        forall|k: int| 0 <= k < s.len() ==> #[trigger] rows_v(s)[k] == cells_v(s[k]@),
    decreases s.len(),
{
    if s.len() > 0 {
        lemma_rows_v(s.drop_last());
    }
}

pub broadcast proof fn lemma_items_v(s: Seq<ListItem>)
    ensures
        #[trigger] items_v(s).len() == s.len(),
        forall|k: int|
            0 <= k < s.len() ==> #[trigger] items_v(s)[k] == (ItemV {
                task: s[k].task,
                blocks: blocks_v(s[k].blocks@),
            }),
    decreases s.len(),
{
    if s.len() > 0 {
        lemma_items_v(s.drop_last());
    }
}

pub proof fn lemma_inlines_v_concat(a: Seq<Inline>, b: Seq<Inline>)
    ensures
        inlines_v(a + b) == inlines_v(a) + inlines_v(b),
{
    lemma_inlines_v(a);
    lemma_inlines_v(b);
    lemma_inlines_v(a + b);
    assert(inlines_v(a + b) =~= inlines_v(a) + inlines_v(b));
}

pub proof fn lemma_blocks_v_concat(a: Seq<Block>, b: Seq<Block>)
    ensures
        blocks_v(a + b) == blocks_v(a) + blocks_v(b),
{
    lemma_blocks_v(a);
    lemma_blocks_v(b);
    lemma_blocks_v(a + b);
    assert(blocks_v(a + b) =~= blocks_v(a) + blocks_v(b));
}

pub broadcast group group_views {
    lemma_inlines_v,
    lemma_blocks_v,
    lemma_cells_v,
    lemma_rows_v,
    lemma_items_v,
}

} // verus!
