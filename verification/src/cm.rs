//! The bridge to comrak, the CommonMark engine: its parse of a text is read as
//! a preorder list of plain node records, and that list is decoded into the
//! alt-markdown syntax tree with a bound on nesting depth.
use vstd::prelude::*;
use crate::ast::{
    Alignment, Block, BlockV, Component, ComponentBody, Inline, InlineV, List, ListItem, ItemV,
    Table, AttrsV, BodyV, AstError, inlines_v, blocks_v, items_v, cells_v, rows_v,
};
use crate::attrs::{attrs_of, parse_attrs_in};
use crate::registry::{Kind, lookup, registry};
use crate::text::{chars_of, is_ws, is_whitespace, str_eq, string_of};
use comrak::nodes::NodeValue as V;

verus! {

broadcast use crate::ast::group_views;

/// Maximum nesting depth the parser accepts, for directives and for the block
/// and inline tree alike. Deeper input is a defined error, never a crash.
pub const MAX_NESTING_DEPTH: usize = 256;

/// The comrak extensions a parse runs with.
#[derive(Debug, Clone, Copy, PartialEq, Eq)]
pub struct CmFlags {
    pub table: bool,
    pub tasklist: bool,
    pub strikethrough: bool,
    pub autolink: bool,
    pub footnotes: bool,
    /// Keep footnote definitions where they stand, referenced or not.
    pub keep_footnote_definitions: bool,
}

/// The GitHub extensions alt-markdown adopts (tables, task lists, strikethrough,
/// autolinks, footnotes), with footnote definitions kept in place so that a
/// reference in another text run can still resolve to them.
pub open spec fn gfm() -> CmFlags {
    CmFlags {
        table: true,
        tasklist: true,
        strikethrough: true,
        autolink: true,
        footnotes: true,
        keep_footnote_definitions: true,
    }
}

pub fn gfm_flags() -> (f: CmFlags)
    ensures
        f == gfm(),
{
    CmFlags {
        table: true,
        tasklist: true,
        strikethrough: true,
        autolink: true,
        footnotes: true,
        keep_footnote_definitions: true,
    }
}

/// Plain CommonMark: no extension.
pub open spec fn plain() -> CmFlags {
    CmFlags {
        table: false,
        tasklist: false,
        strikethrough: false,
        autolink: false,
        footnotes: false,
        keep_footnote_definitions: false,
    }
}

#[verifier::external_type_specification]
#[verifier::external_body]
pub struct ExOptions<'c>(comrak::Options<'c>);

/// Builds comrak's `Options` from `Options::default()` with the given
/// extensions switched on. Nothing is stated of the opaque result.
#[verifier::external_body]
pub(crate) fn cm_options(f: CmFlags) -> comrak::Options<'static> {
    let mut o = comrak::Options::default();
    o.extension.table = f.table;
    o.extension.tasklist = f.tasklist;
    o.extension.strikethrough = f.strikethrough;
    o.extension.autolink = f.autolink;
    o.extension.footnotes = f.footnotes;
    o.parse.leave_footnote_definitions = f.keep_footnote_definitions;
    o
}

/// One node of comrak's tree, as plain values: its kind (comrak's XML node
/// name), its number of children, and the payloads the decoder reads.
pub struct CmNodeV {
    pub kind: Seq<char>,
    pub count: usize,
    /// Text, code, raw HTML, or code-block literal.
    pub text: Seq<char>,
    /// Code-block info string, link or image destination, or footnote label.
    pub label: Seq<char>,
    /// Link or image title.
    pub title: Seq<char>,
    /// Heading level, list start, task state (1 checked, 0 not) or header-row flag.
    pub num: usize,
    pub ordered: bool,
    pub tight: bool,
    /// Table column alignments: 0 none, 1 left, 2 centre, 3 right.
    pub aligns: Seq<u8>,
}

/// The tree that comrak's `parse_document` builds from `source` with the given
/// extensions, its nodes listed in preorder (the document root first).
pub uninterp spec fn comrak_tree(source: Seq<char>, flags: CmFlags) -> Seq<CmNodeV>;

/// The HTML that comrak's `markdown_to_html` renders from `source` with the
/// given extensions and its safe defaults (raw HTML and dangerous links
/// suppressed).
pub uninterp spec fn comrak_html(source: Seq<char>, flags: CmFlags) -> Seq<char>;

/// Calls comrak's `markdown_to_html` with the given extensions and otherwise
/// default options. The result depends on its arguments alone; the contract
/// names it and says nothing more of it.
#[verifier::external_body]
fn cm_markdown_to_html(source: &str, flags: CmFlags) -> (r: String)
    ensures
        r@ == comrak_html(source@, flags),
{
    comrak::markdown_to_html(source, &cm_options(flags))
}

pub fn plain_flags() -> (f: CmFlags)
    ensures
        f == plain(),
{
    CmFlags {
        table: false,
        tasklist: false,
        strikethrough: false,
        autolink: false,
        footnotes: false,
        keep_footnote_definitions: false,
    }
}

/// Render CommonMark `source` to HTML with comrak's safe defaults: no
/// extension, raw HTML and dangerous links suppressed.
pub fn render_html(source: &str) -> (r: String)
    ensures
        r@ == comrak_html(source@, plain()),
{
    cm_markdown_to_html(source, plain_flags())
}

/// Calls comrak's `parse_document` and lists each node's XML node name, in preorder.
#[verifier::external_body]
fn cm_kinds(source: &str, flags: CmFlags) -> (r: Vec<String>)
    ensures
        r@.len() == comrak_tree(source@, flags).len(),
        forall|i: int| 0 <= i < r@.len() ==> (#[trigger] r@[i])@ == comrak_tree(source@, flags)[i].kind,
{
    let arena = comrak::Arena::new();
    let root = comrak::parse_document(&arena, source, &cm_options(flags));
    root.descendants().map(|n| n.data().value.xml_node_name().to_owned()).collect()
}

/// Calls comrak's `parse_document` and lists each node's number of children, in preorder.
#[verifier::external_body]
fn cm_counts(source: &str, flags: CmFlags) -> (r: Vec<usize>)
    ensures
        r@.len() == comrak_tree(source@, flags).len(),
        forall|i: int| 0 <= i < r@.len() ==> #[trigger] r@[i] == comrak_tree(source@, flags)[i].count,
{
    let arena = comrak::Arena::new();
    let root = comrak::parse_document(&arena, source, &cm_options(flags));
    root.descendants().map(|n| n.children().count()).collect()
}

/// Calls comrak's `parse_document` and lists each node's literal text (text,
/// code span, raw HTML, code block), empty for other nodes, in preorder.
#[verifier::external_body]
fn cm_texts(source: &str, flags: CmFlags) -> (r: Vec<String>)
    ensures
        r@.len() == comrak_tree(source@, flags).len(),
        forall|i: int| 0 <= i < r@.len() ==> (#[trigger] r@[i])@ == comrak_tree(source@, flags)[i].text,
{
    let arena = comrak::Arena::new();
    let root = comrak::parse_document(&arena, source, &cm_options(flags));
    root.descendants().map(|n| match &n.data().value {
        V::Text(t) => t.to_string(),
        V::Code(c) => c.literal.clone(),
        V::HtmlInline(h) => h.clone(),
        V::HtmlBlock(h) => h.literal.clone(),
        V::CodeBlock(c) => c.literal.clone(),
        _ => String::new(),
    }).collect()
}

/// Calls comrak's `parse_document` and lists, in preorder, each node's label
/// (code-block info, link or image destination, footnote name) and title (link
/// or image title), empty where the node has none.
#[verifier::external_body]
fn cm_labels(source: &str, flags: CmFlags) -> (r: Vec<(String, String)>)
    ensures
        r@.len() == comrak_tree(source@, flags).len(),
        forall|i: int| 0 <= i < r@.len() ==> (#[trigger] r@[i]).0@ == comrak_tree(source@, flags)[i].label
            && r@[i].1@ == comrak_tree(source@, flags)[i].title,
{
    let arena = comrak::Arena::new();
    let root = comrak::parse_document(&arena, source, &cm_options(flags));
    root.descendants().map(|n| match &n.data().value {
        V::CodeBlock(c) => (c.info.clone(), String::new()),
        V::Link(l) | V::Image(l) => (l.url.clone(), l.title.clone()),
        V::FootnoteDefinition(d) => (d.name.clone(), String::new()),
        V::FootnoteReference(f) => (f.name.clone(), String::new()),
        _ => (String::new(), String::new()),
    }).collect()
}

/// Calls comrak's `parse_document` and lists, in preorder, each node's number
/// (heading level, list start, whether a task item is checked, whether a table
/// row is the header) and its list flags (ordered, tight).
#[verifier::external_body]
fn cm_numbers(source: &str, flags: CmFlags) -> (r: Vec<(usize, bool, bool)>)
    ensures
        r@.len() == comrak_tree(source@, flags).len(),
        forall|i: int| 0 <= i < r@.len() ==> #[trigger] r@[i] == (comrak_tree(source@, flags)[i].num,
            comrak_tree(source@, flags)[i].ordered, comrak_tree(source@, flags)[i].tight),
{
    let arena = comrak::Arena::new();
    let root = comrak::parse_document(&arena, source, &cm_options(flags));
    root.descendants().map(|n| match &n.data().value {
        V::Heading(h) => (h.level as usize, false, false),
        V::List(l) => (l.start, l.list_type == comrak::nodes::ListType::Ordered, l.tight),
        V::TaskItem(t) => (t.symbol.is_some() as usize, false, false),
        V::TableRow(h) => (*h as usize, false, false),
        _ => (0, false, false),
    }).collect()
}

/// Calls comrak's `parse_document` and lists, in preorder, each table node's
/// column alignments as numbers (in comrak's order: none, left, centre, right),
/// empty for other nodes.
#[verifier::external_body]
fn cm_aligns(source: &str, flags: CmFlags) -> (r: Vec<Vec<u8>>)
    ensures
        r@.len() == comrak_tree(source@, flags).len(),
        forall|i: int| 0 <= i < r@.len() ==> (#[trigger] r@[i])@ == comrak_tree(source@, flags)[i].aligns,
{
    let arena = comrak::Arena::new();
    let root = comrak::parse_document(&arena, source, &cm_options(flags));
    root.descendants().map(|n| match &n.data().value {
        V::Table(t) => t.alignments.iter().map(|a| *a as u8).collect(),
        _ => Vec::new(),
    }).collect()
}

/// The node kinds the decoder tells apart.
#[derive(Debug, Clone, Copy, PartialEq, Eq)]
pub enum CmKind {
    Document,
    Paragraph,
    Heading,
    BlockQuote,
    List,
    Item,
    TaskItem,
    CodeBlock,
    ThematicBreak,
    Table,
    TableRow,
    TableCell,
    FootnoteDefinition,
    HtmlBlock,
    Text,
    Emph,
    Strong,
    Strikethrough,
    Code,
    Link,
    Image,
    SoftBreak,
    LineBreak,
    HtmlInline,
    FootnoteReference,
    Other,
}

/// The kind a comrak XML node name stands for.
pub open spec fn kind_of(name: Seq<char>) -> CmKind {
    if name == "document"@ {
        CmKind::Document
    } else if name == "paragraph"@ {
        CmKind::Paragraph
    } else if name == "heading"@ {
        CmKind::Heading
    } else if name == "block_quote"@ {
        CmKind::BlockQuote
    } else if name == "list"@ {
        CmKind::List
    } else if name == "item"@ {
        CmKind::Item
    } else if name == "taskitem"@ {
        CmKind::TaskItem
    } else if name == "code_block"@ {
        CmKind::CodeBlock
    } else if name == "thematic_break"@ {
        CmKind::ThematicBreak
    } else if name == "table"@ {
        CmKind::Table
    } else if name == "table_row"@ {
        CmKind::TableRow
    } else if name == "table_cell"@ {
        CmKind::TableCell
    } else if name == "footnote_definition"@ {
        CmKind::FootnoteDefinition
    } else if name == "html_block"@ {
        CmKind::HtmlBlock
    } else if name == "text"@ {
        CmKind::Text
    } else if name == "emph"@ {
        CmKind::Emph
    } else if name == "strong"@ {
        CmKind::Strong
    } else if name == "strikethrough"@ {
        CmKind::Strikethrough
    } else if name == "code"@ {
        CmKind::Code
    } else if name == "link"@ {
        CmKind::Link
    } else if name == "image"@ {
        CmKind::Image
    } else if name == "softbreak"@ {
        CmKind::SoftBreak
    } else if name == "linebreak"@ {
        CmKind::LineBreak
    } else if name == "html_inline"@ {
        CmKind::HtmlInline
    } else if name == "footnote_reference"@ {
        CmKind::FootnoteReference
    } else {
        CmKind::Other
    }
}

pub fn kind_code(name: &str) -> (k: CmKind)
    ensures
        k == kind_of(name@),
{
    if str_eq(name, "document") {
        CmKind::Document
    } else if str_eq(name, "paragraph") {
        CmKind::Paragraph
    } else if str_eq(name, "heading") {
        CmKind::Heading
    } else if str_eq(name, "block_quote") {
        CmKind::BlockQuote
    } else if str_eq(name, "list") {
        CmKind::List
    } else if str_eq(name, "item") {
        CmKind::Item
    } else if str_eq(name, "taskitem") {
        CmKind::TaskItem
    } else if str_eq(name, "code_block") {
        CmKind::CodeBlock
    } else if str_eq(name, "thematic_break") {
        CmKind::ThematicBreak
    } else if str_eq(name, "table") {
        CmKind::Table
    } else if str_eq(name, "table_row") {
        CmKind::TableRow
    } else if str_eq(name, "table_cell") {
        CmKind::TableCell
    } else if str_eq(name, "footnote_definition") {
        CmKind::FootnoteDefinition
    } else if str_eq(name, "html_block") {
        CmKind::HtmlBlock
    } else if str_eq(name, "text") {
        CmKind::Text
    } else if str_eq(name, "emph") {
        CmKind::Emph
    } else if str_eq(name, "strong") {
        CmKind::Strong
    } else if str_eq(name, "strikethrough") {
        CmKind::Strikethrough
    } else if str_eq(name, "code") {
        CmKind::Code
    } else if str_eq(name, "link") {
        CmKind::Link
    } else if str_eq(name, "image") {
        CmKind::Image
    } else if str_eq(name, "softbreak") {
        CmKind::SoftBreak
    } else if str_eq(name, "linebreak") {
        CmKind::LineBreak
    } else if str_eq(name, "html_inline") {
        CmKind::HtmlInline
    } else if str_eq(name, "footnote_reference") {
        CmKind::FootnoteReference
    } else {
        CmKind::Other
    }
}

/// A comrak node as the decoder holds it.
pub struct CmNode {
    pub kind: CmKind,
    pub name: String,
    pub count: usize,
    pub text: String,
    pub label: String,
    pub title: String,
    pub num: usize,
    pub ordered: bool,
    pub tight: bool,
    pub aligns: Vec<u8>,
}

impl View for CmNode {
    type V = CmNodeV;

    open spec fn view(&self) -> CmNodeV {
        CmNodeV {
            kind: self.name@,
            count: self.count,
            text: self.text@,
            label: self.label@,
            title: self.title@,
            num: self.num,
            ordered: self.ordered,
            tight: self.tight,
            aligns: self.aligns@,
        }
    }
}

pub open spec fn nodes_v(ns: Seq<CmNode>) -> Seq<CmNodeV> {
    ns.map_values(|n: CmNode| n@)
}

/// Each node's kind agrees with its name.
pub open spec fn nodes_wf(ns: Seq<CmNode>) -> bool {
    forall|i: int| 0 <= i < ns.len() ==> (#[trigger] ns[i]).kind == kind_of(ns[i].name@)
}

/// comrak's parse of `source` with the GFM extensions, as a list of node records.
pub fn load_nodes(source: &str, flags: CmFlags) -> (r: Vec<CmNode>)
    ensures
        nodes_v(r@) == comrak_tree(source@, flags),
        nodes_wf(r@),
{
    let ghost t = comrak_tree(source@, flags);
    let kinds = cm_kinds(source, flags);
    let counts = cm_counts(source, flags);
    let texts = cm_texts(source, flags);
    let labels = cm_labels(source, flags);
    let nums = cm_numbers(source, flags);
    let aligns = cm_aligns(source, flags);
    let n = kinds.len();
    let mut out: Vec<CmNode> = Vec::new();
    let mut i: usize = 0;
    while i < n
        invariant
            n == t.len(),
            i <= n,
            kinds@.len() == n && texts@.len() == n && labels@.len() == n && aligns@.len() == n,
            counts@.len() == n && nums@.len() == n,
            forall|j: int| 0 <= j < n ==> (#[trigger] kinds@[j])@ == t[j].kind,
            forall|j: int| 0 <= j < n ==> #[trigger] counts@[j] == t[j].count,
            forall|j: int| 0 <= j < n ==> (#[trigger] texts@[j])@ == t[j].text,
            forall|j: int| 0 <= j < n ==> (#[trigger] labels@[j]).0@ == t[j].label && labels@[j].1@ == t[j].title,
            forall|j: int| 0 <= j < n ==> #[trigger] nums@[j] == (t[j].num, t[j].ordered, t[j].tight),
            forall|j: int| 0 <= j < n ==> (#[trigger] aligns@[j])@ == t[j].aligns,
            out@.len() == i,
            forall|j: int| 0 <= j < i ==> (#[trigger] out@[j])@ == t[j],
            nodes_wf(out@),
        decreases n - i,
    {
        let name = kinds[i].clone();
        let text = texts[i].clone();
        let label = labels[i].0.clone();
        let title = labels[i].1.clone();
        let al = aligns[i].clone();
        assert(al@ =~= aligns@[i as int]@);
        let (num, ordered, tight) = nums[i];
        let kind = kind_code(name.as_str());
        let node = CmNode { kind, name, count: counts[i], text, label, title, num, ordered, tight, aligns: al };
        out.push(node);
        i = i + 1;
    }
    assert(nodes_v(out@) =~= t);
    out
}

} // verus!
