//! Decoding comrak's preorder node list into the alt-markdown syntax tree.
//!
//! Every node is checked against [`MAX_NESTING_DEPTH`] before its children are
//! read, so hostile nesting is a defined error. A fenced code block whose info
//! string starts with a registered fence component becomes that component.
use vstd::prelude::*;
use crate::ast::{
    Alignment, AstError, Block, BlockV, BodyV, Component, ComponentBody, Inline, InlineV, ItemV,
    List, ListItem, Table, blocks_v, cells_v, inlines_v, items_v, rows_v,
};
use crate::attrs::{attrs_of, parse_attrs_in};
use crate::cm::{CmKind, CmNode, CmNodeV, MAX_NESTING_DEPTH, comrak_tree, gfm, gfm_flags, kind_of, load_nodes, nodes_v, nodes_wf};
use crate::registry::{Kind, lookup, registry};
use crate::text::{chars_of, is_whitespace, is_ws, lead_ws, skip_ws, string_of};

verus! {

broadcast use crate::ast::group_views;

pub open spec fn depth_msg() -> Seq<char> {
    "nesting exceeds the maximum depth of 256"@
}

pub open spec fn end_msg() -> Seq<char> {
    "the node list ended inside a node"@
}

pub open spec fn leaf_msg(k: Seq<char>) -> Seq<char> {
    "unexpected children under a node: "@ + k
}

pub open spec fn block_msg(k: Seq<char>) -> Seq<char> {
    "unsupported block node: "@ + k
}

pub open spec fn inline_msg(k: Seq<char>) -> Seq<char> {
    "unsupported inline node: "@ + k
}

/// The message an error carries.
pub open spec fn err_v(e: AstError) -> Seq<char> {
    match e {
        AstError::Malformed(m) => m@,
    }
}

fn malformed(prefix: &str, k: &String) -> (e: AstError)
    ensures
        err_v(e) == prefix@ + k@,
{
    let mut m = String::new();
    m.append(prefix);
    m.append(k.as_str());
    AstError::Malformed(m)
}

fn fixed_error(m: &str) -> (e: AstError)
    ensures
        err_v(e) == m@,
{
    let mut s = String::new();
    s.append(m);
    AstError::Malformed(s)
}

/// A heading level as the tree stores it.
pub open spec fn level_of(num: usize) -> u8 {
    (num % 256) as u8
}

/// A list start as the tree stores it: 1 when it does not fit a `u32`.
pub open spec fn start_of(num: usize) -> u32 {
    if num <= u32::MAX {
        num as u32
    } else {
        1
    }
}

pub open spec fn align_of(u: u8) -> Alignment {
    if u == 1 {
        Alignment::Left
    } else if u == 2 {
        Alignment::Center
    } else if u == 3 {
        Alignment::Right
    } else {
        Alignment::Unaligned
    }
}

pub open spec fn aligns_v(s: Seq<u8>) -> Seq<Alignment> {
    s.map_values(|u: u8| align_of(u))
}

/// The length of the run of non-whitespace characters that starts `s`.
pub open spec fn run_len(s: Seq<char>) -> nat
    decreases s.len(),
{
    if s.len() > 0 && !is_ws(s[0]) {
        1 + run_len(s.drop_first())
    } else {
        0
    }
}

/// The first whitespace-separated word of `s`.
pub open spec fn first_word(s: Seq<char>) -> Seq<char> {
    s.subrange(lead_ws(s) as int, (lead_ws(s) + run_len(s.skip(lead_ws(s) as int))) as int)
}

/// What follows the first word of `s`.
pub open spec fn after_word(s: Seq<char>) -> Seq<char> {
    s.skip((lead_ws(s) + run_len(s.skip(lead_ws(s) as int))) as int)
}

/// A fenced code block: a registered fence component when the first word of
/// its info string names one, an ordinary code block otherwise.
pub open spec fn code_block_v(info: Seq<char>, literal: Seq<char>) -> BlockV {
    if registry(first_word(info)) == Some(Kind::Fence) {
        BlockV::Component {
            name: first_word(info),
            attrs: attrs_of(after_word(info)),
            body: BodyV::Raw(literal),
        }
    } else {
        BlockV::CodeBlock { info, literal }
    }
}

pub open spec fn dec_block(ns: Seq<CmNodeV>, pos: int, d: nat) -> Result<(BlockV, int), Seq<char>>
    decreases MAX_NESTING_DEPTH + 3 - d, 0int, 0int,
{
    if d > MAX_NESTING_DEPTH {
        Err(depth_msg())
    } else if pos < 0 || pos >= ns.len() {
        Err(end_msg())
    } else {
        let n = ns[pos];
        let k = kind_of(n.kind);
        if k == CmKind::Heading {
            match dec_inlines(ns, pos + 1, n.count as nat, d + 1) {
                Ok((c, e)) => Ok((BlockV::Heading { level: level_of(n.num), content: c }, e)),
                Err(m) => Err(m),
            }
        } else if k == CmKind::Paragraph {
            match dec_inlines(ns, pos + 1, n.count as nat, d + 1) {
                Ok((c, e)) => Ok((BlockV::Paragraph(c), e)),
                Err(m) => Err(m),
            }
        } else if k == CmKind::BlockQuote {
            match dec_blocks(ns, pos + 1, n.count as nat, d + 1) {
                Ok((c, e)) => Ok((BlockV::BlockQuote(c), e)),
                Err(m) => Err(m),
            }
        } else if k == CmKind::List {
            match dec_items(ns, pos + 1, n.count as nat, d + 1) {
                Ok((c, e)) => Ok(
                    (
                        BlockV::List {
                            ordered: n.ordered,
                            start: if n.ordered {
                                start_of(n.num)
                            } else {
                                1
                            },
                            tight: n.tight,
                            items: c,
                        },
                        e,
                    ),
                ),
                Err(m) => Err(m),
            }
        } else if k == CmKind::Table {
            match dec_rows(ns, pos + 1, n.count as nat, d + 1) {
                Ok(((h, rows), e)) => Ok(
                    (
                        BlockV::Table {
                            alignments: aligns_v(n.aligns),
                            header: match h {
                                Some(x) => x,
                                None => Seq::empty(),
                            },
                            rows,
                        },
                        e,
                    ),
                ),
                Err(m) => Err(m),
            }
        } else if k == CmKind::FootnoteDefinition {
            match dec_blocks(ns, pos + 1, n.count as nat, d + 1) {
                Ok((c, e)) => Ok((BlockV::FootnoteDefinition { name: n.label, blocks: c }, e)),
                Err(m) => Err(m),
            }
        } else if k == CmKind::CodeBlock || k == CmKind::ThematicBreak || k == CmKind::HtmlBlock {
            if n.count != 0 {
                Err(leaf_msg(n.kind))
            } else if k == CmKind::CodeBlock {
                Ok((code_block_v(n.label, n.text), pos + 1))
            } else if k == CmKind::ThematicBreak {
                Ok((BlockV::ThematicBreak, pos + 1))
            } else {
                Ok((BlockV::HtmlBlock(n.text), pos + 1))
            }
        } else {
            Err(block_msg(n.kind))
        }
    }
}

pub open spec fn dec_blocks(ns: Seq<CmNodeV>, pos: int, count: nat, d: nat) -> Result<
    (Seq<BlockV>, int),
    Seq<char>,
>
    decreases MAX_NESTING_DEPTH + 3 - d, 1int, count,
{
    if count == 0 {
        Ok((Seq::empty(), pos))
    } else {
        match dec_block(ns, pos, d) {
            Ok((b, e)) => match dec_blocks(ns, e, (count - 1) as nat, d) {
                Ok((bs, e2)) => Ok((seq![b] + bs, e2)),
                Err(m) => Err(m),
            },
            Err(m) => Err(m),
        }
    }
}

pub open spec fn dec_item(ns: Seq<CmNodeV>, pos: int, d: nat) -> Result<(ItemV, int), Seq<char>>
    decreases MAX_NESTING_DEPTH + 3 - d, 0int, 0int,
{
    if d > MAX_NESTING_DEPTH {
        Err(depth_msg())
    } else if pos < 0 || pos >= ns.len() {
        Err(end_msg())
    } else {
        let n = ns[pos];
        match dec_blocks(ns, pos + 1, n.count as nat, d + 1) {
            Ok((c, e)) => Ok(
                (
                    ItemV {
                        task: if kind_of(n.kind) == CmKind::TaskItem {
                            Some(n.num != 0)
                        } else {
                            None
                        },
                        blocks: c,
                    },
                    e,
                ),
            ),
            Err(m) => Err(m),
        }
    }
}

pub open spec fn dec_items(ns: Seq<CmNodeV>, pos: int, count: nat, d: nat) -> Result<
    (Seq<ItemV>, int),
    Seq<char>,
>
    decreases MAX_NESTING_DEPTH + 3 - d, 1int, count,
{
    if count == 0 {
        Ok((Seq::empty(), pos))
    } else {
        match dec_item(ns, pos, d) {
            Ok((b, e)) => match dec_items(ns, e, (count - 1) as nat, d) {
                Ok((bs, e2)) => Ok((seq![b] + bs, e2)),
                Err(m) => Err(m),
            },
            Err(m) => Err(m),
        }
    }
}

/// The header row (the last row flagged as header, if any) and the body rows.
pub open spec fn dec_rows(ns: Seq<CmNodeV>, pos: int, count: nat, d: nat) -> Result<
    ((Option<Seq<Seq<InlineV>>>, Seq<Seq<Seq<InlineV>>>), int),
    Seq<char>,
>
    decreases MAX_NESTING_DEPTH + 3 - d, 3int, count,
{
    if count == 0 {
        Ok(((None, Seq::empty()), pos))
    } else if pos < 0 || pos >= ns.len() {
        Err(end_msg())
    } else {
        let n = ns[pos];
        let is_header = kind_of(n.kind) == CmKind::TableRow && n.num != 0;
        match dec_cells(ns, pos + 1, n.count as nat, d) {
            Ok((cells, e)) => match dec_rows(ns, e, (count - 1) as nat, d) {
                Ok(((h, rs), e2)) => Ok(
                    (
                        (
                            if h is Some {
                                h
                            } else if is_header {
                                Some(cells)
                            } else {
                                None
                            },
                            if is_header {
                                rs
                            } else {
                                seq![cells] + rs
                            },
                        ),
                        e2,
                    ),
                ),
                Err(m) => Err(m),
            },
            Err(m) => Err(m),
        }
    }
}

pub open spec fn dec_cells(ns: Seq<CmNodeV>, pos: int, count: nat, d: nat) -> Result<
    (Seq<Seq<InlineV>>, int),
    Seq<char>,
>
    decreases MAX_NESTING_DEPTH + 3 - d, 2int, count,
{
    if count == 0 {
        Ok((Seq::empty(), pos))
    } else if pos < 0 || pos >= ns.len() {
        Err(end_msg())
    } else {
        match dec_inlines(ns, pos + 1, ns[pos].count as nat, d + 1) {
            Ok((c, e)) => match dec_cells(ns, e, (count - 1) as nat, d) {
                Ok((cs, e2)) => Ok((seq![c] + cs, e2)),
                Err(m) => Err(m),
            },
            Err(m) => Err(m),
        }
    }
}

pub open spec fn dec_inline(ns: Seq<CmNodeV>, pos: int, d: nat) -> Result<(InlineV, int), Seq<char>>
    decreases MAX_NESTING_DEPTH + 3 - d, 0int, 0int,
{
    if d > MAX_NESTING_DEPTH {
        Err(depth_msg())
    } else if pos < 0 || pos >= ns.len() {
        Err(end_msg())
    } else {
        let n = ns[pos];
        let k = kind_of(n.kind);
        if k == CmKind::Emph || k == CmKind::Strong || k == CmKind::Strikethrough || k
            == CmKind::Link || k == CmKind::Image {
            match dec_inlines(ns, pos + 1, n.count as nat, d + 1) {
                Ok((c, e)) => Ok(
                    (
                        if k == CmKind::Emph {
                            InlineV::Emphasis(c)
                        } else if k == CmKind::Strong {
                            InlineV::Strong(c)
                        } else if k == CmKind::Strikethrough {
                            InlineV::Strikethrough(c)
                        } else if k == CmKind::Link {
                            InlineV::Link { url: n.label, title: n.title, content: c }
                        } else {
                            InlineV::Image { url: n.label, title: n.title, alt: c }
                        },
                        e,
                    ),
                ),
                Err(m) => Err(m),
            }
        } else if k == CmKind::Text || k == CmKind::FootnoteReference || k == CmKind::Code || k
            == CmKind::SoftBreak || k == CmKind::LineBreak || k == CmKind::HtmlInline {
            if n.count != 0 {
                Err(leaf_msg(n.kind))
            } else {
                Ok(
                    (
                        if k == CmKind::Text {
                            InlineV::Text(n.text)
                        } else if k == CmKind::FootnoteReference {
                            InlineV::FootnoteReference(n.label)
                        } else if k == CmKind::Code {
                            InlineV::Code(n.text)
                        } else if k == CmKind::SoftBreak {
                            InlineV::SoftBreak
                        } else if k == CmKind::LineBreak {
                            InlineV::HardBreak
                        } else {
                            InlineV::HtmlInline(n.text)
                        },
                        pos + 1,
                    ),
                )
            }
        } else {
            Err(inline_msg(n.kind))
        }
    }
}

pub open spec fn dec_inlines(ns: Seq<CmNodeV>, pos: int, count: nat, d: nat) -> Result<
    (Seq<InlineV>, int),
    Seq<char>,
>
    decreases MAX_NESTING_DEPTH + 3 - d, 1int, count,
{
    if count == 0 {
        Ok((Seq::empty(), pos))
    } else {
        match dec_inline(ns, pos, d) {
            Ok((b, e)) => match dec_inlines(ns, e, (count - 1) as nat, d) {
                Ok((bs, e2)) => Ok((seq![b] + bs, e2)),
                Err(m) => Err(m),
            },
            Err(m) => Err(m),
        }
    }
}

/// The blocks of a document whose comrak tree is `ns` (root first).
pub open spec fn dec_document(ns: Seq<CmNodeV>) -> Result<Seq<BlockV>, Seq<char>> {
    if ns.len() == 0 {
        Err(end_msg())
    } else {
        match dec_blocks(ns, 1, ns[0].count as nat, 0) {
            Ok((bs, _)) => Ok(bs),
            Err(m) => Err(m),
        }
    }
}

/// The result `r` with `acc` put before its sequence.
pub open spec fn prepend<V>(acc: Seq<V>, r: Result<(Seq<V>, int), Seq<char>>) -> Result<
    (Seq<V>, int),
    Seq<char>,
> {
    match r {
        Ok((bs, e)) => Ok((acc + bs, e)),
        Err(m) => Err(m),
    }
}

/// The step the list decoders take: one element `x`, then the rest `r`.
pub open spec fn cons<V>(x: V, r: Result<(Seq<V>, int), Seq<char>>) -> Result<(Seq<V>, int), Seq<char>> {
    match r {
        Ok((bs, e2)) => Ok((seq![x] + bs, e2)),
        Err(m) => Err(m),
    }
}

proof fn lemma_prepend_step<V>(acc: Seq<V>, x: V, r: Result<(Seq<V>, int), Seq<char>>)
    ensures
        prepend(acc, cons(x, r)) == prepend(acc.push(x), r),
{
    match r {
        Ok((bs, e2)) => {
            assert(acc + (seq![x] + bs) =~= acc.push(x) + bs);
        },
        Err(m) => {},
    }
}

proof fn lemma_prepend_empty<V>(acc: Seq<V>, e: int)
    ensures
        prepend(acc, Ok((Seq::<V>::empty(), e))) == Ok::<(Seq<V>, int), Seq<char>>((acc, e)),
{
    assert(acc + Seq::<V>::empty() =~= acc);
}

/// The rows read so far put before the rows `r` still to read.
pub open spec fn combine_rows(
    ah: Option<Seq<Seq<InlineV>>>,
    ar: Seq<Seq<Seq<InlineV>>>,
    r: Result<((Option<Seq<Seq<InlineV>>>, Seq<Seq<Seq<InlineV>>>), int), Seq<char>>,
) -> Result<((Option<Seq<Seq<InlineV>>>, Seq<Seq<Seq<InlineV>>>), int), Seq<char>> {
    match r {
        Ok(((h, rs), e)) => Ok(
            (
                (
                    if h is Some {
                        h
                    } else {
                        ah
                    },
                    ar + rs,
                ),
                e,
            ),
        ),
        Err(m) => Err(m),
    }
}

pub open spec fn header_v(h: Option<Vec<Vec<Inline>>>) -> Option<Seq<Seq<InlineV>>> {
    match h {
        Some(x) => Some(cells_v(x@)),
        None => None,
    }
}

pub proof fn lemma_run_exact(s: Seq<char>, n: int)
    requires
        0 <= n <= s.len(),
        forall|k: int| 0 <= k < n ==> !is_ws(#[trigger] s[k]),
        n < s.len() ==> is_ws(s[n]),
    ensures
        run_len(s) == n,
    decreases n,
{
    if n > 0 {
        assert forall|k: int| 0 <= k < n - 1 implies !is_ws(#[trigger] s.drop_first()[k]) by {
            assert(s.drop_first()[k] == s[k + 1]);
        }
        if n < s.len() {
            assert(s.drop_first()[n - 1] == s[n]);
        }
        lemma_run_exact(s.drop_first(), n - 1);
    }
}

/// The bounds of the first whitespace-separated word of `s`.
pub fn word_bounds(s: &Vec<char>) -> (r: (usize, usize))
    ensures
        r.0 <= r.1 <= s@.len(),
        r.0 == lead_ws(s@),
        r.1 == lead_ws(s@) + run_len(s@.skip(lead_ws(s@) as int)),
        s@.subrange(r.0 as int, r.1 as int) == first_word(s@),
{
    let a = skip_ws(s, 0, s.len());
    let mut b = a;
    while b < s.len() && !is_whitespace(s[b])
        invariant
            a <= b <= s@.len(),
            forall|k: int| a <= k < b ==> !is_ws(#[trigger] s@[k]),
        decreases s.len() - b,
    {
        b = b + 1;
    }
    proof {
        assert(s@.subrange(0, s@.len() as int) =~= s@);
        let t = s@.skip(a as int);
        assert forall|k: int| 0 <= k < b - a implies !is_ws(#[trigger] t[k]) by {
            assert(t[k] == s@[a + k]);
        }
        if b < s@.len() {
            assert(t[b - a] == s@[b as int]);
        }
        lemma_run_exact(t, b - a);
    }
    (a, b)
}

/// A fenced code block with info string `info` and contents `literal`: a fence
/// component when the first word of `info` names one.
pub fn code_block(info: &String, literal: &String) -> (b: Block)
    ensures
        b@ == code_block_v(info@, literal@),
{
    let s = chars_of(info.as_str());
    let (a, b) = word_bounds(&s);
    proof {
        assert(s@.subrange(b as int, s@.len() as int) =~= after_word(info@));
    }
    let name = string_of(&s, a, b);
    match lookup(name.as_str()) {
        Some(Kind::Fence) => {
            let attrs = parse_attrs_in(&s, b, s.len());
            Block::Component(
                Component { name, attrs, body: ComponentBody::Raw(literal.clone()) },
            )
        },
        _ => Block::CodeBlock { info: info.clone(), literal: literal.clone() },
    }
}

fn map_aligns(a: &Vec<u8>) -> (r: Vec<Alignment>)
    ensures
        r@ == aligns_v(a@),
{
    let mut r: Vec<Alignment> = Vec::new();
    let mut i: usize = 0;
    while i < a.len()
        invariant
            i <= a@.len(),
            r@.len() == i,
            forall|k: int| 0 <= k < i ==> #[trigger] r@[k] == align_of(a@[k]),
        decreases a.len() - i,
    {
        let u = a[i];
        let al = if u == 1 {
            Alignment::Left
        } else if u == 2 {
            Alignment::Center
        } else if u == 3 {
            Alignment::Right
        } else {
            Alignment::Unaligned
        };
        r.push(al);
        i = i + 1;
    }
    assert(r@ =~= aligns_v(a@));
    r
}

/// How many more levels a walk at depth `d` may still descend before the depth
/// check refuses it: the measure by which the walk is shown to end.
pub open spec fn depth_room(d: usize) -> nat {
    if d > MAX_NESTING_DEPTH + 2 {
        0
    } else {
        (MAX_NESTING_DEPTH + 3 - d) as nat
    }
}

pub fn map_block(ns: &Vec<CmNode>, pos: usize, d: usize) -> (r: Result<(Block, usize), AstError>)
    requires
        nodes_wf(ns@),
    ensures
        match r {
            Ok((b, e)) => dec_block(nodes_v(ns@), pos as int, d as nat) == Ok::<(BlockV, int), Seq<char>>((b@, e as int))
                && e <= ns@.len(),
            Err(err) => dec_block(nodes_v(ns@), pos as int, d as nat) == Err::<(BlockV, int), Seq<char>>(err_v(err)),
        },
    decreases depth_room(d), 0int, 0int,
{
    if d > MAX_NESTING_DEPTH {
        return Err(fixed_error("nesting exceeds the maximum depth of 256"));
    }
    if pos >= ns.len() {
        return Err(fixed_error("the node list ended inside a node"));
    }
    let n = &ns[pos];
    assert(nodes_v(ns@)[pos as int] == n@);
    match n.kind {
        CmKind::Heading => {
            let (c, e) = map_inlines(ns, pos + 1, n.count, d + 1)?;
            Ok((Block::Heading { level: (n.num % 256) as u8, content: c }, e))
        },
        CmKind::Paragraph => {
            let (c, e) = map_inlines(ns, pos + 1, n.count, d + 1)?;
            Ok((Block::Paragraph(c), e))
        },
        CmKind::BlockQuote => {
            let (c, e) = map_blocks(ns, pos + 1, n.count, d + 1)?;
            Ok((Block::BlockQuote(c), e))
        },
        CmKind::List => {
            let (c, e) = map_items(ns, pos + 1, n.count, d + 1)?;
            let start: u32 = if n.ordered {
                if n.num <= 0xffff_ffff {
                    n.num as u32
                } else {
                    1
                }
            } else {
                1
            };
            Ok((Block::List(List { ordered: n.ordered, start, tight: n.tight, items: c }), e))
        },
        CmKind::Table => {
            let (hr, e) = map_rows(ns, pos + 1, n.count, d + 1)?;
            let (h, rows) = hr;
            let header = match h {
                Some(x) => x,
                None => {
                    let v: Vec<Vec<Inline>> = Vec::new();
                    assert(cells_v(v@) =~= Seq::<Seq<InlineV>>::empty());
                    v
                },
            };
            let alignments = map_aligns(&n.aligns);
            Ok((Block::Table(Table { alignments, header, rows }), e))
        },
        CmKind::FootnoteDefinition => {
            let (c, e) = map_blocks(ns, pos + 1, n.count, d + 1)?;
            Ok((Block::FootnoteDefinition { name: n.label.clone(), blocks: c }, e))
        },
        CmKind::CodeBlock | CmKind::ThematicBreak | CmKind::HtmlBlock => {
            if n.count != 0 {
                return Err(malformed("unexpected children under a node: ", &n.name));
            }
            let b = match n.kind {
                CmKind::CodeBlock => code_block(&n.label, &n.text),
                CmKind::ThematicBreak => Block::ThematicBreak,
                _ => Block::HtmlBlock(n.text.clone()),
            };
            Ok((b, pos + 1))
        },
        _ => Err(malformed("unsupported block node: ", &n.name)),
    }
}

pub fn map_blocks(ns: &Vec<CmNode>, pos: usize, count: usize, d: usize) -> (r: Result<
    (Vec<Block>, usize),
    AstError,
>)
    requires
        nodes_wf(ns@),
        pos <= ns@.len(),
    ensures
        match r {
            Ok((b, e)) => dec_blocks(nodes_v(ns@), pos as int, count as nat, d as nat) == Ok::<
                (Seq<BlockV>, int),
                Seq<char>,
            >((blocks_v(b@), e as int)) && e <= ns@.len(),
            Err(err) => dec_blocks(nodes_v(ns@), pos as int, count as nat, d as nat) == Err::<
                (Seq<BlockV>, int),
                Seq<char>,
            >(err_v(err)),
        },
    decreases depth_room(d), 1int, count,
{
    let ghost nsv = nodes_v(ns@);
    let mut out: Vec<Block> = Vec::new();
    let mut p = pos;
    let mut i: usize = 0;
    assert(prepend(Seq::<BlockV>::empty(), dec_blocks(nsv, pos as int, count as nat, d as nat))
        == dec_blocks(nsv, pos as int, count as nat, d as nat)) by {
        match dec_blocks(nsv, pos as int, count as nat, d as nat) {
            Ok((bs, e)) => {
                assert(Seq::<BlockV>::empty() + bs =~= bs);
            },
            Err(m) => {},
        }
    }
    while i < count
        invariant
            nodes_wf(ns@),
            nsv == nodes_v(ns@),
            i <= count,
            p <= ns@.len(),
            dec_blocks(nsv, pos as int, count as nat, d as nat) == prepend(
                blocks_v(out@),
                dec_blocks(nsv, p as int, (count - i) as nat, d as nat),
            ),
        decreases count - i,
    {
        let ghost acc = blocks_v(out@);
        let (b, e) = map_block(ns, p, d)?;
        proof {
            lemma_prepend_step(acc, b@, dec_blocks(nsv, e as int, (count - i - 1) as nat, d as nat));
        }
        out.push(b);
        assert(blocks_v(out@) =~= acc.push(b@));
        p = e;
        i = i + 1;
    }
    proof {
        lemma_prepend_empty(blocks_v(out@), p as int);
    }
    Ok((out, p))
}

pub fn map_item(ns: &Vec<CmNode>, pos: usize, d: usize) -> (r: Result<(ListItem, usize), AstError>)
    requires
        nodes_wf(ns@),
    ensures
        match r {
            Ok((b, e)) => dec_item(nodes_v(ns@), pos as int, d as nat) == Ok::<(ItemV, int), Seq<char>>((ItemV { task: b.task, blocks: blocks_v(b.blocks@) }, e as int))
                && e <= ns@.len(),
            Err(err) => dec_item(nodes_v(ns@), pos as int, d as nat) == Err::<(ItemV, int), Seq<char>>(err_v(err)),
        },
    decreases depth_room(d), 0int, 0int,
{
    if d > MAX_NESTING_DEPTH {
        return Err(fixed_error("nesting exceeds the maximum depth of 256"));
    }
    if pos >= ns.len() {
        return Err(fixed_error("the node list ended inside a node"));
    }
    let n = &ns[pos];
    assert(nodes_v(ns@)[pos as int] == n@);
    let task = match n.kind {
        CmKind::TaskItem => Some(n.num != 0),
        _ => None,
    };
    let (c, e) = map_blocks(ns, pos + 1, n.count, d + 1)?;
    Ok((ListItem { task, blocks: c }, e))
}

pub fn map_items(ns: &Vec<CmNode>, pos: usize, count: usize, d: usize) -> (r: Result<
    (Vec<ListItem>, usize),
    AstError,
>)
    requires
        nodes_wf(ns@),
        pos <= ns@.len(),
    ensures
        match r {
            Ok((b, e)) => dec_items(nodes_v(ns@), pos as int, count as nat, d as nat) == Ok::<
                (Seq<ItemV>, int),
                Seq<char>,
            >((items_v(b@), e as int)) && e <= ns@.len(),
            Err(err) => dec_items(nodes_v(ns@), pos as int, count as nat, d as nat) == Err::<
                (Seq<ItemV>, int),
                Seq<char>,
            >(err_v(err)),
        },
    decreases depth_room(d), 1int, count,
{
    let ghost nsv = nodes_v(ns@);
    let mut out: Vec<ListItem> = Vec::new();
    let mut p = pos;
    let mut i: usize = 0;
    assert(prepend(Seq::<ItemV>::empty(), dec_items(nsv, pos as int, count as nat, d as nat))
        == dec_items(nsv, pos as int, count as nat, d as nat)) by {
        match dec_items(nsv, pos as int, count as nat, d as nat) {
            Ok((bs, e)) => {
                assert(Seq::<ItemV>::empty() + bs =~= bs);
            },
            Err(m) => {},
        }
    }
    while i < count
        invariant
            nodes_wf(ns@),
            nsv == nodes_v(ns@),
            i <= count,
            p <= ns@.len(),
            dec_items(nsv, pos as int, count as nat, d as nat) == prepend(
                items_v(out@),
                dec_items(nsv, p as int, (count - i) as nat, d as nat),
            ),
        decreases count - i,
    {
        let ghost acc = items_v(out@);
        let (b, e) = map_item(ns, p, d)?;
        let ghost bv = ItemV { task: b.task, blocks: blocks_v(b.blocks@) };
        proof {
            lemma_prepend_step(acc, bv, dec_items(nsv, e as int, (count - i - 1) as nat, d as nat));
        }
        out.push(b);
        assert(items_v(out@) =~= acc.push(bv));
        p = e;
        i = i + 1;
    }
    proof {
        lemma_prepend_empty(items_v(out@), p as int);
    }
    Ok((out, p))
}

pub fn map_rows(ns: &Vec<CmNode>, pos: usize, count: usize, d: usize) -> (r: Result<
    ((Option<Vec<Vec<Inline>>>, Vec<Vec<Vec<Inline>>>), usize),
    AstError,
>)
    requires
        nodes_wf(ns@),
        d < usize::MAX,
        pos <= ns@.len(),
    ensures
        match r {
            Ok(((h, rows), e)) => dec_rows(nodes_v(ns@), pos as int, count as nat, d as nat) == Ok::<
                ((Option<Seq<Seq<InlineV>>>, Seq<Seq<Seq<InlineV>>>), int),
                Seq<char>,
            >(((header_v(h), rows_v(rows@)), e as int)) && e <= ns@.len(),
            Err(err) => dec_rows(nodes_v(ns@), pos as int, count as nat, d as nat) == Err::<
                ((Option<Seq<Seq<InlineV>>>, Seq<Seq<Seq<InlineV>>>), int),
                Seq<char>,
            >(err_v(err)),
        },
    decreases depth_room(d), 3int, count,
{
    let ghost nsv = nodes_v(ns@);
    let mut header: Option<Vec<Vec<Inline>>> = None;
    let mut rows: Vec<Vec<Vec<Inline>>> = Vec::new();
    let mut p = pos;
    let mut i: usize = 0;
    assert(combine_rows(None, Seq::empty(), dec_rows(nsv, pos as int, count as nat, d as nat))
        == dec_rows(nsv, pos as int, count as nat, d as nat)) by {
        match dec_rows(nsv, pos as int, count as nat, d as nat) {
            Ok(((h, rs), e)) => {
                assert(Seq::<Seq<Seq<InlineV>>>::empty() + rs =~= rs);
            },
            Err(m) => {},
        }
    }
    assert(rows_v(rows@) =~= Seq::<Seq<Seq<InlineV>>>::empty());
    while i < count
        invariant
            d < usize::MAX,
            nodes_wf(ns@),
            nsv == nodes_v(ns@),
            i <= count,
            p <= ns@.len(),
            dec_rows(nsv, pos as int, count as nat, d as nat) == combine_rows(
                header_v(header),
                rows_v(rows@),
                dec_rows(nsv, p as int, (count - i) as nat, d as nat),
            ),
        decreases count - i,
    {
        if p >= ns.len() {
            return Err(fixed_error("the node list ended inside a node"));
        }
        let n = &ns[p];
        assert(nsv[p as int] == n@);
        let is_header = match n.kind {
            CmKind::TableRow => n.num != 0,
            _ => false,
        };
        let ghost ah = header_v(header);
        let ghost ar = rows_v(rows@);
        let (cells, e) = map_cells(ns, p + 1, n.count, d)?;
        let ghost c = cells_v(cells@);
        let ghost rest = dec_rows(nsv, e as int, (count - i - 1) as nat, d as nat);
        if is_header {
            header = Some(cells);
        } else {
            rows.push(cells);
            assert(rows_v(rows@) =~= ar.push(c));
        }
        proof {
            match rest {
                Ok(((h, rs), e2)) => {
                    assert(ar + (seq![c] + rs) =~= ar.push(c) + rs);
                },
                Err(m) => {},
            }
        }
        p = e;
        i = i + 1;
    }
    assert(rows_v(rows@) + Seq::<Seq<Seq<InlineV>>>::empty() =~= rows_v(rows@));
    Ok(((header, rows), p))
}

pub fn map_cells(ns: &Vec<CmNode>, pos: usize, count: usize, d: usize) -> (r: Result<
    (Vec<Vec<Inline>>, usize),
    AstError,
>)
    requires
        nodes_wf(ns@),
        d < usize::MAX,
        pos <= ns@.len(),
    ensures
        match r {
            Ok((b, e)) => dec_cells(nodes_v(ns@), pos as int, count as nat, d as nat) == Ok::<
                (Seq<Seq<InlineV>>, int),
                Seq<char>,
            >((cells_v(b@), e as int)) && e <= ns@.len(),
            Err(err) => dec_cells(nodes_v(ns@), pos as int, count as nat, d as nat) == Err::<
                (Seq<Seq<InlineV>>, int),
                Seq<char>,
            >(err_v(err)),
        },
    decreases depth_room(d), 2int, count,
{
    let ghost nsv = nodes_v(ns@);
    let mut out: Vec<Vec<Inline>> = Vec::new();
    let mut p = pos;
    let mut i: usize = 0;
    assert(prepend(Seq::<Seq<InlineV>>::empty(), dec_cells(nsv, pos as int, count as nat, d as nat))
        == dec_cells(nsv, pos as int, count as nat, d as nat)) by {
        match dec_cells(nsv, pos as int, count as nat, d as nat) {
            Ok((bs, e)) => {
                assert(Seq::<Seq<InlineV>>::empty() + bs =~= bs);
            },
            Err(m) => {},
        }
    }
    while i < count
        invariant
            d < usize::MAX,
            nodes_wf(ns@),
            nsv == nodes_v(ns@),
            i <= count,
            p <= ns@.len(),
            dec_cells(nsv, pos as int, count as nat, d as nat) == prepend(
                cells_v(out@),
                dec_cells(nsv, p as int, (count - i) as nat, d as nat),
            ),
        decreases count - i,
    {
        if p >= ns.len() {
            return Err(fixed_error("the node list ended inside a node"));
        }
        let ghost acc = cells_v(out@);
        let n = &ns[p];
        assert(nsv[p as int] == n@);
        let (b, e) = map_inlines(ns, p + 1, n.count, d + 1)?;
        proof {
            lemma_prepend_step(acc, inlines_v(b@), dec_cells(nsv, e as int, (count - i - 1) as nat, d as nat));
        }
        out.push(b);
        assert(cells_v(out@) =~= acc.push(inlines_v(b@)));
        p = e;
        i = i + 1;
    }
    proof {
        lemma_prepend_empty(cells_v(out@), p as int);
    }
    Ok((out, p))
}

pub fn map_inline(ns: &Vec<CmNode>, pos: usize, d: usize) -> (r: Result<(Inline, usize), AstError>)
    requires
        nodes_wf(ns@),
    ensures
        match r {
            Ok((b, e)) => dec_inline(nodes_v(ns@), pos as int, d as nat) == Ok::<(InlineV, int), Seq<char>>((b@, e as int))
                && e <= ns@.len(),
            Err(err) => dec_inline(nodes_v(ns@), pos as int, d as nat) == Err::<(InlineV, int), Seq<char>>(err_v(err)),
        },
    decreases depth_room(d), 0int, 0int,
{
    if d > MAX_NESTING_DEPTH {
        return Err(fixed_error("nesting exceeds the maximum depth of 256"));
    }
    if pos >= ns.len() {
        return Err(fixed_error("the node list ended inside a node"));
    }
    let n = &ns[pos];
    assert(nodes_v(ns@)[pos as int] == n@);
    match n.kind {
        CmKind::Emph | CmKind::Strong | CmKind::Strikethrough | CmKind::Link | CmKind::Image => {
            let (c, e) = map_inlines(ns, pos + 1, n.count, d + 1)?;
            let i = match n.kind {
                CmKind::Emph => Inline::Emphasis(c),
                CmKind::Strong => Inline::Strong(c),
                CmKind::Strikethrough => Inline::Strikethrough(c),
                CmKind::Link => Inline::Link { url: n.label.clone(), title: n.title.clone(), content: c },
                _ => Inline::Image { url: n.label.clone(), title: n.title.clone(), alt: c },
            };
            Ok((i, e))
        },
        CmKind::Text | CmKind::FootnoteReference | CmKind::Code | CmKind::SoftBreak
        | CmKind::LineBreak | CmKind::HtmlInline => {
            if n.count != 0 {
                return Err(malformed("unexpected children under a node: ", &n.name));
            }
            let i = match n.kind {
                CmKind::Text => Inline::Text(n.text.clone()),
                CmKind::FootnoteReference => Inline::FootnoteReference { name: n.label.clone() },
                CmKind::Code => Inline::Code(n.text.clone()),
                CmKind::SoftBreak => Inline::SoftBreak,
                CmKind::LineBreak => Inline::HardBreak,
                _ => Inline::HtmlInline(n.text.clone()),
            };
            Ok((i, pos + 1))
        },
        _ => Err(malformed("unsupported inline node: ", &n.name)),
    }
}

pub fn map_inlines(ns: &Vec<CmNode>, pos: usize, count: usize, d: usize) -> (r: Result<
    (Vec<Inline>, usize),
    AstError,
>)
    requires
        nodes_wf(ns@),
        pos <= ns@.len(),
    ensures
        match r {
            Ok((b, e)) => dec_inlines(nodes_v(ns@), pos as int, count as nat, d as nat) == Ok::<
                (Seq<InlineV>, int),
                Seq<char>,
            >((inlines_v(b@), e as int)) && e <= ns@.len(),
            Err(err) => dec_inlines(nodes_v(ns@), pos as int, count as nat, d as nat) == Err::<
                (Seq<InlineV>, int),
                Seq<char>,
            >(err_v(err)),
        },
    decreases depth_room(d), 1int, count,
{
    let ghost nsv = nodes_v(ns@);
    let mut out: Vec<Inline> = Vec::new();
    let mut p = pos;
    let mut i: usize = 0;
    assert(prepend(Seq::<InlineV>::empty(), dec_inlines(nsv, pos as int, count as nat, d as nat))
        == dec_inlines(nsv, pos as int, count as nat, d as nat)) by {
        match dec_inlines(nsv, pos as int, count as nat, d as nat) {
            Ok((bs, e)) => {
                assert(Seq::<InlineV>::empty() + bs =~= bs);
            },
            Err(m) => {},
        }
    }
    while i < count
        invariant
            nodes_wf(ns@),
            nsv == nodes_v(ns@),
            i <= count,
            p <= ns@.len(),
            dec_inlines(nsv, pos as int, count as nat, d as nat) == prepend(
                inlines_v(out@),
                dec_inlines(nsv, p as int, (count - i) as nat, d as nat),
            ),
        decreases count - i,
    {
        let ghost acc = inlines_v(out@);
        let (b, e) = map_inline(ns, p, d)?;
        proof {
            lemma_prepend_step(acc, b@, dec_inlines(nsv, e as int, (count - i - 1) as nat, d as nat));
        }
        out.push(b);
        assert(inlines_v(out@) =~= acc.push(b@));
        p = e;
        i = i + 1;
    }
    proof {
        lemma_prepend_empty(inlines_v(out@), p as int);
    }
    Ok((out, p))
}

/// Parse a run of plain CommonMark (with the GFM extensions) into block nodes,
/// through comrak's parse of the text.
pub fn parse_commonmark_blocks(source: &str) -> (r: Result<Vec<Block>, AstError>)
    ensures
        match r {
            Ok(b) => dec_document(comrak_tree(source@, gfm())) == Ok::<Seq<BlockV>, Seq<char>>(blocks_v(b@)),
            Err(e) => dec_document(comrak_tree(source@, gfm())) == Err::<Seq<BlockV>, Seq<char>>(err_v(e)),
        },
{
    let ns = load_nodes(source, gfm_flags());
    if ns.len() == 0 {
        return Err(fixed_error("the node list ended inside a node"));
    }
    assert(nodes_v(ns@)[0] == ns@[0]@);
    let (bs, _) = map_blocks(&ns, 1, ns[0].count, 0)?;
    Ok(bs)
}


/// Each column alignment code that comrak's tree carries (0 none, 1 left,
/// 2 centre, 3 right, in the order of comrak's `TableAlignment`) maps to its
/// own alignment, and no two codes of the four map to the same one.
pub proof fn law_alignment_codes(u: u8)
    ensures
        (align_of(u) == Alignment::Left) <==> u == 1,
        (align_of(u) == Alignment::Center) <==> u == 2,
        (align_of(u) == Alignment::Right) <==> u == 3,
        (align_of(u) == Alignment::Unaligned) <==> (u == 0 || u > 3),
        forall|v: u8| v <= 3 && u <= 3 && align_of(v) == align_of(u) ==> v == u,
{
}

/// A decoded table's alignments are the codes of comrak's node, mapped one for
/// one and in column order.
pub proof fn law_alignments_in_order(codes: Seq<u8>, i: int)
    requires
        0 <= i < codes.len(),
    ensures
        aligns_v(codes).len() == codes.len(),
        (aligns_v(codes)[i] == Alignment::Center) <==> codes[i] == 2,
        (aligns_v(codes)[i] == Alignment::Left) <==> codes[i] == 1,
        (aligns_v(codes)[i] == Alignment::Right) <==> codes[i] == 3,
{
    law_alignment_codes(codes[i]);
}


/// Each inline node of comrak's tree becomes the inline of the same kind:
/// emphasis, strong emphasis and strikethrough keep their decoded children, a
/// line break (comrak's hard break) becomes a hard break and a soft break a
/// soft break, text and code keep their text.
pub proof fn law_inline_nodes_keep_their_kind(ns: Seq<CmNodeV>, pos: int, d: nat)
    requires
        d <= MAX_NESTING_DEPTH,
        0 <= pos < ns.len(),
    ensures
        ({
            let n = ns[pos];
            let k = kind_of(n.kind);
            let kids = dec_inlines(ns, pos + 1, n.count as nat, d + 1);
            &&& (k == CmKind::Emph && kids is Ok) ==> dec_inline(ns, pos, d) == Ok::<(InlineV, int), Seq<char>>(
                (InlineV::Emphasis(kids->Ok_0.0), kids->Ok_0.1),
            )
            &&& (k == CmKind::Strong && kids is Ok) ==> dec_inline(ns, pos, d) == Ok::<(InlineV, int), Seq<char>>(
                (InlineV::Strong(kids->Ok_0.0), kids->Ok_0.1),
            )
            &&& (k == CmKind::Strikethrough && kids is Ok) ==> dec_inline(ns, pos, d) == Ok::<
                (InlineV, int),
                Seq<char>,
            >((InlineV::Strikethrough(kids->Ok_0.0), kids->Ok_0.1))
            &&& (k == CmKind::LineBreak && n.count == 0) ==> dec_inline(ns, pos, d) == Ok::<
                (InlineV, int),
                Seq<char>,
            >((InlineV::HardBreak, pos + 1))
            &&& (k == CmKind::SoftBreak && n.count == 0) ==> dec_inline(ns, pos, d) == Ok::<
                (InlineV, int),
                Seq<char>,
            >((InlineV::SoftBreak, pos + 1))
            &&& (k == CmKind::Text && n.count == 0) ==> dec_inline(ns, pos, d) == Ok::<(InlineV, int), Seq<char>>(
                (InlineV::Text(n.text), pos + 1),
            )
            &&& (k == CmKind::Code && n.count == 0) ==> dec_inline(ns, pos, d) == Ok::<(InlineV, int), Seq<char>>(
                (InlineV::Code(n.text), pos + 1),
            )
        }),
{
}

/// Each comrak node name maps to its own kind: the decoder reads a node as
/// the kind its name says, and no two of the names share a kind.
pub proof fn law_node_names()
    ensures
        kind_of("document"@) == CmKind::Document,
        kind_of("paragraph"@) == CmKind::Paragraph,
        kind_of("heading"@) == CmKind::Heading,
        kind_of("block_quote"@) == CmKind::BlockQuote,
        kind_of("list"@) == CmKind::List,
        kind_of("item"@) == CmKind::Item,
        kind_of("taskitem"@) == CmKind::TaskItem,
        kind_of("code_block"@) == CmKind::CodeBlock,
        kind_of("thematic_break"@) == CmKind::ThematicBreak,
        kind_of("table"@) == CmKind::Table,
        kind_of("table_row"@) == CmKind::TableRow,
        kind_of("table_cell"@) == CmKind::TableCell,
        kind_of("footnote_definition"@) == CmKind::FootnoteDefinition,
        kind_of("html_block"@) == CmKind::HtmlBlock,
        kind_of("text"@) == CmKind::Text,
        kind_of("emph"@) == CmKind::Emph,
        kind_of("strong"@) == CmKind::Strong,
        kind_of("strikethrough"@) == CmKind::Strikethrough,
        kind_of("code"@) == CmKind::Code,
        kind_of("link"@) == CmKind::Link,
        kind_of("image"@) == CmKind::Image,
        kind_of("softbreak"@) == CmKind::SoftBreak,
        kind_of("linebreak"@) == CmKind::LineBreak,
        kind_of("html_inline"@) == CmKind::HtmlInline,
        kind_of("footnote_reference"@) == CmKind::FootnoteReference,
{
    lemma_node_name_document();
    lemma_node_name_paragraph();
    lemma_node_name_heading();
    lemma_node_name_block_quote();
    lemma_node_name_list();
    lemma_node_name_item();
    lemma_node_name_taskitem();
    lemma_node_name_code_block();
    lemma_node_name_thematic_break();
    lemma_node_name_table();
    lemma_node_name_table_row();
    lemma_node_name_table_cell();
    lemma_node_name_footnote_definition();
    lemma_node_name_html_block();
    lemma_node_name_text();
    lemma_node_name_emph();
    lemma_node_name_strong();
    lemma_node_name_strikethrough();
    lemma_node_name_code();
    lemma_node_name_link();
    lemma_node_name_image();
    lemma_node_name_softbreak();
    lemma_node_name_linebreak();
    lemma_node_name_html_inline();
    lemma_node_name_footnote_reference();
}

proof fn lemma_node_name_document()
    ensures
        kind_of("document"@) == CmKind::Document,
{
    reveal_strlit("document");
}

proof fn lemma_node_name_paragraph()
    ensures
        kind_of("paragraph"@) == CmKind::Paragraph,
{
    reveal_strlit("paragraph");
    reveal_strlit("document");
    assert("paragraph"@.len() != "document"@.len());
    assert("paragraph"@ != "document"@);
}

proof fn lemma_node_name_heading()
    ensures
        kind_of("heading"@) == CmKind::Heading,
{
    reveal_strlit("heading");
    reveal_strlit("document");
    assert("heading"@.len() != "document"@.len());
    assert("heading"@ != "document"@);
    reveal_strlit("paragraph");
    assert("heading"@.len() != "paragraph"@.len());
    assert("heading"@ != "paragraph"@);
}

proof fn lemma_node_name_block_quote()
    ensures
        kind_of("block_quote"@) == CmKind::BlockQuote,
{
    reveal_strlit("block_quote");
    reveal_strlit("document");
    assert("block_quote"@.len() != "document"@.len());
    assert("block_quote"@ != "document"@);
    reveal_strlit("paragraph");
    assert("block_quote"@.len() != "paragraph"@.len());
    assert("block_quote"@ != "paragraph"@);
    reveal_strlit("heading");
    assert("block_quote"@.len() != "heading"@.len());
    assert("block_quote"@ != "heading"@);
}

proof fn lemma_node_name_list()
    ensures
        kind_of("list"@) == CmKind::List,
{
    reveal_strlit("list");
    reveal_strlit("document");
    assert("list"@.len() != "document"@.len());
    assert("list"@ != "document"@);
    reveal_strlit("paragraph");
    assert("list"@.len() != "paragraph"@.len());
    assert("list"@ != "paragraph"@);
    reveal_strlit("heading");
    assert("list"@.len() != "heading"@.len());
    assert("list"@ != "heading"@);
    reveal_strlit("block_quote");
    assert("list"@.len() != "block_quote"@.len());
    assert("list"@ != "block_quote"@);
}

proof fn lemma_node_name_item()
    ensures
        kind_of("item"@) == CmKind::Item,
{
    reveal_strlit("item");
    reveal_strlit("document");
    assert("item"@.len() != "document"@.len());
    assert("item"@ != "document"@);
    reveal_strlit("paragraph");
    assert("item"@.len() != "paragraph"@.len());
    assert("item"@ != "paragraph"@);
    reveal_strlit("heading");
    assert("item"@.len() != "heading"@.len());
    assert("item"@ != "heading"@);
    reveal_strlit("block_quote");
    assert("item"@.len() != "block_quote"@.len());
    assert("item"@ != "block_quote"@);
    reveal_strlit("list");
    assert("item"@[0] != "list"@[0]);
    assert("item"@ != "list"@);
}

proof fn lemma_node_name_taskitem()
    ensures
        kind_of("taskitem"@) == CmKind::TaskItem,
{
    reveal_strlit("taskitem");
    reveal_strlit("document");
    assert("taskitem"@[0] != "document"@[0]);
    assert("taskitem"@ != "document"@);
    reveal_strlit("paragraph");
    assert("taskitem"@.len() != "paragraph"@.len());
    assert("taskitem"@ != "paragraph"@);
    reveal_strlit("heading");
    assert("taskitem"@.len() != "heading"@.len());
    assert("taskitem"@ != "heading"@);
    reveal_strlit("block_quote");
    assert("taskitem"@.len() != "block_quote"@.len());
    assert("taskitem"@ != "block_quote"@);
    reveal_strlit("list");
    assert("taskitem"@.len() != "list"@.len());
    assert("taskitem"@ != "list"@);
    reveal_strlit("item");
    assert("taskitem"@.len() != "item"@.len());
    assert("taskitem"@ != "item"@);
}

proof fn lemma_node_name_code_block()
    ensures
        kind_of("code_block"@) == CmKind::CodeBlock,
{
    reveal_strlit("code_block");
    reveal_strlit("document");
    assert("code_block"@.len() != "document"@.len());
    assert("code_block"@ != "document"@);
    reveal_strlit("paragraph");
    assert("code_block"@.len() != "paragraph"@.len());
    assert("code_block"@ != "paragraph"@);
    reveal_strlit("heading");
    assert("code_block"@.len() != "heading"@.len());
    assert("code_block"@ != "heading"@);
    reveal_strlit("block_quote");
    assert("code_block"@.len() != "block_quote"@.len());
    assert("code_block"@ != "block_quote"@);
    reveal_strlit("list");
    assert("code_block"@.len() != "list"@.len());
    assert("code_block"@ != "list"@);
    reveal_strlit("item");
    assert("code_block"@.len() != "item"@.len());
    assert("code_block"@ != "item"@);
    reveal_strlit("taskitem");
    assert("code_block"@.len() != "taskitem"@.len());
    assert("code_block"@ != "taskitem"@);
}

proof fn lemma_node_name_thematic_break()
    ensures
        kind_of("thematic_break"@) == CmKind::ThematicBreak,
{
    reveal_strlit("thematic_break");
    reveal_strlit("document");
    assert("thematic_break"@.len() != "document"@.len());
    assert("thematic_break"@ != "document"@);
    reveal_strlit("paragraph");
    assert("thematic_break"@.len() != "paragraph"@.len());
    assert("thematic_break"@ != "paragraph"@);
    reveal_strlit("heading");
    assert("thematic_break"@.len() != "heading"@.len());
    assert("thematic_break"@ != "heading"@);
    reveal_strlit("block_quote");
    assert("thematic_break"@.len() != "block_quote"@.len());
    assert("thematic_break"@ != "block_quote"@);
    reveal_strlit("list");
    assert("thematic_break"@.len() != "list"@.len());
    assert("thematic_break"@ != "list"@);
    reveal_strlit("item");
    assert("thematic_break"@.len() != "item"@.len());
    assert("thematic_break"@ != "item"@);
    reveal_strlit("taskitem");
    assert("thematic_break"@.len() != "taskitem"@.len());
    assert("thematic_break"@ != "taskitem"@);
    reveal_strlit("code_block");
    assert("thematic_break"@.len() != "code_block"@.len());
    assert("thematic_break"@ != "code_block"@);
}

proof fn lemma_node_name_table()
    ensures
        kind_of("table"@) == CmKind::Table,
{
    reveal_strlit("table");
    reveal_strlit("document");
    assert("table"@.len() != "document"@.len());
    assert("table"@ != "document"@);
    reveal_strlit("paragraph");
    assert("table"@.len() != "paragraph"@.len());
    assert("table"@ != "paragraph"@);
    reveal_strlit("heading");
    assert("table"@.len() != "heading"@.len());
    assert("table"@ != "heading"@);
    reveal_strlit("block_quote");
    assert("table"@.len() != "block_quote"@.len());
    assert("table"@ != "block_quote"@);
    reveal_strlit("list");
    assert("table"@.len() != "list"@.len());
    assert("table"@ != "list"@);
    reveal_strlit("item");
    assert("table"@.len() != "item"@.len());
    assert("table"@ != "item"@);
    reveal_strlit("taskitem");
    assert("table"@.len() != "taskitem"@.len());
    assert("table"@ != "taskitem"@);
    reveal_strlit("code_block");
    assert("table"@.len() != "code_block"@.len());
    assert("table"@ != "code_block"@);
    reveal_strlit("thematic_break");
    assert("table"@.len() != "thematic_break"@.len());
    assert("table"@ != "thematic_break"@);
}

proof fn lemma_node_name_table_row()
    ensures
        kind_of("table_row"@) == CmKind::TableRow,
{
    reveal_strlit("table_row");
    reveal_strlit("document");
    assert("table_row"@.len() != "document"@.len());
    assert("table_row"@ != "document"@);
    reveal_strlit("paragraph");
    assert("table_row"@[0] != "paragraph"@[0]);
    assert("table_row"@ != "paragraph"@);
    reveal_strlit("heading");
    assert("table_row"@.len() != "heading"@.len());
    assert("table_row"@ != "heading"@);
    reveal_strlit("block_quote");
    assert("table_row"@.len() != "block_quote"@.len());
    assert("table_row"@ != "block_quote"@);
    reveal_strlit("list");
    assert("table_row"@.len() != "list"@.len());
    assert("table_row"@ != "list"@);
    reveal_strlit("item");
    assert("table_row"@.len() != "item"@.len());
    assert("table_row"@ != "item"@);
    reveal_strlit("taskitem");
    assert("table_row"@.len() != "taskitem"@.len());
    assert("table_row"@ != "taskitem"@);
    reveal_strlit("code_block");
    assert("table_row"@.len() != "code_block"@.len());
    assert("table_row"@ != "code_block"@);
    reveal_strlit("thematic_break");
    assert("table_row"@.len() != "thematic_break"@.len());
    assert("table_row"@ != "thematic_break"@);
    reveal_strlit("table");
    assert("table_row"@.len() != "table"@.len());
    assert("table_row"@ != "table"@);
}

proof fn lemma_node_name_table_cell()
    ensures
        kind_of("table_cell"@) == CmKind::TableCell,
{
    reveal_strlit("table_cell");
    reveal_strlit("document");
    assert("table_cell"@.len() != "document"@.len());
    assert("table_cell"@ != "document"@);
    reveal_strlit("paragraph");
    assert("table_cell"@.len() != "paragraph"@.len());
    assert("table_cell"@ != "paragraph"@);
    reveal_strlit("heading");
    assert("table_cell"@.len() != "heading"@.len());
    assert("table_cell"@ != "heading"@);
    reveal_strlit("block_quote");
    assert("table_cell"@.len() != "block_quote"@.len());
    assert("table_cell"@ != "block_quote"@);
    reveal_strlit("list");
    assert("table_cell"@.len() != "list"@.len());
    assert("table_cell"@ != "list"@);
    reveal_strlit("item");
    assert("table_cell"@.len() != "item"@.len());
    assert("table_cell"@ != "item"@);
    reveal_strlit("taskitem");
    assert("table_cell"@.len() != "taskitem"@.len());
    assert("table_cell"@ != "taskitem"@);
    reveal_strlit("code_block");
    assert("table_cell"@[0] != "code_block"@[0]);
    assert("table_cell"@ != "code_block"@);
    reveal_strlit("thematic_break");
    assert("table_cell"@.len() != "thematic_break"@.len());
    assert("table_cell"@ != "thematic_break"@);
    reveal_strlit("table");
    assert("table_cell"@.len() != "table"@.len());
    assert("table_cell"@ != "table"@);
    reveal_strlit("table_row");
    assert("table_cell"@.len() != "table_row"@.len());
    assert("table_cell"@ != "table_row"@);
}

proof fn lemma_node_name_footnote_definition()
    ensures
        kind_of("footnote_definition"@) == CmKind::FootnoteDefinition,
{
    reveal_strlit("footnote_definition");
    reveal_strlit("document");
    assert("footnote_definition"@.len() != "document"@.len());
    assert("footnote_definition"@ != "document"@);
    reveal_strlit("paragraph");
    assert("footnote_definition"@.len() != "paragraph"@.len());
    assert("footnote_definition"@ != "paragraph"@);
    reveal_strlit("heading");
    assert("footnote_definition"@.len() != "heading"@.len());
    assert("footnote_definition"@ != "heading"@);
    reveal_strlit("block_quote");
    assert("footnote_definition"@.len() != "block_quote"@.len());
    assert("footnote_definition"@ != "block_quote"@);
    reveal_strlit("list");
    assert("footnote_definition"@.len() != "list"@.len());
    assert("footnote_definition"@ != "list"@);
    reveal_strlit("item");
    assert("footnote_definition"@.len() != "item"@.len());
    assert("footnote_definition"@ != "item"@);
    reveal_strlit("taskitem");
    assert("footnote_definition"@.len() != "taskitem"@.len());
    assert("footnote_definition"@ != "taskitem"@);
    reveal_strlit("code_block");
    assert("footnote_definition"@.len() != "code_block"@.len());
    assert("footnote_definition"@ != "code_block"@);
    reveal_strlit("thematic_break");
    assert("footnote_definition"@.len() != "thematic_break"@.len());
    assert("footnote_definition"@ != "thematic_break"@);
    reveal_strlit("table");
    assert("footnote_definition"@.len() != "table"@.len());
    assert("footnote_definition"@ != "table"@);
    reveal_strlit("table_row");
    assert("footnote_definition"@.len() != "table_row"@.len());
    assert("footnote_definition"@ != "table_row"@);
    reveal_strlit("table_cell");
    assert("footnote_definition"@.len() != "table_cell"@.len());
    assert("footnote_definition"@ != "table_cell"@);
}

proof fn lemma_node_name_html_block()
    ensures
        kind_of("html_block"@) == CmKind::HtmlBlock,
{
    reveal_strlit("html_block");
    reveal_strlit("document");
    assert("html_block"@.len() != "document"@.len());
    assert("html_block"@ != "document"@);
    reveal_strlit("paragraph");
    assert("html_block"@.len() != "paragraph"@.len());
    assert("html_block"@ != "paragraph"@);
    reveal_strlit("heading");
    assert("html_block"@.len() != "heading"@.len());
    assert("html_block"@ != "heading"@);
    reveal_strlit("block_quote");
    assert("html_block"@.len() != "block_quote"@.len());
    assert("html_block"@ != "block_quote"@);
    reveal_strlit("list");
    assert("html_block"@.len() != "list"@.len());
    assert("html_block"@ != "list"@);
    reveal_strlit("item");
    assert("html_block"@.len() != "item"@.len());
    assert("html_block"@ != "item"@);
    reveal_strlit("taskitem");
    assert("html_block"@.len() != "taskitem"@.len());
    assert("html_block"@ != "taskitem"@);
    reveal_strlit("code_block");
    assert("html_block"@[0] != "code_block"@[0]);
    assert("html_block"@ != "code_block"@);
    reveal_strlit("thematic_break");
    assert("html_block"@.len() != "thematic_break"@.len());
    assert("html_block"@ != "thematic_break"@);
    reveal_strlit("table");
    assert("html_block"@.len() != "table"@.len());
    assert("html_block"@ != "table"@);
    reveal_strlit("table_row");
    assert("html_block"@.len() != "table_row"@.len());
    assert("html_block"@ != "table_row"@);
    reveal_strlit("table_cell");
    assert("html_block"@[0] != "table_cell"@[0]);
    assert("html_block"@ != "table_cell"@);
    reveal_strlit("footnote_definition");
    assert("html_block"@.len() != "footnote_definition"@.len());
    assert("html_block"@ != "footnote_definition"@);
}

proof fn lemma_node_name_text()
    ensures
        kind_of("text"@) == CmKind::Text,
{
    reveal_strlit("text");
    reveal_strlit("document");
    assert("text"@.len() != "document"@.len());
    assert("text"@ != "document"@);
    reveal_strlit("paragraph");
    assert("text"@.len() != "paragraph"@.len());
    assert("text"@ != "paragraph"@);
    reveal_strlit("heading");
    assert("text"@.len() != "heading"@.len());
    assert("text"@ != "heading"@);
    reveal_strlit("block_quote");
    assert("text"@.len() != "block_quote"@.len());
    assert("text"@ != "block_quote"@);
    reveal_strlit("list");
    assert("text"@[0] != "list"@[0]);
    assert("text"@ != "list"@);
    reveal_strlit("item");
    assert("text"@[0] != "item"@[0]);
    assert("text"@ != "item"@);
    reveal_strlit("taskitem");
    assert("text"@.len() != "taskitem"@.len());
    assert("text"@ != "taskitem"@);
    reveal_strlit("code_block");
    assert("text"@.len() != "code_block"@.len());
    assert("text"@ != "code_block"@);
    reveal_strlit("thematic_break");
    assert("text"@.len() != "thematic_break"@.len());
    assert("text"@ != "thematic_break"@);
    reveal_strlit("table");
    assert("text"@.len() != "table"@.len());
    assert("text"@ != "table"@);
    reveal_strlit("table_row");
    assert("text"@.len() != "table_row"@.len());
    assert("text"@ != "table_row"@);
    reveal_strlit("table_cell");
    assert("text"@.len() != "table_cell"@.len());
    assert("text"@ != "table_cell"@);
    reveal_strlit("footnote_definition");
    assert("text"@.len() != "footnote_definition"@.len());
    assert("text"@ != "footnote_definition"@);
    reveal_strlit("html_block");
    assert("text"@.len() != "html_block"@.len());
    assert("text"@ != "html_block"@);
}

proof fn lemma_node_name_emph()
    ensures
        kind_of("emph"@) == CmKind::Emph,
{
    reveal_strlit("emph");
    reveal_strlit("document");
    assert("emph"@.len() != "document"@.len());
    assert("emph"@ != "document"@);
    reveal_strlit("paragraph");
    assert("emph"@.len() != "paragraph"@.len());
    assert("emph"@ != "paragraph"@);
    reveal_strlit("heading");
    assert("emph"@.len() != "heading"@.len());
    assert("emph"@ != "heading"@);
    reveal_strlit("block_quote");
    assert("emph"@.len() != "block_quote"@.len());
    assert("emph"@ != "block_quote"@);
    reveal_strlit("list");
    assert("emph"@[0] != "list"@[0]);
    assert("emph"@ != "list"@);
    reveal_strlit("item");
    assert("emph"@[0] != "item"@[0]);
    assert("emph"@ != "item"@);
    reveal_strlit("taskitem");
    assert("emph"@.len() != "taskitem"@.len());
    assert("emph"@ != "taskitem"@);
    reveal_strlit("code_block");
    assert("emph"@.len() != "code_block"@.len());
    assert("emph"@ != "code_block"@);
    reveal_strlit("thematic_break");
    assert("emph"@.len() != "thematic_break"@.len());
    assert("emph"@ != "thematic_break"@);
    reveal_strlit("table");
    assert("emph"@.len() != "table"@.len());
    assert("emph"@ != "table"@);
    reveal_strlit("table_row");
    assert("emph"@.len() != "table_row"@.len());
    assert("emph"@ != "table_row"@);
    reveal_strlit("table_cell");
    assert("emph"@.len() != "table_cell"@.len());
    assert("emph"@ != "table_cell"@);
    reveal_strlit("footnote_definition");
    assert("emph"@.len() != "footnote_definition"@.len());
    assert("emph"@ != "footnote_definition"@);
    reveal_strlit("html_block");
    assert("emph"@.len() != "html_block"@.len());
    assert("emph"@ != "html_block"@);
    reveal_strlit("text");
    assert("emph"@[0] != "text"@[0]);
    assert("emph"@ != "text"@);
}

proof fn lemma_node_name_strong()
    ensures
        kind_of("strong"@) == CmKind::Strong,
{
    reveal_strlit("strong");
    reveal_strlit("document");
    assert("strong"@.len() != "document"@.len());
    assert("strong"@ != "document"@);
    reveal_strlit("paragraph");
    assert("strong"@.len() != "paragraph"@.len());
    assert("strong"@ != "paragraph"@);
    reveal_strlit("heading");
    assert("strong"@.len() != "heading"@.len());
    assert("strong"@ != "heading"@);
    reveal_strlit("block_quote");
    assert("strong"@.len() != "block_quote"@.len());
    assert("strong"@ != "block_quote"@);
    reveal_strlit("list");
    assert("strong"@.len() != "list"@.len());
    assert("strong"@ != "list"@);
    reveal_strlit("item");
    assert("strong"@.len() != "item"@.len());
    assert("strong"@ != "item"@);
    reveal_strlit("taskitem");
    assert("strong"@.len() != "taskitem"@.len());
    assert("strong"@ != "taskitem"@);
    reveal_strlit("code_block");
    assert("strong"@.len() != "code_block"@.len());
    assert("strong"@ != "code_block"@);
    reveal_strlit("thematic_break");
    assert("strong"@.len() != "thematic_break"@.len());
    assert("strong"@ != "thematic_break"@);
    reveal_strlit("table");
    assert("strong"@.len() != "table"@.len());
    assert("strong"@ != "table"@);
    reveal_strlit("table_row");
    assert("strong"@.len() != "table_row"@.len());
    assert("strong"@ != "table_row"@);
    reveal_strlit("table_cell");
    assert("strong"@.len() != "table_cell"@.len());
    assert("strong"@ != "table_cell"@);
    reveal_strlit("footnote_definition");
    assert("strong"@.len() != "footnote_definition"@.len());
    assert("strong"@ != "footnote_definition"@);
    reveal_strlit("html_block");
    assert("strong"@.len() != "html_block"@.len());
    assert("strong"@ != "html_block"@);
    reveal_strlit("text");
    assert("strong"@.len() != "text"@.len());
    assert("strong"@ != "text"@);
    reveal_strlit("emph");
    assert("strong"@.len() != "emph"@.len());
    assert("strong"@ != "emph"@);
}

proof fn lemma_node_name_strikethrough()
    ensures
        kind_of("strikethrough"@) == CmKind::Strikethrough,
{
    reveal_strlit("strikethrough");
    reveal_strlit("document");
    assert("strikethrough"@.len() != "document"@.len());
    assert("strikethrough"@ != "document"@);
    reveal_strlit("paragraph");
    assert("strikethrough"@.len() != "paragraph"@.len());
    assert("strikethrough"@ != "paragraph"@);
    reveal_strlit("heading");
    assert("strikethrough"@.len() != "heading"@.len());
    assert("strikethrough"@ != "heading"@);
    reveal_strlit("block_quote");
    assert("strikethrough"@.len() != "block_quote"@.len());
    assert("strikethrough"@ != "block_quote"@);
    reveal_strlit("list");
    assert("strikethrough"@.len() != "list"@.len());
    assert("strikethrough"@ != "list"@);
    reveal_strlit("item");
    assert("strikethrough"@.len() != "item"@.len());
    assert("strikethrough"@ != "item"@);
    reveal_strlit("taskitem");
    assert("strikethrough"@.len() != "taskitem"@.len());
    assert("strikethrough"@ != "taskitem"@);
    reveal_strlit("code_block");
    assert("strikethrough"@.len() != "code_block"@.len());
    assert("strikethrough"@ != "code_block"@);
    reveal_strlit("thematic_break");
    assert("strikethrough"@.len() != "thematic_break"@.len());
    assert("strikethrough"@ != "thematic_break"@);
    reveal_strlit("table");
    assert("strikethrough"@.len() != "table"@.len());
    assert("strikethrough"@ != "table"@);
    reveal_strlit("table_row");
    assert("strikethrough"@.len() != "table_row"@.len());
    assert("strikethrough"@ != "table_row"@);
    reveal_strlit("table_cell");
    assert("strikethrough"@.len() != "table_cell"@.len());
    assert("strikethrough"@ != "table_cell"@);
    reveal_strlit("footnote_definition");
    assert("strikethrough"@.len() != "footnote_definition"@.len());
    assert("strikethrough"@ != "footnote_definition"@);
    reveal_strlit("html_block");
    assert("strikethrough"@.len() != "html_block"@.len());
    assert("strikethrough"@ != "html_block"@);
    reveal_strlit("text");
    assert("strikethrough"@.len() != "text"@.len());
    assert("strikethrough"@ != "text"@);
    reveal_strlit("emph");
    assert("strikethrough"@.len() != "emph"@.len());
    assert("strikethrough"@ != "emph"@);
    reveal_strlit("strong");
    assert("strikethrough"@.len() != "strong"@.len());
    assert("strikethrough"@ != "strong"@);
}

proof fn lemma_node_name_code()
    ensures
        kind_of("code"@) == CmKind::Code,
{
    reveal_strlit("code");
    reveal_strlit("document");
    assert("code"@.len() != "document"@.len());
    assert("code"@ != "document"@);
    reveal_strlit("paragraph");
    assert("code"@.len() != "paragraph"@.len());
    assert("code"@ != "paragraph"@);
    reveal_strlit("heading");
    assert("code"@.len() != "heading"@.len());
    assert("code"@ != "heading"@);
    reveal_strlit("block_quote");
    assert("code"@.len() != "block_quote"@.len());
    assert("code"@ != "block_quote"@);
    reveal_strlit("list");
    assert("code"@[0] != "list"@[0]);
    assert("code"@ != "list"@);
    reveal_strlit("item");
    assert("code"@[0] != "item"@[0]);
    assert("code"@ != "item"@);
    reveal_strlit("taskitem");
    assert("code"@.len() != "taskitem"@.len());
    assert("code"@ != "taskitem"@);
    reveal_strlit("code_block");
    assert("code"@.len() != "code_block"@.len());
    assert("code"@ != "code_block"@);
    reveal_strlit("thematic_break");
    assert("code"@.len() != "thematic_break"@.len());
    assert("code"@ != "thematic_break"@);
    reveal_strlit("table");
    assert("code"@.len() != "table"@.len());
    assert("code"@ != "table"@);
    reveal_strlit("table_row");
    assert("code"@.len() != "table_row"@.len());
    assert("code"@ != "table_row"@);
    reveal_strlit("table_cell");
    assert("code"@.len() != "table_cell"@.len());
    assert("code"@ != "table_cell"@);
    reveal_strlit("footnote_definition");
    assert("code"@.len() != "footnote_definition"@.len());
    assert("code"@ != "footnote_definition"@);
    reveal_strlit("html_block");
    assert("code"@.len() != "html_block"@.len());
    assert("code"@ != "html_block"@);
    reveal_strlit("text");
    assert("code"@[0] != "text"@[0]);
    assert("code"@ != "text"@);
    reveal_strlit("emph");
    assert("code"@[0] != "emph"@[0]);
    assert("code"@ != "emph"@);
    reveal_strlit("strong");
    assert("code"@.len() != "strong"@.len());
    assert("code"@ != "strong"@);
    reveal_strlit("strikethrough");
    assert("code"@.len() != "strikethrough"@.len());
    assert("code"@ != "strikethrough"@);
}

proof fn lemma_node_name_link()
    ensures
        kind_of("link"@) == CmKind::Link,
{
    reveal_strlit("link");
    reveal_strlit("document");
    assert("link"@.len() != "document"@.len());
    assert("link"@ != "document"@);
    reveal_strlit("paragraph");
    assert("link"@.len() != "paragraph"@.len());
    assert("link"@ != "paragraph"@);
    reveal_strlit("heading");
    assert("link"@.len() != "heading"@.len());
    assert("link"@ != "heading"@);
    reveal_strlit("block_quote");
    assert("link"@.len() != "block_quote"@.len());
    assert("link"@ != "block_quote"@);
    reveal_strlit("list");
    assert("link"@[2] != "list"@[2]);
    assert("link"@ != "list"@);
    reveal_strlit("item");
    assert("link"@[0] != "item"@[0]);
    assert("link"@ != "item"@);
    reveal_strlit("taskitem");
    assert("link"@.len() != "taskitem"@.len());
    assert("link"@ != "taskitem"@);
    reveal_strlit("code_block");
    assert("link"@.len() != "code_block"@.len());
    assert("link"@ != "code_block"@);
    reveal_strlit("thematic_break");
    assert("link"@.len() != "thematic_break"@.len());
    assert("link"@ != "thematic_break"@);
    reveal_strlit("table");
    assert("link"@.len() != "table"@.len());
    assert("link"@ != "table"@);
    reveal_strlit("table_row");
    assert("link"@.len() != "table_row"@.len());
    assert("link"@ != "table_row"@);
    reveal_strlit("table_cell");
    assert("link"@.len() != "table_cell"@.len());
    assert("link"@ != "table_cell"@);
    reveal_strlit("footnote_definition");
    assert("link"@.len() != "footnote_definition"@.len());
    assert("link"@ != "footnote_definition"@);
    reveal_strlit("html_block");
    assert("link"@.len() != "html_block"@.len());
    assert("link"@ != "html_block"@);
    reveal_strlit("text");
    assert("link"@[0] != "text"@[0]);
    assert("link"@ != "text"@);
    reveal_strlit("emph");
    assert("link"@[0] != "emph"@[0]);
    assert("link"@ != "emph"@);
    reveal_strlit("strong");
    assert("link"@.len() != "strong"@.len());
    assert("link"@ != "strong"@);
    reveal_strlit("strikethrough");
    assert("link"@.len() != "strikethrough"@.len());
    assert("link"@ != "strikethrough"@);
    reveal_strlit("code");
    assert("link"@[0] != "code"@[0]);
    assert("link"@ != "code"@);
}

proof fn lemma_node_name_image()
    ensures
        kind_of("image"@) == CmKind::Image,
{
    reveal_strlit("image");
    reveal_strlit("document");
    assert("image"@.len() != "document"@.len());
    assert("image"@ != "document"@);
    reveal_strlit("paragraph");
    assert("image"@.len() != "paragraph"@.len());
    assert("image"@ != "paragraph"@);
    reveal_strlit("heading");
    assert("image"@.len() != "heading"@.len());
    assert("image"@ != "heading"@);
    reveal_strlit("block_quote");
    assert("image"@.len() != "block_quote"@.len());
    assert("image"@ != "block_quote"@);
    reveal_strlit("list");
    assert("image"@.len() != "list"@.len());
    assert("image"@ != "list"@);
    reveal_strlit("item");
    assert("image"@.len() != "item"@.len());
    assert("image"@ != "item"@);
    reveal_strlit("taskitem");
    assert("image"@.len() != "taskitem"@.len());
    assert("image"@ != "taskitem"@);
    reveal_strlit("code_block");
    assert("image"@.len() != "code_block"@.len());
    assert("image"@ != "code_block"@);
    reveal_strlit("thematic_break");
    assert("image"@.len() != "thematic_break"@.len());
    assert("image"@ != "thematic_break"@);
    reveal_strlit("table");
    assert("image"@[0] != "table"@[0]);
    assert("image"@ != "table"@);
    reveal_strlit("table_row");
    assert("image"@.len() != "table_row"@.len());
    assert("image"@ != "table_row"@);
    reveal_strlit("table_cell");
    assert("image"@.len() != "table_cell"@.len());
    assert("image"@ != "table_cell"@);
    reveal_strlit("footnote_definition");
    assert("image"@.len() != "footnote_definition"@.len());
    assert("image"@ != "footnote_definition"@);
    reveal_strlit("html_block");
    assert("image"@.len() != "html_block"@.len());
    assert("image"@ != "html_block"@);
    reveal_strlit("text");
    assert("image"@.len() != "text"@.len());
    assert("image"@ != "text"@);
    reveal_strlit("emph");
    assert("image"@.len() != "emph"@.len());
    assert("image"@ != "emph"@);
    reveal_strlit("strong");
    assert("image"@.len() != "strong"@.len());
    assert("image"@ != "strong"@);
    reveal_strlit("strikethrough");
    assert("image"@.len() != "strikethrough"@.len());
    assert("image"@ != "strikethrough"@);
    reveal_strlit("code");
    assert("image"@.len() != "code"@.len());
    assert("image"@ != "code"@);
    reveal_strlit("link");
    assert("image"@.len() != "link"@.len());
    assert("image"@ != "link"@);
}

proof fn lemma_node_name_softbreak()
    ensures
        kind_of("softbreak"@) == CmKind::SoftBreak,
{
    reveal_strlit("softbreak");
    reveal_strlit("document");
    assert("softbreak"@.len() != "document"@.len());
    assert("softbreak"@ != "document"@);
    reveal_strlit("paragraph");
    assert("softbreak"@[0] != "paragraph"@[0]);
    assert("softbreak"@ != "paragraph"@);
    reveal_strlit("heading");
    assert("softbreak"@.len() != "heading"@.len());
    assert("softbreak"@ != "heading"@);
    reveal_strlit("block_quote");
    assert("softbreak"@.len() != "block_quote"@.len());
    assert("softbreak"@ != "block_quote"@);
    reveal_strlit("list");
    assert("softbreak"@.len() != "list"@.len());
    assert("softbreak"@ != "list"@);
    reveal_strlit("item");
    assert("softbreak"@.len() != "item"@.len());
    assert("softbreak"@ != "item"@);
    reveal_strlit("taskitem");
    assert("softbreak"@.len() != "taskitem"@.len());
    assert("softbreak"@ != "taskitem"@);
    reveal_strlit("code_block");
    assert("softbreak"@.len() != "code_block"@.len());
    assert("softbreak"@ != "code_block"@);
    reveal_strlit("thematic_break");
    assert("softbreak"@.len() != "thematic_break"@.len());
    assert("softbreak"@ != "thematic_break"@);
    reveal_strlit("table");
    assert("softbreak"@.len() != "table"@.len());
    assert("softbreak"@ != "table"@);
    reveal_strlit("table_row");
    assert("softbreak"@[0] != "table_row"@[0]);
    assert("softbreak"@ != "table_row"@);
    reveal_strlit("table_cell");
    assert("softbreak"@.len() != "table_cell"@.len());
    assert("softbreak"@ != "table_cell"@);
    reveal_strlit("footnote_definition");
    assert("softbreak"@.len() != "footnote_definition"@.len());
    assert("softbreak"@ != "footnote_definition"@);
    reveal_strlit("html_block");
    assert("softbreak"@.len() != "html_block"@.len());
    assert("softbreak"@ != "html_block"@);
    reveal_strlit("text");
    assert("softbreak"@.len() != "text"@.len());
    assert("softbreak"@ != "text"@);
    reveal_strlit("emph");
    assert("softbreak"@.len() != "emph"@.len());
    assert("softbreak"@ != "emph"@);
    reveal_strlit("strong");
    assert("softbreak"@.len() != "strong"@.len());
    assert("softbreak"@ != "strong"@);
    reveal_strlit("strikethrough");
    assert("softbreak"@.len() != "strikethrough"@.len());
    assert("softbreak"@ != "strikethrough"@);
    reveal_strlit("code");
    assert("softbreak"@.len() != "code"@.len());
    assert("softbreak"@ != "code"@);
    reveal_strlit("link");
    assert("softbreak"@.len() != "link"@.len());
    assert("softbreak"@ != "link"@);
    reveal_strlit("image");
    assert("softbreak"@.len() != "image"@.len());
    assert("softbreak"@ != "image"@);
}

proof fn lemma_node_name_linebreak()
    ensures
        kind_of("linebreak"@) == CmKind::LineBreak,
{
    reveal_strlit("linebreak");
    reveal_strlit("document");
    assert("linebreak"@.len() != "document"@.len());
    assert("linebreak"@ != "document"@);
    reveal_strlit("paragraph");
    assert("linebreak"@[0] != "paragraph"@[0]);
    assert("linebreak"@ != "paragraph"@);
    reveal_strlit("heading");
    assert("linebreak"@.len() != "heading"@.len());
    assert("linebreak"@ != "heading"@);
    reveal_strlit("block_quote");
    assert("linebreak"@.len() != "block_quote"@.len());
    assert("linebreak"@ != "block_quote"@);
    reveal_strlit("list");
    assert("linebreak"@.len() != "list"@.len());
    assert("linebreak"@ != "list"@);
    reveal_strlit("item");
    assert("linebreak"@.len() != "item"@.len());
    assert("linebreak"@ != "item"@);
    reveal_strlit("taskitem");
    assert("linebreak"@.len() != "taskitem"@.len());
    assert("linebreak"@ != "taskitem"@);
    reveal_strlit("code_block");
    assert("linebreak"@.len() != "code_block"@.len());
    assert("linebreak"@ != "code_block"@);
    reveal_strlit("thematic_break");
    assert("linebreak"@.len() != "thematic_break"@.len());
    assert("linebreak"@ != "thematic_break"@);
    reveal_strlit("table");
    assert("linebreak"@.len() != "table"@.len());
    assert("linebreak"@ != "table"@);
    reveal_strlit("table_row");
    assert("linebreak"@[0] != "table_row"@[0]);
    assert("linebreak"@ != "table_row"@);
    reveal_strlit("table_cell");
    assert("linebreak"@.len() != "table_cell"@.len());
    assert("linebreak"@ != "table_cell"@);
    reveal_strlit("footnote_definition");
    assert("linebreak"@.len() != "footnote_definition"@.len());
    assert("linebreak"@ != "footnote_definition"@);
    reveal_strlit("html_block");
    assert("linebreak"@.len() != "html_block"@.len());
    assert("linebreak"@ != "html_block"@);
    reveal_strlit("text");
    assert("linebreak"@.len() != "text"@.len());
    assert("linebreak"@ != "text"@);
    reveal_strlit("emph");
    assert("linebreak"@.len() != "emph"@.len());
    assert("linebreak"@ != "emph"@);
    reveal_strlit("strong");
    assert("linebreak"@.len() != "strong"@.len());
    assert("linebreak"@ != "strong"@);
    reveal_strlit("strikethrough");
    assert("linebreak"@.len() != "strikethrough"@.len());
    assert("linebreak"@ != "strikethrough"@);
    reveal_strlit("code");
    assert("linebreak"@.len() != "code"@.len());
    assert("linebreak"@ != "code"@);
    reveal_strlit("link");
    assert("linebreak"@.len() != "link"@.len());
    assert("linebreak"@ != "link"@);
    reveal_strlit("image");
    assert("linebreak"@.len() != "image"@.len());
    assert("linebreak"@ != "image"@);
    reveal_strlit("softbreak");
    assert("linebreak"@[0] != "softbreak"@[0]);
    assert("linebreak"@ != "softbreak"@);
}

proof fn lemma_node_name_html_inline()
    ensures
        kind_of("html_inline"@) == CmKind::HtmlInline,
{
    reveal_strlit("html_inline");
    reveal_strlit("document");
    assert("html_inline"@.len() != "document"@.len());
    assert("html_inline"@ != "document"@);
    reveal_strlit("paragraph");
    assert("html_inline"@.len() != "paragraph"@.len());
    assert("html_inline"@ != "paragraph"@);
    reveal_strlit("heading");
    assert("html_inline"@.len() != "heading"@.len());
    assert("html_inline"@ != "heading"@);
    reveal_strlit("block_quote");
    assert("html_inline"@[0] != "block_quote"@[0]);
    assert("html_inline"@ != "block_quote"@);
    reveal_strlit("list");
    assert("html_inline"@.len() != "list"@.len());
    assert("html_inline"@ != "list"@);
    reveal_strlit("item");
    assert("html_inline"@.len() != "item"@.len());
    assert("html_inline"@ != "item"@);
    reveal_strlit("taskitem");
    assert("html_inline"@.len() != "taskitem"@.len());
    assert("html_inline"@ != "taskitem"@);
    reveal_strlit("code_block");
    assert("html_inline"@.len() != "code_block"@.len());
    assert("html_inline"@ != "code_block"@);
    reveal_strlit("thematic_break");
    assert("html_inline"@.len() != "thematic_break"@.len());
    assert("html_inline"@ != "thematic_break"@);
    reveal_strlit("table");
    assert("html_inline"@.len() != "table"@.len());
    assert("html_inline"@ != "table"@);
    reveal_strlit("table_row");
    assert("html_inline"@.len() != "table_row"@.len());
    assert("html_inline"@ != "table_row"@);
    reveal_strlit("table_cell");
    assert("html_inline"@.len() != "table_cell"@.len());
    assert("html_inline"@ != "table_cell"@);
    reveal_strlit("footnote_definition");
    assert("html_inline"@.len() != "footnote_definition"@.len());
    assert("html_inline"@ != "footnote_definition"@);
    reveal_strlit("html_block");
    assert("html_inline"@.len() != "html_block"@.len());
    assert("html_inline"@ != "html_block"@);
    reveal_strlit("text");
    assert("html_inline"@.len() != "text"@.len());
    assert("html_inline"@ != "text"@);
    reveal_strlit("emph");
    assert("html_inline"@.len() != "emph"@.len());
    assert("html_inline"@ != "emph"@);
    reveal_strlit("strong");
    assert("html_inline"@.len() != "strong"@.len());
    assert("html_inline"@ != "strong"@);
    reveal_strlit("strikethrough");
    assert("html_inline"@.len() != "strikethrough"@.len());
    assert("html_inline"@ != "strikethrough"@);
    reveal_strlit("code");
    assert("html_inline"@.len() != "code"@.len());
    assert("html_inline"@ != "code"@);
    reveal_strlit("link");
    assert("html_inline"@.len() != "link"@.len());
    assert("html_inline"@ != "link"@);
    reveal_strlit("image");
    assert("html_inline"@.len() != "image"@.len());
    assert("html_inline"@ != "image"@);
    reveal_strlit("softbreak");
    assert("html_inline"@.len() != "softbreak"@.len());
    assert("html_inline"@ != "softbreak"@);
    reveal_strlit("linebreak");
    assert("html_inline"@.len() != "linebreak"@.len());
    assert("html_inline"@ != "linebreak"@);
}

proof fn lemma_node_name_footnote_reference()
    ensures
        kind_of("footnote_reference"@) == CmKind::FootnoteReference,
{
    reveal_strlit("footnote_reference");
    reveal_strlit("document");
    assert("footnote_reference"@.len() != "document"@.len());
    assert("footnote_reference"@ != "document"@);
    reveal_strlit("paragraph");
    assert("footnote_reference"@.len() != "paragraph"@.len());
    assert("footnote_reference"@ != "paragraph"@);
    reveal_strlit("heading");
    assert("footnote_reference"@.len() != "heading"@.len());
    assert("footnote_reference"@ != "heading"@);
    reveal_strlit("block_quote");
    assert("footnote_reference"@.len() != "block_quote"@.len());
    assert("footnote_reference"@ != "block_quote"@);
    reveal_strlit("list");
    assert("footnote_reference"@.len() != "list"@.len());
    assert("footnote_reference"@ != "list"@);
    reveal_strlit("item");
    assert("footnote_reference"@.len() != "item"@.len());
    assert("footnote_reference"@ != "item"@);
    reveal_strlit("taskitem");
    assert("footnote_reference"@.len() != "taskitem"@.len());
    assert("footnote_reference"@ != "taskitem"@);
    reveal_strlit("code_block");
    assert("footnote_reference"@.len() != "code_block"@.len());
    assert("footnote_reference"@ != "code_block"@);
    reveal_strlit("thematic_break");
    assert("footnote_reference"@.len() != "thematic_break"@.len());
    assert("footnote_reference"@ != "thematic_break"@);
    reveal_strlit("table");
    assert("footnote_reference"@.len() != "table"@.len());
    assert("footnote_reference"@ != "table"@);
    reveal_strlit("table_row");
    assert("footnote_reference"@.len() != "table_row"@.len());
    assert("footnote_reference"@ != "table_row"@);
    reveal_strlit("table_cell");
    assert("footnote_reference"@.len() != "table_cell"@.len());
    assert("footnote_reference"@ != "table_cell"@);
    reveal_strlit("footnote_definition");
    assert("footnote_reference"@.len() != "footnote_definition"@.len());
    assert("footnote_reference"@ != "footnote_definition"@);
    reveal_strlit("html_block");
    assert("footnote_reference"@.len() != "html_block"@.len());
    assert("footnote_reference"@ != "html_block"@);
    reveal_strlit("text");
    assert("footnote_reference"@.len() != "text"@.len());
    assert("footnote_reference"@ != "text"@);
    reveal_strlit("emph");
    assert("footnote_reference"@.len() != "emph"@.len());
    assert("footnote_reference"@ != "emph"@);
    reveal_strlit("strong");
    assert("footnote_reference"@.len() != "strong"@.len());
    assert("footnote_reference"@ != "strong"@);
    reveal_strlit("strikethrough");
    assert("footnote_reference"@.len() != "strikethrough"@.len());
    assert("footnote_reference"@ != "strikethrough"@);
    reveal_strlit("code");
    assert("footnote_reference"@.len() != "code"@.len());
    assert("footnote_reference"@ != "code"@);
    reveal_strlit("link");
    assert("footnote_reference"@.len() != "link"@.len());
    assert("footnote_reference"@ != "link"@);
    reveal_strlit("image");
    assert("footnote_reference"@.len() != "image"@.len());
    assert("footnote_reference"@ != "image"@);
    reveal_strlit("softbreak");
    assert("footnote_reference"@.len() != "softbreak"@.len());
    assert("footnote_reference"@ != "softbreak"@);
    reveal_strlit("linebreak");
    assert("footnote_reference"@.len() != "linebreak"@.len());
    assert("footnote_reference"@ != "linebreak"@);
    reveal_strlit("html_inline");
    assert("footnote_reference"@.len() != "html_inline"@.len());
    assert("footnote_reference"@ != "html_inline"@);
}

/// A heading node keeps its level (comrak's levels are 1 to 6), and a list
/// node whether it is ordered, its start and whether it is tight.
pub proof fn law_block_nodes_keep_their_fields(ns: Seq<CmNodeV>, pos: int, d: nat)
    requires
        d <= MAX_NESTING_DEPTH,
        0 <= pos < ns.len(),
    ensures
        ({
            let n = ns[pos];
            let k = kind_of(n.kind);
            let inl = dec_inlines(ns, pos + 1, n.count as nat, d + 1);
            let its = dec_items(ns, pos + 1, n.count as nat, d + 1);
            &&& (k == CmKind::Heading && inl is Ok && 1 <= n.num <= 6) ==> dec_block(ns, pos, d) == Ok::<
                (BlockV, int),
                Seq<char>,
            >((BlockV::Heading { level: n.num as u8, content: inl->Ok_0.0 }, inl->Ok_0.1))
            &&& (k == CmKind::Paragraph && inl is Ok) ==> dec_block(ns, pos, d) == Ok::<(BlockV, int), Seq<char>>(
                (BlockV::Paragraph(inl->Ok_0.0), inl->Ok_0.1),
            )
            &&& (k == CmKind::List && its is Ok && n.num <= u32::MAX) ==> dec_block(ns, pos, d) == Ok::<
                (BlockV, int),
                Seq<char>,
            >(
                (
                    BlockV::List {
                        ordered: n.ordered,
                        start: if n.ordered {
                            n.num as u32
                        } else {
                            1
                        },
                        tight: n.tight,
                        items: its->Ok_0.0,
                    },
                    its->Ok_0.1,
                ),
            )
            &&& (k == CmKind::ThematicBreak && n.count == 0) ==> dec_block(ns, pos, d) == Ok::<
                (BlockV, int),
                Seq<char>,
            >((BlockV::ThematicBreak, pos + 1))
            &&& (k == CmKind::HtmlBlock && n.count == 0) ==> dec_block(ns, pos, d) == Ok::<
                (BlockV, int),
                Seq<char>,
            >((BlockV::HtmlBlock(n.text), pos + 1))
        }),
{
    let n = ns[pos];
    if 1 <= n.num <= 6 {
        assert((n.num % 256) as u8 == n.num as u8);
    }
}

} // verus!
