//! The inline extensions read out of literal text after parsing: cross-references
//! `[#label]`, citations `[@key]`, and footnote references `[^name]` to a
//! footnote defined anywhere in the document (including past a directive,
//! which the CommonMark engine parses as a separate run).
use vstd::prelude::*;
use crate::ast::{
    Block, BlockV, BodyV, ComponentBody, Inline, InlineV, ItemV, List, ListItem, Table, blocks_v,
    cells_v, inline_v, inlines_v, items_v, rows_v,
};
use crate::text::{strs_v, chars_of, contains_char, is_whitespace, is_ws, push_char, str_eq, string_of};

verus! {

broadcast use crate::ast::group_views;

/// The names of the footnotes defined in a block sequence, at any depth, in order.
pub open spec fn notes_blocks(bs: Seq<BlockV>) -> Seq<Seq<char>>
    decreases bs,
{
    if bs.len() == 0 {
        Seq::empty()
    } else {
        notes_blocks(bs.drop_last()) + notes_block(bs.last())
    }
}

pub open spec fn notes_block(b: BlockV) -> Seq<Seq<char>>
    decreases b,
{
    match b {
        BlockV::FootnoteDefinition { name, blocks } => seq![name] + notes_blocks(blocks),
        BlockV::BlockQuote(c) => notes_blocks(c),
        BlockV::List { items, .. } => notes_items(items),
        BlockV::Component { body, .. } => match body {
            BodyV::Children(c) => notes_blocks(c),
            BodyV::Raw(_) => Seq::empty(),
        },
        _ => Seq::empty(),
    }
}

pub open spec fn notes_items(items: Seq<ItemV>) -> Seq<Seq<char>>
    decreases items,
{
    if items.len() == 0 {
        Seq::empty()
    } else {
        notes_items(items.drop_last()) + notes_blocks(items.last().blocks)
    }
}

/// The end of a reference label that starts at `i`: the first `]`, `[` or
/// whitespace character at or after `i`, or the end of `t`.
pub open spec fn label_end(t: Seq<char>, i: int) -> int
    decreases t.len() - i,
{
    if i < 0 || i >= t.len() {
        t.len() as int
    } else if t[i] == ']' || t[i] == '[' || is_ws(t[i]) {
        i
    } else {
        label_end(t, i + 1)
    }
}

/// A reference at `t[i]`: `[#label]`, `[@key]`, or `[^name]` where `name` is a
/// defined footnote, with a non-empty label free of whitespace and brackets.
/// The result is the inline it stands for and the index just past it.
pub open spec fn ref_at(t: Seq<char>, i: int, defs: Seq<Seq<char>>) -> Option<(InlineV, int)> {
    if 0 <= i && i + 1 < t.len() && t[i] == '[' && (t[i + 1] == '#' || t[i + 1] == '@' || t[i
        + 1] == '^') {
        let e = label_end(t, i + 2);
        if e < t.len() && t[e] == ']' && e > i + 2 {
            let l = t.subrange(i + 2, e);
            if t[i + 1] == '#' {
                Some((InlineV::CrossRef(l), e + 1))
            } else if t[i + 1] == '@' {
                Some((InlineV::Citation(l), e + 1))
            } else if defs.contains(l) {
                Some((InlineV::FootnoteReference(l), e + 1))
            } else {
                None
            }
        } else {
            None
        }
    } else {
        None
    }
}

pub proof fn lemma_label_end(t: Seq<char>, i: int)
    requires
        0 <= i <= t.len(),
    ensures
        i <= label_end(t, i) <= t.len(),
        forall|k: int| i <= k < label_end(t, i) ==> !(#[trigger] t[k] == ']' || t[k] == '[' || is_ws(t[k])),
        label_end(t, i) < t.len() ==> (t[label_end(t, i)] == ']' || t[label_end(t, i)] == '[' || is_ws(
            t[label_end(t, i)],
        )),
    decreases t.len() - i,
{
    if i < t.len() && !(t[i] == ']' || t[i] == '[' || is_ws(t[i])) {
        lemma_label_end(t, i + 1);
    }
}

pub proof fn lemma_ref_at(t: Seq<char>, i: int, defs: Seq<Seq<char>>)
    ensures
        ref_at(t, i, defs) matches Some((_, e)) ==> i + 3 < e <= t.len(),
{
    if 0 <= i && i + 1 < t.len() {
        lemma_label_end(t, i + 2);
    }
}

/// A text run written as a buffer of literal characters.
pub open spec fn text_piece(buf: Seq<char>) -> Seq<InlineV> {
    if buf.len() > 0 {
        seq![InlineV::Text(buf)]
    } else {
        Seq::empty()
    }
}

/// The inlines for `t[i..]`, with `buf` the literal text read before `i`.
pub open spec fn split_from(t: Seq<char>, defs: Seq<Seq<char>>, i: int, buf: Seq<char>) -> Seq<
    InlineV,
>
    decreases t.len() - i,
{
    if i < 0 || i >= t.len() {
        text_piece(buf)
    } else {
        proof {
            lemma_ref_at(t, i, defs);
        }
        match ref_at(t, i, defs) {
            Some((node, e)) => text_piece(buf) + seq![node] + split_from(t, defs, e, Seq::empty()),
            None => split_from(t, defs, i + 1, buf.push(t[i])),
        }
    }
}

/// A text node with its references read out.
pub open spec fn ext_text(t: Seq<char>, defs: Seq<Seq<char>>) -> Seq<InlineV> {
    split_from(t, defs, 0, Seq::empty())
}

pub open spec fn ext_inline(i: InlineV, defs: Seq<Seq<char>>) -> Seq<InlineV>
    decreases i,
{
    match i {
        InlineV::Text(t) => ext_text(t, defs),
        InlineV::Emphasis(c) => seq![InlineV::Emphasis(ext_inlines(c, defs))],
        InlineV::Strong(c) => seq![InlineV::Strong(ext_inlines(c, defs))],
        InlineV::Strikethrough(c) => seq![InlineV::Strikethrough(ext_inlines(c, defs))],
        _ => seq![i],
    }
}

pub open spec fn ext_inlines(s: Seq<InlineV>, defs: Seq<Seq<char>>) -> Seq<InlineV>
    decreases s,
{
    if s.len() == 0 {
        Seq::empty()
    } else {
        ext_inlines(s.drop_last(), defs) + ext_inline(s.last(), defs)
    }
}

pub open spec fn ext_cells(s: Seq<Seq<InlineV>>, defs: Seq<Seq<char>>) -> Seq<Seq<InlineV>>
    decreases s.len(),
{
    if s.len() == 0 {
        Seq::empty()
    } else {
        ext_cells(s.drop_last(), defs).push(ext_inlines(s.last(), defs))
    }
}

pub open spec fn ext_rows(s: Seq<Seq<Seq<InlineV>>>, defs: Seq<Seq<char>>) -> Seq<Seq<Seq<InlineV>>>
    decreases s.len(),
{
    if s.len() == 0 {
        Seq::empty()
    } else {
        ext_rows(s.drop_last(), defs).push(ext_cells(s.last(), defs))
    }
}

pub open spec fn ext_block(b: BlockV, defs: Seq<Seq<char>>) -> BlockV
    decreases b,
{
    match b {
        BlockV::Heading { level, content } => BlockV::Heading {
            level,
            content: ext_inlines(content, defs),
        },
        BlockV::Paragraph(c) => BlockV::Paragraph(ext_inlines(c, defs)),
        BlockV::BlockQuote(c) => BlockV::BlockQuote(ext_blocks(c, defs)),
        BlockV::List { ordered, start, tight, items } => BlockV::List {
            ordered,
            start,
            tight,
            items: ext_items(items, defs),
        },
        BlockV::Table { alignments, header, rows } => BlockV::Table {
            alignments,
            header: ext_cells(header, defs),
            rows: ext_rows(rows, defs),
        },
        BlockV::FootnoteDefinition { name, blocks } => BlockV::FootnoteDefinition {
            name,
            blocks: ext_blocks(blocks, defs),
        },
        BlockV::Component { name, attrs, body } => BlockV::Component {
            name,
            attrs,
            body: match body {
                BodyV::Children(c) => BodyV::Children(ext_blocks(c, defs)),
                BodyV::Raw(r) => BodyV::Raw(r),
            },
        },
        _ => b,
    }
}

pub open spec fn ext_blocks(s: Seq<BlockV>, defs: Seq<Seq<char>>) -> Seq<BlockV>
    decreases s,
{
    if s.len() == 0 {
        Seq::empty()
    } else {
        ext_blocks(s.drop_last(), defs).push(ext_block(s.last(), defs))
    }
}

pub open spec fn ext_items(s: Seq<ItemV>, defs: Seq<Seq<char>>) -> Seq<ItemV>
    decreases s,
{
    if s.len() == 0 {
        Seq::empty()
    } else {
        ext_items(s.drop_last(), defs).push(
            ItemV { task: s.last().task, blocks: ext_blocks(s.last().blocks, defs) },
        )
    }
}

/// The document-level pass: every footnote name defined in `bs` is collected,
/// then references are read out of the text.
pub open spec fn extend(bs: Seq<BlockV>) -> Seq<BlockV> {
    ext_blocks(bs, notes_blocks(bs))
}

/// Whether `names` holds `s`.
pub fn holds(names: &Vec<String>, s: &String) -> (r: bool)
    ensures
        r == strs_v(names@).contains(s@),
{
    let mut i: usize = 0;
    while i < names.len()
        invariant
            i <= names@.len(),
            forall|k: int| 0 <= k < i ==> names@[k]@ != s@,
        decreases names.len() - i,
    {
        if str_eq(names[i].as_str(), s.as_str()) {
            assert(strs_v(names@)[i as int] == s@);
            return true;
        }
        i = i + 1;
    }
    proof {
        if strs_v(names@).contains(s@) {
            let k = choose|k: int| 0 <= k < strs_v(names@).len() && strs_v(names@)[k] == s@;
            assert(names@[k]@ == s@);
        }
    }
    false
}

/// The reference at `c[i]`, if one starts there.
pub fn ref_at_exec(c: &Vec<char>, i: usize, defs: &Vec<String>) -> (r: Option<(Inline, usize)>)
    requires
        i < c@.len(),
    ensures
        match r {
            Some((node, e)) => ref_at(c@, i as int, strs_v(defs@)) == Some((node@, e as int)),
            None => ref_at(c@, i as int, strs_v(defs@)) is None,
        },
{
    if c.len() - i < 2 || c[i] != '[' || !(c[i + 1] == '#' || c[i + 1] == '@' || c[i + 1] == '^') {
        return None;
    }
    let mut e = i + 2;
    proof {
        lemma_label_end(c@, i + 2);
    }
    while e < c.len() && !(c[e] == ']' || c[e] == '[' || is_whitespace(c[e]))
        invariant
            i + 2 <= e <= c@.len(),
            e <= label_end(c@, i + 2),
            i + 2 <= label_end(c@, i + 2) <= c@.len(),
            label_end(c@, i + 2) < c@.len() ==> (c@[label_end(c@, i + 2)] == ']' || c@[label_end(c@, i + 2)] == '['
                || is_ws(c@[label_end(c@, i + 2)])),
        decreases c.len() - e,
    {
        e = e + 1;
    }
    assert(e == label_end(c@, i + 2));
    if e >= c.len() || c[e] != ']' || e <= i + 2 {
        return None;
    }
    let label = string_of(c, i + 2, e);
    if c[i + 1] == '#' {
        Some((Inline::CrossRef { target: label }, e + 1))
    } else if c[i + 1] == '@' {
        Some((Inline::Citation { key: label }, e + 1))
    } else if holds(defs, &label) {
        Some((Inline::FootnoteReference { name: label }, e + 1))
    } else {
        None
    }
}

/// Read the references out of one text node.
pub fn split_text(t: &String, defs: &Vec<String>) -> (r: Vec<Inline>)
    ensures
        inlines_v(r@) == ext_text(t@, strs_v(defs@)),
{
    let c = chars_of(t.as_str());
    let ghost d = strs_v(defs@);
    let mut out: Vec<Inline> = Vec::new();
    let mut buf = String::new();
    let mut i: usize = 0;
    assert(inlines_v(out@) + split_from(c@, d, 0, buf@) =~= ext_text(t@, d));
    while i < c.len()
        invariant
            i <= c@.len(),
            d == strs_v(defs@),
            c@ == t@,
            ext_text(t@, d) == inlines_v(out@) + split_from(c@, d, i as int, buf@),
        decreases c.len() - i,
    {
        let ghost acc = inlines_v(out@);
        match ref_at_exec(&c, i, defs) {
            Some((node, e)) => {
                let ghost bold = buf@;
                let ghost nv = node@;
                proof {
                    lemma_ref_at(c@, i as int, d);
                    assert(split_from(c@, d, i as int, bold) == text_piece(bold) + seq![nv]
                        + split_from(c@, d, e as int, Seq::empty()));
                }
                if !buf.as_str().is_empty() {
                    let b = buf;
                    buf = String::new();
                    out.push(Inline::Text(b));
                    assert(inlines_v(out@) =~= acc + text_piece(bold));
                } else {
                    assert(inlines_v(out@) =~= acc + text_piece(bold));
                }
                out.push(node);
                assert(inlines_v(out@) =~= acc + text_piece(bold) + seq![nv]);
                i = e;
                assert(buf@ =~= Seq::<char>::empty());
                assert(ext_text(t@, d) =~= inlines_v(out@) + split_from(c@, d, i as int, buf@));
            },
            None => {
                push_char(&mut buf, c[i]);
                i = i + 1;
            },
        }
    }
    let ghost acc = inlines_v(out@);
    let ghost bl = buf@;
    if !buf.as_str().is_empty() {
        out.push(Inline::Text(buf));
    }
    assert(inlines_v(out@) =~= acc + text_piece(bl));
    assert(inlines_v(out@) =~= ext_text(t@, d));
    out
}

/// Append the names of the footnotes defined in `bs` to `out`.
pub fn notes_of_blocks(bs: &Vec<Block>, out: &mut Vec<String>)
    ensures
        strs_v(final(out)@) == strs_v(old(out)@) + notes_blocks(blocks_v(bs@)),
    decreases bs@,
{
    let ghost start = strs_v(out@);
    let ghost bv = blocks_v(bs@);
    let mut i: usize = 0;
    assert(bv.take(0) =~= Seq::<BlockV>::empty());
    assert(start + Seq::<Seq<char>>::empty() =~= start);
    while i < bs.len()
        invariant
            i <= bs@.len(),
            bv == blocks_v(bs@),
            strs_v(out@) == start + notes_blocks(bv.take(i as int)),
        decreases bs.len() - i,
    {
        let ghost before = strs_v(out@);
        proof {
            crate::ast::lemma_blocks_v(bs@);
        }
        assert(bv[i as int] == bs@[i as int]@);
        notes_of_block(&bs[i], out);
        assert(bv.take(i + 1).drop_last() =~= bv.take(i as int));
        assert(start + notes_blocks(bv.take(i + 1)) =~= before + notes_block(bv[i as int]));
        i = i + 1;
    }
    assert(bv.take(bs@.len() as int) =~= bv);
}

pub fn notes_of_block(b: &Block, out: &mut Vec<String>)
    ensures
        strs_v(final(out)@) == strs_v(old(out)@) + notes_block(b@),
    decreases *b,
{
    let ghost start = strs_v(out@);
    match b {
        Block::FootnoteDefinition { name, blocks } => {
            out.push(name.clone());
            assert(strs_v(out@) =~= start.push(name@));
            notes_of_blocks(blocks, out);
            assert(start.push(name@) + notes_blocks(blocks_v(blocks@)) =~= start + (seq![name@]
                + notes_blocks(blocks_v(blocks@))));
        },
        Block::BlockQuote(c) => notes_of_blocks(c, out),
        Block::List(l) => notes_of_items(&l.items, out),
        Block::Component(c) => {
            match &c.body {
                ComponentBody::Children(k) => notes_of_blocks(k, out),
                ComponentBody::Raw(_) => {
                    assert(strs_v(out@) =~= start + Seq::<Seq<char>>::empty());
                },
            }
        },
        _ => {
            assert(strs_v(out@) =~= start + Seq::<Seq<char>>::empty());
        },
    }
}

pub fn notes_of_items(items: &Vec<ListItem>, out: &mut Vec<String>)
    ensures
        strs_v(final(out)@) == strs_v(old(out)@) + notes_items(items_v(items@)),
    decreases items@,
{
    let ghost start = strs_v(out@);
    let ghost iv = items_v(items@);
    let mut i: usize = 0;
    assert(iv.take(0) =~= Seq::<ItemV>::empty());
    assert(start + Seq::<Seq<char>>::empty() =~= start);
    while i < items.len()
        invariant
            i <= items@.len(),
            iv == items_v(items@),
            strs_v(out@) == start + notes_items(iv.take(i as int)),
        decreases items.len() - i,
    {
        let ghost before = strs_v(out@);
        notes_of_blocks(&items[i].blocks, out);
        proof {
            crate::ast::lemma_items_v(items@);
            assert(iv.take(i + 1).drop_last() =~= iv.take(i as int));
            assert(iv.take(i + 1).last() == iv[i as int]);
            assert(notes_items(iv.take(i + 1)) == notes_items(iv.take(i as int)) + notes_blocks(iv[i as int].blocks));
            assert(start + notes_items(iv.take(i + 1)) =~= before + notes_blocks(blocks_v(items@[i as int].blocks@)));
        }
        i = i + 1;
    }
    assert(iv.take(items@.len() as int) =~= iv);
}

/// Read the references out of every text node of `v`.
pub fn ext_inlines_of(input: Vec<Inline>, defs: &Vec<String>) -> (r: Vec<Inline>)
    ensures
        inlines_v(r@) == ext_inlines(inlines_v(input@), strs_v(defs@)),
    decreases input@,
{
    let ghost orig = input@;
    let ghost ov = inlines_v(orig);
    let ghost d = strs_v(defs@);
    let mut v = input;
    let mut out: Vec<Inline> = Vec::new();
    let mut i: usize = 0;
    assert(ov.take(0) =~= Seq::<InlineV>::empty());
    while i < v.len()
        invariant
            v@.len() == orig.len(),
            orig == input@,
            i <= orig.len(),
            ov == inlines_v(orig),
            d == strs_v(defs@),
            forall|k: int| i <= k < orig.len() ==> v@[k] == orig[k],
            inlines_v(out@) == ext_inlines(ov.take(i as int), d),
        decreases orig.len() - i,
    {
        let mut x = Inline::SoftBreak;
        std::mem::swap(&mut x, &mut v[i]);
        assert(x == orig[i as int]);
        let ghost acc = inlines_v(out@);
        let ghost xv = x@;
        proof {
            crate::ast::lemma_inlines_v(orig);
        }
        assert(ov[i as int] == xv);
        let mut r = ext_inline_of(x, defs);
        let ghost rv = inlines_v(r@);
        let ghost rs = r@;
        let ghost oldv = out@;
        out.append(&mut r);
        proof {
            assert(out@ =~= oldv + rs);
            crate::ast::lemma_inlines_v_concat(oldv, rs);
        }
        assert(ov.take(i + 1).drop_last() =~= ov.take(i as int));
        i = i + 1;
    }
    assert(ov.take(orig.len() as int) =~= ov);
    out
}

pub fn ext_inline_of(x: Inline, defs: &Vec<String>) -> (r: Vec<Inline>)
    ensures
        inlines_v(r@) == ext_inline(x@, strs_v(defs@)),
    decreases x,
{
    let ghost xv = x@;
    let mut out: Vec<Inline> = Vec::new();
    match x {
        Inline::Text(t) => {
            return split_text(&t, defs);
        },
        Inline::Emphasis(c) => {
            out.push(Inline::Emphasis(ext_inlines_of(c, defs)));
        },
        Inline::Strong(c) => {
            out.push(Inline::Strong(ext_inlines_of(c, defs)));
        },
        Inline::Strikethrough(c) => {
            out.push(Inline::Strikethrough(ext_inlines_of(c, defs)));
        },
        other => {
            out.push(other);
        },
    }
    assert(inlines_v(out@) =~= ext_inline(xv, strs_v(defs@)));
    out
}

fn ext_cells_of(input: Vec<Vec<Inline>>, defs: &Vec<String>) -> (r: Vec<Vec<Inline>>)
    ensures
        cells_v(r@) == ext_cells(cells_v(input@), strs_v(defs@)),
{
    let ghost orig = input@;
    let ghost ov = cells_v(orig);
    let ghost d = strs_v(defs@);
    let mut v = input;
    let mut out: Vec<Vec<Inline>> = Vec::new();
    let mut i: usize = 0;
    assert(ov.take(0) =~= Seq::<Seq<InlineV>>::empty());
    while i < v.len()
        invariant
            v@.len() == orig.len(),
            orig == input@,
            i <= orig.len(),
            ov == cells_v(orig),
            d == strs_v(defs@),
            forall|k: int| i <= k < orig.len() ==> v@[k] == orig[k],
            cells_v(out@) == ext_cells(ov.take(i as int), d),
        decreases orig.len() - i,
    {
        let mut x: Vec<Inline> = Vec::new();
        std::mem::swap(&mut x, &mut v[i]);
        assert(x == orig[i as int]);
        let ghost acc = cells_v(out@);
        proof {
            crate::ast::lemma_cells_v(orig);
        }
        assert(ov[i as int] == inlines_v(x@));
        let r = ext_inlines_of(x, defs);
        out.push(r);
        assert(cells_v(out@) =~= acc.push(inlines_v(r@)));
        assert(ov.take(i + 1).drop_last() =~= ov.take(i as int));
        i = i + 1;
    }
    assert(ov.take(orig.len() as int) =~= ov);
    out
}

fn ext_rows_of(input: Vec<Vec<Vec<Inline>>>, defs: &Vec<String>) -> (r: Vec<Vec<Vec<Inline>>>)
    ensures
        rows_v(r@) == ext_rows(rows_v(input@), strs_v(defs@)),
{
    let ghost orig = input@;
    let ghost ov = rows_v(orig);
    let ghost d = strs_v(defs@);
    let mut v = input;
    let mut out: Vec<Vec<Vec<Inline>>> = Vec::new();
    let mut i: usize = 0;
    assert(ov.take(0) =~= Seq::<Seq<Seq<InlineV>>>::empty());
    while i < v.len()
        invariant
            v@.len() == orig.len(),
            orig == input@,
            i <= orig.len(),
            ov == rows_v(orig),
            d == strs_v(defs@),
            forall|k: int| i <= k < orig.len() ==> v@[k] == orig[k],
            rows_v(out@) == ext_rows(ov.take(i as int), d),
        decreases orig.len() - i,
    {
        let mut x: Vec<Vec<Inline>> = Vec::new();
        std::mem::swap(&mut x, &mut v[i]);
        assert(x == orig[i as int]);
        let ghost acc = rows_v(out@);
        proof {
            crate::ast::lemma_rows_v(orig);
        }
        assert(ov[i as int] == cells_v(x@));
        let r = ext_cells_of(x, defs);
        out.push(r);
        assert(rows_v(out@) =~= acc.push(cells_v(r@)));
        assert(ov.take(i + 1).drop_last() =~= ov.take(i as int));
        i = i + 1;
    }
    assert(ov.take(orig.len() as int) =~= ov);
    out
}

pub fn ext_blocks_of(input: Vec<Block>, defs: &Vec<String>) -> (r: Vec<Block>)
    ensures
        blocks_v(r@) == ext_blocks(blocks_v(input@), strs_v(defs@)),
    decreases input@,
{
    let ghost orig = input@;
    let ghost ov = blocks_v(orig);
    let ghost d = strs_v(defs@);
    let mut v = input;
    let mut out: Vec<Block> = Vec::new();
    let mut i: usize = 0;
    assert(ov.take(0) =~= Seq::<BlockV>::empty());
    while i < v.len()
        invariant
            v@.len() == orig.len(),
            orig == input@,
            i <= orig.len(),
            ov == blocks_v(orig),
            d == strs_v(defs@),
            forall|k: int| i <= k < orig.len() ==> v@[k] == orig[k],
            blocks_v(out@) == ext_blocks(ov.take(i as int), d),
        decreases orig.len() - i,
    {
        let mut x = Block::ThematicBreak;
        std::mem::swap(&mut x, &mut v[i]);
        assert(x == orig[i as int]);
        let ghost acc = blocks_v(out@);
        proof {
            crate::ast::lemma_blocks_v(orig);
        }
        assert(ov[i as int] == x@);
        let r = ext_block_of(x, defs);
        out.push(r);
        assert(blocks_v(out@) =~= acc.push(r@));
        assert(ov.take(i + 1).drop_last() =~= ov.take(i as int));
        i = i + 1;
    }
    assert(ov.take(orig.len() as int) =~= ov);
    out
}

pub fn ext_items_of(input: Vec<ListItem>, defs: &Vec<String>) -> (r: Vec<ListItem>)
    ensures
        items_v(r@) == ext_items(items_v(input@), strs_v(defs@)),
    decreases input@,
{
    let ghost orig = input@;
    let ghost ov = items_v(orig);
    let ghost d = strs_v(defs@);
    let mut v = input;
    let mut out: Vec<ListItem> = Vec::new();
    let mut i: usize = 0;
    assert(ov.take(0) =~= Seq::<ItemV>::empty());
    while i < v.len()
        invariant
            v@.len() == orig.len(),
            orig == input@,
            i <= orig.len(),
            ov == items_v(orig),
            d == strs_v(defs@),
            forall|k: int| i <= k < orig.len() ==> v@[k] == orig[k],
            items_v(out@) == ext_items(ov.take(i as int), d),
        decreases orig.len() - i,
    {
        let mut x = ListItem { task: None, blocks: Vec::new() };
        std::mem::swap(&mut x, &mut v[i]);
        assert(x == orig[i as int]);
        let ghost acc = items_v(out@);
        proof {
            crate::ast::lemma_items_v(orig);
        }
        assert(ov[i as int] == ItemV { task: x.task, blocks: blocks_v(x.blocks@) });
        let ListItem { task, blocks } = x;
        let nb = ext_blocks_of(blocks, defs);
        let item = ListItem { task, blocks: nb };
        out.push(item);
        assert(items_v(out@) =~= acc.push(ItemV { task, blocks: blocks_v(nb@) }));
        assert(ov.take(i + 1).drop_last() =~= ov.take(i as int));
        i = i + 1;
    }
    assert(ov.take(orig.len() as int) =~= ov);
    out
}

pub fn ext_block_of(b: Block, defs: &Vec<String>) -> (r: Block)
    ensures
        r@ == ext_block(b@, strs_v(defs@)),
    decreases b,
{
    match b {
        Block::Heading { level, content } => Block::Heading {
            level,
            content: ext_inlines_of(content, defs),
        },
        Block::Paragraph(c) => Block::Paragraph(ext_inlines_of(c, defs)),
        Block::BlockQuote(c) => Block::BlockQuote(ext_blocks_of(c, defs)),
        Block::List(l) => {
            let List { ordered, start, tight, items } = l;
            Block::List(List { ordered, start, tight, items: ext_items_of(items, defs) })
        },
        Block::Table(t) => {
            let Table { alignments, header, rows } = t;
            Block::Table(
                Table {
                    alignments,
                    header: ext_cells_of(header, defs),
                    rows: ext_rows_of(rows, defs),
                },
            )
        },
        Block::FootnoteDefinition { name, blocks } => Block::FootnoteDefinition {
            name,
            blocks: ext_blocks_of(blocks, defs),
        },
        Block::Component(c) => {
            let crate::ast::Component { name, attrs, body } = c;
            let body = match body {
                ComponentBody::Children(k) => ComponentBody::Children(ext_blocks_of(k, defs)),
                ComponentBody::Raw(r) => ComponentBody::Raw(r),
            };
            Block::Component(crate::ast::Component { name, attrs, body })
        },
        other => other,
    }
}

} // verus!
