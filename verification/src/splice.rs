//! The decisions of `:::include` resolution: which includes a document holds,
//! whether one may be followed (nesting depth, relative path, confinement to the
//! document's directory, no cycle), and splicing the included blocks in place.
//! Reading files and resolving paths is the caller's part.
use vstd::prelude::*;
use crate::ast::{
    first_value, Block, BlockV, BodyV, Component, ComponentBody, ItemV, List, ListItem,
    blocks_v, items_v,
};
use crate::text::{str_eq, strs_v};

verus! {

broadcast use crate::ast::group_views;

/// Maximum include nesting depth.
pub const MAX_INCLUDE_DEPTH: usize = 16;

/// Why an include cannot be followed.
#[derive(Debug, PartialEq, Eq)]
pub enum IncludeError {
    /// An include without a `src` attribute.
    MissingSrc,
    /// An include nested `MAX_INCLUDE_DEPTH` deep or deeper.
    TooDeep(String),
    /// An include whose path is absolute.
    Absolute(String),
    /// An include that resolves outside the document directory (shown second).
    Escapes(String, String),
    /// An include of a file already being resolved (its path).
    Cycle(String),
}

impl IncludeError {
    /// The human-readable description of the error.
    pub fn message(&self) -> (r: String)
        ensures
            r@ == self.msg(),
    {
        let mut r = String::new();
        match self {
            IncludeError::MissingSrc => r.append("an :::include needs a src attribute"),
            IncludeError::TooDeep(src) => {
                r.append("include nesting exceeds the maximum depth of 16: ");
                r.append(src.as_str());
            },
            IncludeError::Absolute(src) => {
                r.append("include path must be relative, not absolute: ");
                r.append(src.as_str());
            },
            IncludeError::Escapes(src, jail) => {
                r.append("include escapes the document directory (");
                r.append(jail.as_str());
                r.append("): ");
                r.append(src.as_str());
            },
            IncludeError::Cycle(path) => {
                r.append("include cycle detected at ");
                r.append(path.as_str());
            },
        }
        r
    }

    pub open spec fn msg(&self) -> Seq<char> {
        match self {
            IncludeError::MissingSrc => "an :::include needs a src attribute"@,
            IncludeError::TooDeep(src) => "include nesting exceeds the maximum depth of 16: "@ + src@,
            IncludeError::Absolute(src) => "include path must be relative, not absolute: "@ + src@,
            IncludeError::Escapes(src, jail) => "include escapes the document directory ("@ + jail@
                + "): "@ + src@,
            IncludeError::Cycle(path) => "include cycle detected at "@ + path@,
        }
    }
}

/// Check an include before its path is resolved: refused at `MAX_INCLUDE_DEPTH`
/// or deeper, then refused when the path is absolute.
pub fn check_request(src: &str, absolute: bool, depth: usize) -> (r: Result<(), IncludeError>)
    ensures
        match r {
            Ok(()) => depth < MAX_INCLUDE_DEPTH && !absolute,
            Err(IncludeError::TooDeep(s)) => depth >= MAX_INCLUDE_DEPTH && s@ == src@,
            Err(IncludeError::Absolute(s)) => depth < MAX_INCLUDE_DEPTH && absolute && s@ == src@,
            Err(_) => false,
        },
{
    if depth >= MAX_INCLUDE_DEPTH {
        return Err(IncludeError::TooDeep(src.to_owned()));
    }
    if absolute {
        return Err(IncludeError::Absolute(src.to_owned()));
    }
    Ok(())
}

/// Check a resolved include, its canonical path given as path components:
/// refused when the path does not lie inside the document directory `jail`
/// (component by component), then refused when it is already being resolved.
pub fn check_target(
    src: &str,
    canon: &Vec<String>,
    jail: &Vec<String>,
    stack: &Vec<Vec<String>>,
    canon_shown: &str,
    jail_shown: &str,
) -> (r: Result<(), IncludeError>)
    ensures
        match r {
            Ok(()) => strs_v(jail@).is_prefix_of(strs_v(canon@)) && !stack@.map_values(
                |p: Vec<String>| strs_v(p@),
            ).contains(strs_v(canon@)),
            Err(IncludeError::Escapes(s, j)) => !strs_v(jail@).is_prefix_of(strs_v(canon@)) && s@
                == src@ && j@ == jail_shown@,
            Err(IncludeError::Cycle(p)) => strs_v(jail@).is_prefix_of(strs_v(canon@))
                && stack@.map_values(|p: Vec<String>| strs_v(p@)).contains(strs_v(canon@)) && p@
                == canon_shown@,
            Err(_) => false,
        },
{
    let ghost cv = strs_v(canon@);
    let ghost jv = strs_v(jail@);
    if !comps_prefix(jail, canon) {
        return Err(IncludeError::Escapes(src.to_owned(), jail_shown.to_owned()));
    }
    let ghost sv = stack@.map_values(|p: Vec<String>| strs_v(p@));
    let mut i: usize = 0;
    while i < stack.len()
        invariant
            i <= stack@.len(),
            sv == stack@.map_values(|p: Vec<String>| strs_v(p@)),
            cv == strs_v(canon@),
            jv == strs_v(jail@),
            jv.is_prefix_of(cv),
            forall|k: int| 0 <= k < i ==> sv[k] != cv,
        decreases stack.len() - i,
    {
        if comps_eq(&stack[i], canon) {
            assert(sv[i as int] == cv);
            assert(sv.contains(cv));
            return Err(IncludeError::Cycle(canon_shown.to_owned()));
        }
        i = i + 1;
    }
    Ok(())
}

fn comps_eq(a: &Vec<String>, b: &Vec<String>) -> (r: bool)
    ensures
        r == (strs_v(a@) == strs_v(b@)),
{
    if a.len() != b.len() {
        assert(strs_v(a@).len() != strs_v(b@).len());
        return false;
    }
    let mut i: usize = 0;
    while i < a.len()
        invariant
            i <= a@.len(),
            a@.len() == b@.len(),
            forall|k: int| 0 <= k < i ==> strs_v(a@)[k] == strs_v(b@)[k],
        decreases a.len() - i,
    {
        if !str_eq(a[i].as_str(), b[i].as_str()) {
            assert(strs_v(a@)[i as int] != strs_v(b@)[i as int]);
            return false;
        }
        i = i + 1;
    }
    assert(strs_v(a@) =~= strs_v(b@));
    true
}

fn comps_prefix(p: &Vec<String>, s: &Vec<String>) -> (r: bool)
    ensures
        r == strs_v(p@).is_prefix_of(strs_v(s@)),
{
    if p.len() > s.len() {
        return false;
    }
    let mut i: usize = 0;
    while i < p.len()
        invariant
            i <= p@.len(),
            p@.len() <= s@.len(),
            forall|k: int| 0 <= k < i ==> strs_v(p@)[k] == strs_v(s@)[k],
        decreases p.len() - i,
    {
        if !str_eq(p[i].as_str(), s[i].as_str()) {
            assert(strs_v(p@)[i as int] != strs_v(s@).subrange(0, p@.len() as int)[i as int]);
            return false;
        }
        i = i + 1;
    }
    assert(strs_v(p@) =~= strs_v(s@).subrange(0, p@.len() as int));
    true
}

/// The includes of a block sequence in the order they are resolved, each as
/// its `src` attribute (`None` when it has none). An include's own children are
/// not searched; other components, block quotes, list items and footnote
/// definitions are.
pub open spec fn inc_blocks(bs: Seq<BlockV>) -> Seq<Option<Seq<char>>>
    decreases bs,
{
    if bs.len() == 0 {
        Seq::empty()
    } else {
        inc_blocks(bs.drop_last()) + inc_block(bs.last())
    }
}

pub open spec fn inc_items(items: Seq<ItemV>) -> Seq<Option<Seq<char>>>
    decreases items,
{
    if items.len() == 0 {
        Seq::empty()
    } else {
        inc_items(items.drop_last()) + inc_blocks(items.last().blocks)
    }
}

pub open spec fn inc_block(b: BlockV) -> Seq<Option<Seq<char>>>
    decreases b,
{
    match b {
        BlockV::Component { name, attrs, body } => if name == "include"@ {
            seq![first_value(attrs.pairs, "src"@)]
        } else {
            match body {
                BodyV::Children(c) => inc_blocks(c),
                BodyV::Raw(_) => Seq::empty(),
            }
        },
        BlockV::BlockQuote(c) => inc_blocks(c),
        BlockV::FootnoteDefinition { blocks, .. } => inc_blocks(blocks),
        BlockV::List { items, .. } => inc_items(items),
        _ => Seq::empty(),
    }
}

pub open spec fn srcs_v(v: Seq<Option<String>>) -> Seq<Option<Seq<char>>> {
    v.map_values(|o: Option<String>| match o {
        Some(s) => Some(s@),
        None => None,
    })
}

/// Append the includes of `blocks`, in resolution order, to `out`.
pub fn include_sources(blocks: &Vec<Block>, out: &mut Vec<Option<String>>)
    ensures
        srcs_v(final(out)@) == srcs_v(old(out)@) + inc_blocks(blocks_v(blocks@)),
    decreases blocks@,
{
    let ghost bv = blocks_v(blocks@);
    let mut i: usize = 0;
    assert(bv.take(0) =~= Seq::<BlockV>::empty());
    assert(srcs_v(old(out)@) + Seq::<Option<Seq<char>>>::empty() =~= srcs_v(old(out)@));
    while i < blocks.len()
        invariant
            i <= blocks@.len(),
            bv == blocks_v(blocks@),
            srcs_v(out@) == srcs_v(old(out)@) + inc_blocks(bv.take(i as int)),
        decreases blocks.len() - i,
    {
        proof {
            crate::ast::lemma_blocks_v(blocks@);
        }
        assert(bv.take(i + 1).drop_last() =~= bv.take(i as int));
        assert(bv[i as int] == blocks@[i as int]@);
        let ghost before = srcs_v(out@);
        match &blocks[i] {
            Block::Component(c) => {
                if str_eq(c.name.as_str(), "include") {
                    let src = match c.attrs.get("src") {
                        Some(s) => Some(s.to_owned()),
                        None => None,
                    };
                    out.push(src);
                    assert(srcs_v(out@) =~= before + inc_block(bv[i as int]));
                } else {
                    match &c.body {
                        ComponentBody::Children(k) => include_sources(k, out),
                        ComponentBody::Raw(_) => {
                            assert(before + Seq::<Option<Seq<char>>>::empty() =~= before);
                        },
                    }
                }
            },
            Block::BlockQuote(k) => include_sources(k, out),
            Block::FootnoteDefinition { blocks: k, .. } => include_sources(k, out),
            Block::List(l) => include_item_sources(&l.items, out),
            _ => {
                assert(before + Seq::<Option<Seq<char>>>::empty() =~= before);
            },
        }
        assert(srcs_v(out@) =~= srcs_v(old(out)@) + inc_blocks(bv.take(i + 1)));
        i = i + 1;
    }
    assert(bv.take(bv.len() as int) =~= bv);
}

fn include_item_sources(items: &Vec<ListItem>, out: &mut Vec<Option<String>>)
    ensures
        srcs_v(final(out)@) == srcs_v(old(out)@) + inc_items(items_v(items@)),
    decreases items@,
{
    let ghost iv = items_v(items@);
    let mut i: usize = 0;
    assert(iv.take(0) =~= Seq::<ItemV>::empty());
    assert(srcs_v(old(out)@) + Seq::<Option<Seq<char>>>::empty() =~= srcs_v(old(out)@));
    while i < items.len()
        invariant
            i <= items@.len(),
            iv == items_v(items@),
            srcs_v(out@) == srcs_v(old(out)@) + inc_items(iv.take(i as int)),
        decreases items.len() - i,
    {
        proof {
            crate::ast::lemma_items_v(items@);
        }
        assert(iv.take(i + 1).drop_last() =~= iv.take(i as int));
        include_sources(&items[i].blocks, out);
        assert(srcs_v(out@) =~= srcs_v(old(out)@) + inc_items(iv.take(i + 1)));
        i = i + 1;
    }
    assert(iv.take(iv.len() as int) =~= iv);
}

/// `bs` with each include replaced by the blocks resolved for it: the include
/// reached `j`-th in resolution order (counting from `k`) by `parts[j]`.
pub open spec fn splice_blocks(bs: Seq<BlockV>, parts: Seq<Seq<BlockV>>, k: int) -> Seq<BlockV>
    decreases bs,
{
    if bs.len() == 0 {
        Seq::empty()
    } else {
        splice_blocks(bs.drop_last(), parts, k) + splice_block(
            bs.last(),
            parts,
            k + inc_blocks(bs.drop_last()).len(),
        )
    }
}

pub open spec fn splice_items(items: Seq<ItemV>, parts: Seq<Seq<BlockV>>, k: int) -> Seq<ItemV>
    decreases items,
{
    if items.len() == 0 {
        Seq::empty()
    } else {
        splice_items(items.drop_last(), parts, k).push(
            ItemV {
                task: items.last().task,
                blocks: splice_blocks(
                    items.last().blocks,
                    parts,
                    k + inc_items(items.drop_last()).len(),
                ),
            },
        )
    }
}

pub open spec fn splice_block(b: BlockV, parts: Seq<Seq<BlockV>>, k: int) -> Seq<BlockV>
    decreases b,
{
    match b {
        BlockV::Component { name, attrs, body } => if name == "include"@ {
            parts[k]
        } else {
            match body {
                BodyV::Children(c) => seq![
                    BlockV::Component {
                        name,
                        attrs,
                        body: BodyV::Children(splice_blocks(c, parts, k)),
                    },
                ],
                BodyV::Raw(_) => seq![b],
            }
        },
        BlockV::BlockQuote(c) => seq![BlockV::BlockQuote(splice_blocks(c, parts, k))],
        BlockV::FootnoteDefinition { name, blocks } => seq![
            BlockV::FootnoteDefinition { name, blocks: splice_blocks(blocks, parts, k) },
        ],
        BlockV::List { ordered, start, tight, items } => seq![
            BlockV::List { ordered, start, tight, items: splice_items(items, parts, k) },
        ],
        _ => seq![b],
    }
}

pub open spec fn parts_v(v: Seq<Vec<Block>>) -> Seq<Seq<BlockV>> {
    v.map_values(|x: Vec<Block>| blocks_v(x@))
}

pub proof fn lemma_inc_concat(a: Seq<BlockV>, b: Seq<BlockV>)
    ensures
        inc_blocks(a + b) == inc_blocks(a) + inc_blocks(b),
    decreases b.len(),
{
    if b.len() == 0 {
        assert(a + b =~= a);
        assert(inc_blocks(a) + Seq::<Option<Seq<char>>>::empty() =~= inc_blocks(a));
    } else {
        lemma_inc_concat(a, b.drop_last());
        assert((a + b).drop_last() =~= a + b.drop_last());
        assert((a + b).last() == b.last());
        assert(inc_blocks(a + b) =~= inc_blocks(a) + inc_blocks(b));
    }
}

proof fn lemma_inc_one(b: BlockV)
    ensures
        inc_blocks(seq![b]) == inc_block(b),
{
    let s1 = seq![b];
    assert(s1.drop_last() =~= Seq::<BlockV>::empty());
    assert(s1.last() == b);
    assert(inc_blocks(s1.drop_last()) == Seq::<Option<Seq<char>>>::empty());
    assert(inc_blocks(s1) == inc_blocks(s1.drop_last()) + inc_block(s1.last()));
    assert(Seq::<Option<Seq<char>>>::empty() + inc_block(b) =~= inc_block(b));
}

/// Once every include is replaced by blocks that hold no include, no include
/// is left anywhere in the block tree.
pub proof fn law_splice_leaves_no_include(bs: Seq<BlockV>, parts: Seq<Seq<BlockV>>, k: int)
    requires
        forall|j: int| 0 <= j < parts.len() ==> #[trigger] inc_blocks(parts[j]).len() == 0,
        0 <= k,
        k + inc_blocks(bs).len() <= parts.len(),
    ensures
        inc_blocks(splice_blocks(bs, parts, k)).len() == 0,
    decreases bs,
{
    if bs.len() > 0 {
        lemma_inc_concat(bs.drop_last(), seq![bs.last()]);
        assert(bs.drop_last() + seq![bs.last()] =~= bs);
        lemma_inc_one(bs.last());
        law_splice_leaves_no_include(bs.drop_last(), parts, k);
        lemma_splice_block_no_include(bs.last(), parts, k + inc_blocks(bs.drop_last()).len());
        lemma_inc_concat(splice_blocks(bs.drop_last(), parts, k), splice_block(bs.last(), parts, k + inc_blocks(bs.drop_last()).len()));
    }
}

proof fn lemma_splice_items_no_include(items: Seq<ItemV>, parts: Seq<Seq<BlockV>>, k: int)
    requires
        forall|j: int| 0 <= j < parts.len() ==> #[trigger] inc_blocks(parts[j]).len() == 0,
        0 <= k,
        k + inc_items(items).len() <= parts.len(),
    ensures
        inc_items(splice_items(items, parts, k)).len() == 0,
    decreases items,
{
    if items.len() > 0 {
        lemma_splice_items_no_include(items.drop_last(), parts, k);
        law_splice_leaves_no_include(items.last().blocks, parts, k + inc_items(items.drop_last()).len());
        let r = splice_items(items, parts, k);
        assert(r.drop_last() =~= splice_items(items.drop_last(), parts, k));
    }
}

proof fn lemma_splice_block_no_include(b: BlockV, parts: Seq<Seq<BlockV>>, k: int)
    requires
        forall|j: int| 0 <= j < parts.len() ==> #[trigger] inc_blocks(parts[j]).len() == 0,
        0 <= k,
        k + inc_block(b).len() <= parts.len(),
    ensures
        inc_blocks(splice_block(b, parts, k)).len() == 0,
    decreases b,
{
    match b {
        BlockV::Component { name, attrs, body } => {
            if name == "include"@ {
            } else {
                match body {
                    BodyV::Children(c) => {
                        law_splice_leaves_no_include(c, parts, k);
                        lemma_inc_one(splice_block(b, parts, k)[0]);
                        assert(seq![splice_block(b, parts, k)[0]] =~= splice_block(b, parts, k));
                    },
                    BodyV::Raw(_) => {
                        lemma_inc_one(b);
                    },
                }
            }
        },
        BlockV::BlockQuote(c) => {
            law_splice_leaves_no_include(c, parts, k);
            lemma_inc_one(BlockV::BlockQuote(splice_blocks(c, parts, k)));
        },
        BlockV::FootnoteDefinition { name, blocks } => {
            law_splice_leaves_no_include(blocks, parts, k);
            lemma_inc_one(BlockV::FootnoteDefinition { name, blocks: splice_blocks(blocks, parts, k) });
        },
        BlockV::List { ordered, start, tight, items } => {
            lemma_splice_items_no_include(items, parts, k);
            lemma_inc_one(BlockV::List { ordered, start, tight, items: splice_items(items, parts, k) });
        },
        _ => {
            lemma_inc_one(b);
        },
    }
}

/// Replace each include of `blocks`, in resolution order, by the blocks
/// resolved for it: `parts` holds one entry per include.
pub fn splice_includes(blocks: Vec<Block>, parts: Vec<Vec<Block>>) -> (r: Vec<Block>)
    requires
        parts@.len() == inc_blocks(blocks_v(blocks@)).len(),
    ensures
        blocks_v(r@) == splice_blocks(blocks_v(blocks@), parts_v(parts@), 0),
{
    let ghost pv = parts_v(parts@);
    let mut parts = parts;
    let (r, _) = splice_in(blocks, &mut parts, 0, Ghost(pv));
    r
}

fn splice_in(input: Vec<Block>, parts: &mut Vec<Vec<Block>>, k: usize, Ghost(pv): Ghost<Seq<Seq<BlockV>>>) -> (r: (Vec<Block>, usize))
    requires
        k + inc_blocks(blocks_v(input@)).len() <= old(parts)@.len(),
        pv.len() == old(parts)@.len(),
        forall|j: int| k <= j < pv.len() ==> #[trigger] pv[j] == blocks_v(old(parts)@[j]@),
    ensures
        blocks_v(r.0@) == splice_blocks(blocks_v(input@), pv, k as int),
        r.1 == k + inc_blocks(blocks_v(input@)).len(),
        final(parts)@.len() == old(parts)@.len(),
        forall|j: int| r.1 <= j < pv.len() ==> #[trigger] pv[j] == blocks_v(final(parts)@[j]@),
    decreases input@,
{
    let ghost orig = input@;
    let ghost ov = blocks_v(orig);
    let mut v = input;
    let mut out: Vec<Block> = Vec::new();
    let mut i: usize = 0;
    let mut at = k;
    assert(ov.take(0) =~= Seq::<BlockV>::empty());
    assert(blocks_v(out@) =~= Seq::<BlockV>::empty());
    while i < v.len()
        invariant
            v@.len() == orig.len(),
            orig == input@,
            i <= orig.len(),
            ov == blocks_v(orig),
            forall|j: int| i <= j < orig.len() ==> v@[j] == orig[j],
            at == k + inc_blocks(ov.take(i as int)).len(),
            k + inc_blocks(ov).len() <= parts@.len(),
            parts@.len() == pv.len(),
            forall|j: int| at <= j < pv.len() ==> #[trigger] pv[j] == blocks_v(parts@[j]@),
            blocks_v(out@) == splice_blocks(ov.take(i as int), pv, k as int),
        decreases orig.len() - i,
    {
        proof {
            crate::ast::lemma_blocks_v(orig);
            lemma_inc_concat(ov.take(i + 1), ov.skip(i + 1));
            assert(ov.take(i + 1) + ov.skip(i + 1) =~= ov);
        }
        assert(ov.take(i + 1).drop_last() =~= ov.take(i as int));
        let mut x = Block::ThematicBreak;
        std::mem::swap(&mut x, &mut v[i]);
        assert(x == orig[i as int]);
        assert(ov[i as int] == x@);
        let ghost out0 = out@;
        let (r, next) = splice_one(x, parts, at, Ghost(pv));
        let mut r = r;
        let ghost rv = r@;
        out.append(&mut r);
        proof {
            crate::ast::lemma_blocks_v_concat(out0, rv);
        }
        at = next;
        assert(blocks_v(out@) =~= splice_blocks(ov.take(i + 1), pv, k as int));
        i = i + 1;
    }
    assert(ov.take(ov.len() as int) =~= ov);
    (out, at)
}

fn splice_items_in(input: Vec<ListItem>, parts: &mut Vec<Vec<Block>>, k: usize, Ghost(pv): Ghost<Seq<Seq<BlockV>>>) -> (r: (Vec<ListItem>, usize))
    requires
        k + inc_items(items_v(input@)).len() <= old(parts)@.len(),
        pv.len() == old(parts)@.len(),
        forall|j: int| k <= j < pv.len() ==> #[trigger] pv[j] == blocks_v(old(parts)@[j]@),
    ensures
        items_v(r.0@) == splice_items(items_v(input@), pv, k as int),
        r.1 == k + inc_items(items_v(input@)).len(),
        final(parts)@.len() == old(parts)@.len(),
        forall|j: int| r.1 <= j < pv.len() ==> #[trigger] pv[j] == blocks_v(final(parts)@[j]@),
    decreases input@,
{
    let ghost orig = input@;
    let ghost ov = items_v(orig);
    let mut v = input;
    let mut out: Vec<ListItem> = Vec::new();
    let mut i: usize = 0;
    let mut at = k;
    assert(ov.take(0) =~= Seq::<ItemV>::empty());
    assert(items_v(out@) =~= Seq::<ItemV>::empty());
    while i < v.len()
        invariant
            v@.len() == orig.len(),
            orig == input@,
            i <= orig.len(),
            ov == items_v(orig),
            forall|j: int| i <= j < orig.len() ==> v@[j] == orig[j],
            at == k + inc_items(ov.take(i as int)).len(),
            k + inc_items(ov).len() <= parts@.len(),
            parts@.len() == pv.len(),
            forall|j: int| at <= j < pv.len() ==> #[trigger] pv[j] == blocks_v(parts@[j]@),
            items_v(out@) == splice_items(ov.take(i as int), pv, k as int),
        decreases orig.len() - i,
    {
        proof {
            crate::ast::lemma_items_v(orig);
            lemma_inc_items_prefix(ov, i + 1);
        }
        assert(ov.take(i + 1).drop_last() =~= ov.take(i as int));
        let mut x = ListItem { task: None, blocks: Vec::new() };
        std::mem::swap(&mut x, &mut v[i]);
        assert(x == orig[i as int]);
        let ListItem { task, blocks } = x;
        let ghost acc = items_v(out@);
        let (nb, next) = splice_in(blocks, parts, at, Ghost(pv));
        out.push(ListItem { task, blocks: nb });
        assert(items_v(out@) =~= acc.push(ItemV { task, blocks: blocks_v(nb@) }));
        at = next;
        assert(items_v(out@) =~= splice_items(ov.take(i + 1), pv, k as int));
        i = i + 1;
    }
    assert(ov.take(ov.len() as int) =~= ov);
    (out, at)
}

proof fn lemma_inc_items_prefix(items: Seq<ItemV>, n: int)
    requires
        0 <= n <= items.len(),
    ensures
        inc_items(items.take(n)).len() <= inc_items(items).len(),
    decreases items.len(),
{
    if n < items.len() {
        lemma_inc_items_prefix(items.drop_last(), n);
        assert(items.drop_last().take(n) =~= items.take(n));
    } else {
        assert(items.take(n) =~= items);
    }
}

fn splice_one(b: Block, parts: &mut Vec<Vec<Block>>, at: usize, Ghost(pv): Ghost<Seq<Seq<BlockV>>>) -> (r: (Vec<Block>, usize))
    requires
        at + inc_block(b@).len() <= old(parts)@.len(),
        pv.len() == old(parts)@.len(),
        forall|j: int| at <= j < pv.len() ==> #[trigger] pv[j] == blocks_v(old(parts)@[j]@),
    ensures
        blocks_v(r.0@) == splice_block(b@, pv, at as int),
        r.1 == at + inc_block(b@).len(),
        final(parts)@.len() == old(parts)@.len(),
        forall|j: int| r.1 <= j < pv.len() ==> #[trigger] pv[j] == blocks_v(final(parts)@[j]@),
    decreases b,
{
    let ghost bv = b@;
    match b {
        Block::Component(c) => {
            if str_eq(c.name.as_str(), "include") {
                let plen = parts.len();
                assert(at < plen);
                let mut part: Vec<Block> = Vec::new();
                std::mem::swap(&mut part, &mut parts[at]);
                assert(blocks_v(part@) == pv[at as int]);
                (part, at + 1)
            } else {
                let Component { name, attrs, body } = c;
                match body {
                    ComponentBody::Children(k) => {
                        let (nk, next) = splice_in(k, parts, at, Ghost(pv));
                        let mut out: Vec<Block> = Vec::new();
                        out.push(Block::Component(Component { name, attrs, body: ComponentBody::Children(nk) }));
                        assert(blocks_v(out@) =~= seq![out@[0]@]);
                        (out, next)
                    },
                    ComponentBody::Raw(r) => {
                        let mut out: Vec<Block> = Vec::new();
                        out.push(Block::Component(Component { name, attrs, body: ComponentBody::Raw(r) }));
                        assert(blocks_v(out@) =~= seq![out@[0]@]);
                        (out, at)
                    },
                }
            }
        },
        Block::BlockQuote(k) => {
            let (nk, next) = splice_in(k, parts, at, Ghost(pv));
            let mut out: Vec<Block> = Vec::new();
            out.push(Block::BlockQuote(nk));
            assert(blocks_v(out@) =~= seq![out@[0]@]);
            (out, next)
        },
        Block::FootnoteDefinition { name, blocks: k } => {
            let (nk, next) = splice_in(k, parts, at, Ghost(pv));
            let mut out: Vec<Block> = Vec::new();
            out.push(Block::FootnoteDefinition { name, blocks: nk });
            assert(blocks_v(out@) =~= seq![out@[0]@]);
            (out, next)
        },
        Block::List(l) => {
            let List { ordered, start, tight, items } = l;
            let (ni, next) = splice_items_in(items, parts, at, Ghost(pv));
            let mut out: Vec<Block> = Vec::new();
            out.push(Block::List(List { ordered, start, tight, items: ni }));
            assert(blocks_v(out@) =~= seq![out@[0]@]);
            (out, next)
        },
        other => {
            let mut out: Vec<Block> = Vec::new();
            out.push(other);
            assert(blocks_v(out@) =~= seq![out@[0]@]);
            (out, at)
        },
    }
}

} // verus!
