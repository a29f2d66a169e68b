//! The AI edit-permission convention: a document can carry an `:::ai-policy`
//! block declaring which of its sections an AI agent may edit. This module reads
//! that block into a permission map and a `can_edit` guard; the host that reads
//! the map is what refuses writes to protected sections.
//!
//! Policy keys are heading slugs, the anchors the renderer gives headings: a key
//! is slugified when it is read, so a policy may name a section by its heading
//! text or by its slug.
use vstd::prelude::*;
use crate::ast::{first_value, AttrsV, Block, BlockV, BodyV, Component, ComponentBody, Document, Inline, InlineV, ItemV, ListItem, blocks_v, inline_v, inlines_v, items_v};
use crate::html::lower_all;
use crate::prepass::slugify_v;
use crate::render::body_v;
use crate::text::{
    ascii_lower, chars_of, line_bounds, lines, push_char, str_eq, str_less, str_lt, string_of, trim, trim_bounds,
    lemma_str_lt_total, lemma_str_lt_transitive,
};

verus! {

broadcast use crate::ast::group_views;

/// What an AI agent may do to a section.
#[derive(Debug, Clone, Copy, PartialEq, Eq)]
pub enum Permission {
    /// The section must not be changed.
    ReadOnly,
    /// The section may be edited freely.
    Editable,
    /// Content may be added to the section but existing content not changed.
    AppendOnly,
}

/// A permission word normalised: trimmed, ASCII lower-cased, `_` read as `-`.
pub open spec fn norm_word(w: Seq<char>) -> Seq<char> {
    lower_all(trim(w)).map_values(|c: char| if c == '_' { '-' } else { c })
}

/// The permission a word names: `editable`, `edit`, `rw` and `write` make a
/// section editable, `append-only` and `append` make it append-only, and any
/// other word, a typo included, makes it read-only.
pub open spec fn perm_word(w: Seq<char>) -> Permission {
    let n = norm_word(w);
    if n == "editable"@ || n == "edit"@ || n == "rw"@ || n == "write"@ {
        Permission::Editable
    } else if n == "append-only"@ || n == "append"@ {
        Permission::AppendOnly
    } else {
        Permission::ReadOnly
    }
}

pub open spec fn writable(p: Permission) -> bool {
    p == Permission::Editable || p == Permission::AppendOnly
}

impl Permission {
    /// Parse a permission word. Unrecognised words are read-only, the safe
    /// default, so a typo locks rather than unlocks a section.
    pub fn parse(word: &str) -> (p: Permission)
        ensures
            p == perm_word(word@),
            writable(p) ==> (norm_word(word@) == "editable"@ || norm_word(word@) == "edit"@
                || norm_word(word@) == "rw"@ || norm_word(word@) == "write"@ || norm_word(word@)
                == "append-only"@ || norm_word(word@) == "append"@),
    {
        let c = chars_of(word);
        let (a, b) = trim_bounds(&c, 0, c.len());
        assert(c@.subrange(0, c@.len() as int) =~= c@);
        let mut n = String::new();
        let mut i = a;
        while i < b
            invariant
                a <= i <= b <= c@.len(),
                n@ == lower_all(c@.subrange(a as int, i as int)).map_values(
                    |ch: char| if ch == '_' { '-' } else { ch },
                ),
            decreases b - i,
        {
            let ch = ascii_lower(c[i]);
            if ch == '_' {
                push_char(&mut n, '-');
            } else {
                push_char(&mut n, ch);
            }
            i = i + 1;
            assert(n@ =~= lower_all(c@.subrange(a as int, i as int)).map_values(
                |ch: char| if ch == '_' { '-' } else { ch },
            ));
        }
        let s = n.as_str();
        if str_eq(s, "editable") || str_eq(s, "edit") || str_eq(s, "rw") || str_eq(s, "write") {
            Permission::Editable
        } else if str_eq(s, "append-only") || str_eq(s, "append") {
            Permission::AppendOnly
        } else {
            Permission::ReadOnly
        }
    }

    /// Whether an agent may write to a section with this permission at all
    /// (editable or append-only).
    pub fn is_writable(self) -> (r: bool)
        ensures
            r == writable(self),
    {
        match self {
            Permission::Editable => true,
            Permission::AppendOnly => true,
            Permission::ReadOnly => false,
        }
    }
}

/// A parsed edit policy: the models it addresses, the permission of any
/// section it does not name, and the permission of each section it names,
/// keyed by slug. `sections` holds one entry per slug, in increasing order of
/// slug (the order of `String`), as an ordered map would.
#[derive(Debug, PartialEq, Eq)]
pub struct AiPolicy {
    /// Which models the policy addresses, verbatim from the `model` attribute.
    pub model: Option<String>,
    /// The permission for any section the policy does not name.
    pub default: Permission,
    /// Section slug and permission, one entry per slug, ordered by slug.
    pub sections: Vec<(String, Permission)>,
}

pub struct PolicyV {
    pub model: Option<Seq<char>>,
    pub default: Permission,
    pub sections: Seq<(Seq<char>, Permission)>,
}

pub open spec fn secs_v(v: Seq<(String, Permission)>) -> Seq<(Seq<char>, Permission)> {
    v.map_values(|p: (String, Permission)| (p.0@, p.1))
}

impl View for AiPolicy {
    type V = PolicyV;

    open spec fn view(&self) -> PolicyV {
        PolicyV {
            model: match self.model {
                Some(m) => Some(m@),
                None => None,
            },
            default: self.default,
            sections: secs_v(self.sections@),
        }
    }
}

/// The permission recorded for `slug`.
pub open spec fn sec_get(secs: Seq<(Seq<char>, Permission)>, slug: Seq<char>) -> Option<Permission>
    decreases secs.len(),
{
    if secs.len() == 0 {
        None
    } else if secs[0].0 == slug {
        Some(secs[0].1)
    } else {
        sec_get(secs.drop_first(), slug)
    }
}

/// The slugs in strictly increasing order, as a `BTreeMap` keeps its keys; so
/// no slug occurs twice.
pub open spec fn sorted_keys(secs: Seq<(Seq<char>, Permission)>) -> bool {
    forall|i: int, j: int| 0 <= i < j < secs.len() ==> str_lt(#[trigger] secs[i].0, #[trigger] secs[j].0)
}

/// `secs` with `slug` set to `p`: the entry replaced where there is one,
/// inserted before the first greater slug where there is none.
pub open spec fn sec_set(secs: Seq<(Seq<char>, Permission)>, slug: Seq<char>, p: Permission) -> Seq<
    (Seq<char>, Permission),
>
    decreases secs.len(),
{
    if secs.len() == 0 {
        seq![(slug, p)]
    } else if secs[0].0 == slug {
        secs.update(0, (slug, p))
    } else if str_lt(slug, secs[0].0) {
        seq![(slug, p)] + secs
    } else {
        seq![secs[0]] + sec_set(secs.drop_first(), slug, p)
    }
}

/// The permission governing the section `slug`: the one the policy names for
/// it, or the policy's default.
pub open spec fn permission_v(p: PolicyV, slug: Seq<char>) -> Permission {
    match sec_get(p.sections, slug) {
        Some(q) => q,
        None => p.default,
    }
}

impl AiPolicy {
    /// The permission governing the section with anchor `slug`.
    pub fn permission(&self, slug: &str) -> (r: Permission)
        ensures
            r == permission_v(self@, slug@),
    {
        let ghost sv = secs_v(self.sections@);
        let mut i: usize = 0;
        assert(sv.skip(0) =~= sv);
        while i < self.sections.len()
            invariant
                i <= self.sections@.len(),
                sv == secs_v(self.sections@),
                sec_get(sv, slug@) == sec_get(sv.skip(i as int), slug@),
            decreases self.sections.len() - i,
        {
            assert(sv.skip(i as int).drop_first() =~= sv.skip(i + 1));
            if str_eq(self.sections[i].0.as_str(), slug) {
                return self.sections[i].1;
            }
            i = i + 1;
        }
        self.default
    }

    /// Whether an agent may write to the section with anchor `slug`.
    pub fn can_edit(&self, slug: &str) -> (r: bool)
        ensures
            r == writable(permission_v(self@, slug@)),
    {
        self.permission(slug).is_writable()
    }
}

/// Entries whose slug comes before `slug` stay in front, as they are.
proof fn lemma_sec_set_skip(secs: Seq<(Seq<char>, Permission)>, slug: Seq<char>, p: Permission, i: int)
    requires
        0 <= i <= secs.len(),
        forall|k: int| 0 <= k < i ==> #[trigger] secs[k].0 != slug && !str_lt(slug, secs[k].0),
    ensures
        sec_set(secs, slug, p) == secs.take(i) + sec_set(secs.skip(i), slug, p),
    decreases i,
{
    if i > 0 {
        let d = secs.drop_first();
        assert forall|k: int| 0 <= k < i - 1 implies #[trigger] d[k].0 != slug && !str_lt(slug, d[k].0) by {
            assert(d[k] == secs[k + 1]);
        }
        assert(secs[0].0 != slug && !str_lt(slug, secs[0].0));
        lemma_sec_set_skip(d, slug, p, i - 1);
        assert(d.skip(i - 1) =~= secs.skip(i));
        assert(seq![secs[0]] + (d.take(i - 1) + sec_set(secs.skip(i), slug, p)) =~= secs.take(i) + sec_set(
            secs.skip(i),
            slug,
            p,
        ));
    } else {
        assert(secs.skip(0) =~= secs);
        assert(secs.take(0) + sec_set(secs, slug, p) =~= sec_set(secs, slug, p));
    }
}

/// Setting a section keeps the slugs in increasing order, and a lookup then
/// gives what was set for that slug and what was there before for every other
/// slug.
pub proof fn law_section_set(secs: Seq<(Seq<char>, Permission)>, slug: Seq<char>, p: Permission, other: Seq<char>)
    requires
        sorted_keys(secs),
    ensures
        sorted_keys(sec_set(secs, slug, p)),
        sec_get(sec_set(secs, slug, p), slug) == Some(p),
        other != slug ==> sec_get(sec_set(secs, slug, p), other) == sec_get(secs, other),
    decreases secs.len(),
{
    if secs.len() > 0 {
        let d = secs.drop_first();
        assert forall|i: int, j: int| 0 <= i < j < d.len() implies str_lt(#[trigger] d[i].0, #[trigger] d[j].0) by {
            assert(d[i] == secs[i + 1] && d[j] == secs[j + 1]);
        }
        law_section_set(d, slug, p, other);
        if secs[0].0 == slug {
            let r = secs.update(0, (slug, p));
            assert(r.drop_first() =~= d);
            assert forall|i: int, j: int| 0 <= i < j < r.len() implies str_lt(#[trigger] r[i].0, #[trigger] r[j].0) by {
                assert(r[i].0 == secs[i].0 && r[j].0 == secs[j].0);
            }
            if other != slug {
                assert(r[0].0 == slug);
                assert(sec_get(r, other) == sec_get(r.drop_first(), other));
                assert(sec_get(secs, other) == sec_get(d, other));
            }
        } else if str_lt(slug, secs[0].0) {
            let r = seq![(slug, p)] + secs;
            assert(r.drop_first() =~= secs);
            assert forall|i: int, j: int| 0 <= i < j < r.len() implies str_lt(#[trigger] r[i].0, #[trigger] r[j].0) by {
                assert(r[j] == secs[j - 1]);
                if i == 0 {
                    if j > 1 {
                        lemma_str_lt_transitive(slug, secs[0].0, secs[j - 1].0);
                    }
                } else {
                    assert(r[i] == secs[i - 1]);
                }
            }
            assert(r[0].0 == slug);
            if other != slug {
                assert(sec_get(r, other) == sec_get(r.drop_first(), other));
            }
        } else {
            lemma_str_lt_total(slug, secs[0].0);
            let s = sec_set(d, slug, p);
            let r = seq![secs[0]] + s;
            assert(r.drop_first() =~= s);
            assert(r[0] == secs[0]);
            assert(sec_get(r, slug) == sec_get(r.drop_first(), slug));
            if other != slug && secs[0].0 != other {
                assert(sec_get(r, other) == sec_get(r.drop_first(), other));
                assert(sec_get(secs, other) == sec_get(d, other));
            }
            lemma_sec_set_keys(d, slug, p);
            assert forall|i: int, j: int| 0 <= i < j < r.len() implies str_lt(#[trigger] r[i].0, #[trigger] r[j].0) by {
                assert(r[j] == s[j - 1]);
                if i == 0 {
                    let m = s[j - 1].0;
                    if m != slug {
                        let k = choose|k: int| 0 <= k < d.len() && d[k].0 == m;
                        assert(d[k] == secs[k + 1]);
                    }
                } else {
                    assert(r[i] == s[i - 1]);
                }
            }
        }
    } else {
        let r = sec_set(secs, slug, p);
        assert(r.drop_first() =~= Seq::<(Seq<char>, Permission)>::empty());
        assert(sec_get(r, other) == sec_get(r.drop_first(), other) || r[0].0 == other);
    }
}

/// The slugs of `sec_set(secs, slug, p)`: `slug`, and those of `secs`.
pub proof fn lemma_sec_set_keys(secs: Seq<(Seq<char>, Permission)>, slug: Seq<char>, p: Permission)
    ensures
        forall|j: int| 0 <= j < sec_set(secs, slug, p).len() ==> (#[trigger] sec_set(secs, slug, p)[j]).0
            == slug || exists|k: int| 0 <= k < secs.len() && secs[k].0 == sec_set(secs, slug, p)[j].0,
    decreases secs.len(),
{
    let r = sec_set(secs, slug, p);
    if secs.len() > 0 && secs[0].0 != slug && !str_lt(slug, secs[0].0) {
        let d = secs.drop_first();
        lemma_sec_set_keys(d, slug, p);
        assert forall|j: int| 0 <= j < r.len() implies (#[trigger] r[j]).0 == slug || exists|k: int|
            0 <= k < secs.len() && secs[k].0 == r[j].0 by {
            if j == 0 {
                assert(secs[0].0 == r[0].0);
            } else {
                assert(r[j] == sec_set(d, slug, p)[j - 1]);
                if r[j].0 != slug {
                    let k = choose|k: int| 0 <= k < d.len() && d[k].0 == r[j].0;
                    assert(secs[k + 1] == d[k]);
                }
            }
        }
    } else if secs.len() > 0 && secs[0].0 != slug {
        assert forall|j: int| 0 <= j < r.len() implies (#[trigger] r[j]).0 == slug || exists|k: int|
            0 <= k < secs.len() && secs[k].0 == r[j].0 by {
            if j > 0 {
                assert(secs[j - 1].0 == r[j].0);
            }
        }
    } else if secs.len() > 0 {
        assert forall|j: int| 0 <= j < r.len() implies (#[trigger] r[j]).0 == slug || exists|k: int|
            0 <= k < secs.len() && secs[k].0 == r[j].0 by {
            if j > 0 {
                assert(secs[j].0 == r[j].0);
            }
        }
    }
}

/// Set `slug` to `p` in the section list.
fn set_section(secs: &mut Vec<(String, Permission)>, slug: String, p: Permission)
    ensures
        secs_v(final(secs)@) == sec_set(secs_v(old(secs)@), slug@, p),
{
    let ghost sv = secs_v(secs@);
    let mut i: usize = 0;
    while i < secs.len()
        invariant
            i <= secs@.len(),
            sv == secs_v(secs@),
            sv == secs_v(old(secs)@),
            forall|k: int| 0 <= k < i ==> #[trigger] sv[k].0 != slug@ && !str_lt(slug@, sv[k].0),
        decreases secs.len() - i,
    {
        if str_eq(secs[i].0.as_str(), slug.as_str()) {
            proof {
                lemma_sec_set_skip(sv, slug@, p, i as int);
                assert(sv.take(i as int) + sv.skip(i as int).update(0, (slug@, p)) =~= sv.update(
                    i as int,
                    (slug@, p),
                ));
            }
            secs.set(i, (slug, p));
            assert(secs_v(secs@) =~= sv.update(i as int, (slug@, p)));
            return;
        }
        if str_less(slug.as_str(), secs[i].0.as_str()) {
            proof {
                lemma_sec_set_skip(sv, slug@, p, i as int);
                assert(sv.take(i as int) + (seq![(slug@, p)] + sv.skip(i as int)) =~= sv.insert(
                    i as int,
                    (slug@, p),
                ));
            }
            secs.insert(i, (slug, p));
            assert(secs_v(secs@) =~= sv.insert(i as int, (slug@, p)));
            return;
        }
        i = i + 1;
    }
    proof {
        lemma_sec_set_skip(sv, slug@, p, i as int);
        assert(sv.skip(i as int) =~= Seq::<(Seq<char>, Permission)>::empty());
        assert(sv.take(i as int) + seq![(slug@, p)] =~= sv.push((slug@, p)));
    }
    secs.push((slug, p));
    assert(secs_v(secs@) =~= sv.push((slug@, p)));
}

/// The plain text of a policy paragraph: text and code, the text of emphasis,
/// and a line break for each break.
pub open spec fn ptext_inlines(s: Seq<InlineV>) -> Seq<char>
    decreases s,
{
    if s.len() == 0 {
        Seq::empty()
    } else {
        ptext_inlines(s.drop_last()) + ptext_inline(s.last())
    }
}

pub open spec fn ptext_inline(i: InlineV) -> Seq<char>
    decreases i,
{
    match i {
        InlineV::Text(v) => v,
        InlineV::Code(v) => v,
        InlineV::Emphasis(c) => ptext_inlines(c),
        InlineV::Strong(c) => ptext_inlines(c),
        InlineV::SoftBreak => seq!['\n'],
        InlineV::HardBreak => seq!['\n'],
        _ => Seq::empty(),
    }
}

fn push_ptext(out: &mut String, inlines: &Vec<Inline>)
    ensures
        final(out)@ == old(out)@ + ptext_inlines(inlines_v(inlines@)),
    decreases inlines@,
{
    let ghost iv = inlines_v(inlines@);
    let mut i: usize = 0;
    assert(iv.take(0) =~= Seq::<InlineV>::empty());
    assert(old(out)@ + Seq::<char>::empty() =~= old(out)@);
    while i < inlines.len()
        invariant
            i <= inlines@.len(),
            iv == inlines_v(inlines@),
            out@ == old(out)@ + ptext_inlines(iv.take(i as int)),
        decreases inlines.len() - i,
    {
        let ghost before = out@;
        assert(iv.take(i + 1).drop_last() =~= iv.take(i as int));
        proof {
            crate::ast::lemma_inlines_v(inlines@);
        }
        assert(iv[i as int] == inline_v(inlines@[i as int]));
        match &inlines[i] {
            Inline::Text(v) => out.append(v.as_str()),
            Inline::Code(v) => out.append(v.as_str()),
            Inline::Emphasis(c) => push_ptext(out, c),
            Inline::Strong(c) => push_ptext(out, c),
            Inline::SoftBreak => push_char(out, '\n'),
            Inline::HardBreak => push_char(out, '\n'),
            _ => {},
        }
        assert(out@ =~= before + ptext_inline(iv[i as int]));
        assert(out@ =~= old(out)@ + ptext_inlines(iv.take(i + 1)));
        i = i + 1;
    }
    assert(iv.take(iv.len() as int) =~= iv);
}

/// The index of the first `:` in `s` at or after `i`, or -1.
pub open spec fn colon_index(s: Seq<char>, i: int) -> int
    decreases s.len() - i,
{
    if i < 0 || i >= s.len() {
        -1
    } else if s[i] == ':' {
        i
    } else {
        colon_index(s, i + 1)
    }
}

/// One line of a policy, `section: permission`: the section's slug set to the
/// permission. A line without `:` sets nothing.
pub open spec fn entry_line(l: Seq<char>, acc: Seq<(Seq<char>, Permission)>) -> Seq<(Seq<char>, Permission)> {
    let j = colon_index(l, 0);
    if j < 0 {
        acc
    } else {
        let slug = slugify_v(trim(l.take(j)));
        if slug.len() > 0 {
            sec_set(acc, slug, perm_word(l.skip(j + 1)))
        } else {
            acc
        }
    }
}

pub open spec fn entries_lines(ls: Seq<Seq<char>>, acc: Seq<(Seq<char>, Permission)>) -> Seq<(Seq<char>, Permission)>
    decreases ls.len(),
{
    if ls.len() == 0 {
        acc
    } else {
        entry_line(ls.last(), entries_lines(ls.drop_last(), acc))
    }
}

/// The entries of a policy body: the lines of its paragraphs, in lists at any depth.
pub open spec fn entries_blocks(bs: Seq<BlockV>, acc: Seq<(Seq<char>, Permission)>) -> Seq<(Seq<char>, Permission)>
    decreases bs,
{
    if bs.len() == 0 {
        acc
    } else {
        entries_block(bs.last(), entries_blocks(bs.drop_last(), acc))
    }
}

pub open spec fn entries_items(items: Seq<ItemV>, acc: Seq<(Seq<char>, Permission)>) -> Seq<(Seq<char>, Permission)>
    decreases items,
{
    if items.len() == 0 {
        acc
    } else {
        entries_blocks(items.last().blocks, entries_items(items.drop_last(), acc))
    }
}

pub open spec fn entries_block(b: BlockV, acc: Seq<(Seq<char>, Permission)>) -> Seq<(Seq<char>, Permission)>
    decreases b,
{
    match b {
        BlockV::List { items, .. } => entries_items(items, acc),
        BlockV::Paragraph(c) => entries_lines(lines(ptext_inlines(c)), acc),
        _ => acc,
    }
}

proof fn lemma_colon_step(s: Seq<char>, i: int)
    requires
        0 <= i < s.len(),
        s[i] != ':',
    ensures
        colon_index(s, i) == colon_index(s, i + 1),
{
}

fn collect_paragraph(inlines: &Vec<Inline>, into: &mut Vec<(String, Permission)>)
    ensures
        secs_v(final(into)@) == entries_lines(lines(ptext_inlines(inlines_v(inlines@))), secs_v(old(into)@)),
{
    let mut text = String::new();
    push_ptext(&mut text, inlines);
    assert(text@ =~= ptext_inlines(inlines_v(inlines@)));
    let c = chars_of(text.as_str());
    let lb = line_bounds(&c);
    let ghost ls = lines(c@);
    let mut li: usize = 0;
    assert(ls.take(0) =~= Seq::<Seq<char>>::empty());
    while li < lb.len()
        invariant
            li <= lb@.len(),
            ls == lines(c@),
            c@ == ptext_inlines(inlines_v(inlines@)),
            lb@.len() == ls.len(),
            forall|i: int|
                0 <= i < lb@.len() ==> (#[trigger] lb@[i]).0 <= lb@[i].1 <= c@.len() && c@.subrange(
                    lb@[i].0 as int,
                    lb@[i].1 as int,
                ) == ls[i],
            secs_v(into@) == entries_lines(ls.take(li as int), secs_v(old(into)@)),
        decreases lb.len() - li,
    {
        assert(ls.take(li + 1).drop_last() =~= ls.take(li as int));
        let (s0, e0) = lb[li];
        let ghost line = ls[li as int];
        let mut j = s0;
        while j < e0 && c[j] != ':'
            invariant
                s0 <= j <= e0 <= c@.len(),
                line == c@.subrange(s0 as int, e0 as int),
                colon_index(line, 0) == colon_index(line, j - s0),
            decreases e0 - j,
        {
            assert(line[j - s0] == c@[j as int]);
            proof {
                lemma_colon_step(line, j - s0);
            }
            j = j + 1;
        }
        if j < e0 {
            assert(line[j - s0] == c@[j as int]);
            assert(colon_index(line, 0) == j - s0);
            let (a, b) = trim_bounds(&c, s0, j);
            assert(c@.subrange(s0 as int, j as int) =~= line.take(j - s0));
            let section = string_of(&c, a, b);
            let slug = crate::prepass::slugify(section.as_str());
            if chars_of(slug.as_str()).len() > 0 {
                let word = string_of(&c, j + 1, e0);
                assert(word@ =~= line.skip(j - s0 + 1));
                let p = Permission::parse(word.as_str());
                set_section(into, slug, p);
            }
        } else {
            assert(colon_index(line, j - s0) == -1);
        }
        li = li + 1;
    }
    assert(ls.take(ls.len() as int) =~= ls);
}

/// Read `section: permission` entries from a policy body.
fn collect_entries(blocks: &Vec<Block>, into: &mut Vec<(String, Permission)>)
    ensures
        secs_v(final(into)@) == entries_blocks(blocks_v(blocks@), secs_v(old(into)@)),
    decreases blocks@,
{
    let ghost bv = blocks_v(blocks@);
    let mut i: usize = 0;
    assert(bv.take(0) =~= Seq::<BlockV>::empty());
    while i < blocks.len()
        invariant
            i <= blocks@.len(),
            bv == blocks_v(blocks@),
            secs_v(into@) == entries_blocks(bv.take(i as int), secs_v(old(into)@)),
        decreases blocks.len() - i,
    {
        assert(bv.take(i + 1).drop_last() =~= bv.take(i as int));
        proof {
            crate::ast::lemma_blocks_v(blocks@);
        }
        assert(bv[i as int] == blocks@[i as int]@);
        let ghost before = secs_v(into@);
        match &blocks[i] {
            Block::List(l) => collect_entry_items(&l.items, into),
            Block::Paragraph(c) => collect_paragraph(c, into),
            _ => {},
        }
        assert(secs_v(into@) == entries_block(bv[i as int], before));
        assert(entries_blocks(bv.take(i + 1), secs_v(old(into)@)) == entries_block(
            bv[i as int],
            entries_blocks(bv.take(i as int), secs_v(old(into)@)),
        ));
        i = i + 1;
    }
    assert(bv.take(bv.len() as int) =~= bv);
}

fn collect_entry_items(items: &Vec<ListItem>, into: &mut Vec<(String, Permission)>)
    ensures
        secs_v(final(into)@) == entries_items(items_v(items@), secs_v(old(into)@)),
    decreases items@,
{
    let ghost iv = items_v(items@);
    let mut i: usize = 0;
    assert(iv.take(0) =~= Seq::<ItemV>::empty());
    while i < items.len()
        invariant
            i <= items@.len(),
            iv == items_v(items@),
            secs_v(into@) == entries_items(iv.take(i as int), secs_v(old(into)@)),
        decreases items.len() - i,
    {
        assert(iv.take(i + 1).drop_last() =~= iv.take(i as int));
        proof {
            crate::ast::lemma_items_v(items@);
        }
        collect_entries(&items[i].blocks, into);
        i = i + 1;
    }
    assert(iv.take(iv.len() as int) =~= iv);
}

/// The first `ai-policy` component in a block sequence, searched depth-first
/// through components, block quotes, list items and footnote definitions: its
/// attributes and body.
pub open spec fn find_blocks(bs: Seq<BlockV>) -> Option<(AttrsV, BodyV)>
    decreases bs,
{
    if bs.len() == 0 {
        None
    } else {
        match find_block(bs[0]) {
            Some(x) => Some(x),
            None => find_blocks(bs.drop_first()),
        }
    }
}

pub open spec fn find_block(b: BlockV) -> Option<(AttrsV, BodyV)>
    decreases b,
{
    match b {
        BlockV::Component { name, attrs, body } => if name == "ai-policy"@ {
            Some((attrs, body))
        } else {
            match body {
                BodyV::Children(c) => find_blocks(c),
                BodyV::Raw(_) => None,
            }
        },
        BlockV::BlockQuote(c) => find_blocks(c),
        BlockV::List { items, .. } => find_items(items),
        BlockV::FootnoteDefinition { blocks, .. } => find_blocks(blocks),
        _ => None,
    }
}

pub open spec fn find_items(items: Seq<ItemV>) -> Option<(AttrsV, BodyV)>
    decreases items,
{
    if items.len() == 0 {
        None
    } else {
        match find_blocks(items[0].blocks) {
            Some(x) => Some(x),
            None => find_items(items.drop_first()),
        }
    }
}

/// Find the first `ai-policy` component anywhere in the block tree.
fn find_policy_block<'a>(blocks: &'a Vec<Block>) -> (r: Option<&'a Component>)
    ensures
        match r {
            Some(c) => find_blocks(blocks_v(blocks@)) == Some((c.attrs@, body_v(c.body))),
            None => find_blocks(blocks_v(blocks@)).is_none(),
        },
    decreases blocks@,
{
    let ghost bv = blocks_v(blocks@);
    let mut i: usize = 0;
    assert(bv.skip(0) =~= bv);
    while i < blocks.len()
        invariant
            i <= blocks@.len(),
            bv == blocks_v(blocks@),
            find_blocks(bv) == find_blocks(bv.skip(i as int)),
        decreases blocks.len() - i,
    {
        proof {
            crate::ast::lemma_blocks_v(blocks@);
        }
        assert(bv.skip(i as int).drop_first() =~= bv.skip(i + 1));
        assert(bv.skip(i as int)[0] == blocks@[i as int]@);
        match find_in_block(&blocks[i]) {
            Some(c) => return Some(c),
            None => {},
        }
        i = i + 1;
    }
    None
}

fn find_in_block<'a>(b: &'a Block) -> (r: Option<&'a Component>)
    ensures
        match r {
            Some(c) => find_block(b@) == Some((c.attrs@, body_v(c.body))),
            None => find_block(b@).is_none(),
        },
    decreases b,
{
    match b {
        Block::Component(c) => {
            if str_eq(c.name.as_str(), "ai-policy") {
                Some(c)
            } else {
                match &c.body {
                    ComponentBody::Children(k) => find_policy_block(k),
                    ComponentBody::Raw(_) => None,
                }
            }
        },
        Block::BlockQuote(k) => find_policy_block(k),
        Block::List(l) => find_in_items(&l.items),
        Block::FootnoteDefinition { blocks, .. } => find_policy_block(blocks),
        _ => None,
    }
}

fn find_in_items<'a>(items: &'a Vec<ListItem>) -> (r: Option<&'a Component>)
    ensures
        match r {
            Some(c) => find_items(items_v(items@)) == Some((c.attrs@, body_v(c.body))),
            None => find_items(items_v(items@)).is_none(),
        },
    decreases items@,
{
    let ghost iv = items_v(items@);
    let mut i: usize = 0;
    assert(iv.skip(0) =~= iv);
    while i < items.len()
        invariant
            i <= items@.len(),
            iv == items_v(items@),
            find_items(iv) == find_items(iv.skip(i as int)),
        decreases items.len() - i,
    {
        proof {
            crate::ast::lemma_items_v(items@);
        }
        assert(iv.skip(i as int).drop_first() =~= iv.skip(i + 1));
        assert(iv.skip(i as int)[0] == iv[i as int]);
        match find_policy_block(&items[i].blocks) {
            Some(c) => return Some(c),
            None => {},
        }
        i = i + 1;
    }
    None
}

/// The policy a document carries: its first `ai-policy` block read into a
/// policy, with `editable` as the default when the block names none.
pub open spec fn policy_v(doc: Seq<BlockV>) -> Option<PolicyV> {
    match find_blocks(doc) {
        None => None,
        Some((attrs, body)) => Some(
            PolicyV {
                model: first_value(attrs.pairs, "model"@),
                default: match first_value(attrs.pairs, "default"@) {
                    Some(w) => perm_word(w),
                    None => Permission::Editable,
                },
                sections: match body {
                    BodyV::Children(c) => entries_blocks(c, Seq::empty()),
                    BodyV::Raw(_) => Seq::empty(),
                },
            },
        ),
    }
}

proof fn lemma_entries_lines(ls: Seq<Seq<char>>, acc: Seq<(Seq<char>, Permission)>)
    requires
        sorted_keys(acc),
    ensures
        sorted_keys(entries_lines(ls, acc)),
    decreases ls.len(),
{
    if ls.len() > 0 {
        lemma_entries_lines(ls.drop_last(), acc);
        let a = entries_lines(ls.drop_last(), acc);
        let l = ls.last();
        let j = colon_index(l, 0);
        if j >= 0 {
            law_section_set(a, slugify_v(trim(l.take(j))), perm_word(l.skip(j + 1)), Seq::empty());
        }
    }
}

proof fn lemma_entries_blocks(bs: Seq<BlockV>, acc: Seq<(Seq<char>, Permission)>)
    requires
        sorted_keys(acc),
    ensures
        sorted_keys(entries_blocks(bs, acc)),
    decreases bs,
{
    if bs.len() > 0 {
        lemma_entries_blocks(bs.drop_last(), acc);
        lemma_entries_block(bs.last(), entries_blocks(bs.drop_last(), acc));
    }
}

proof fn lemma_entries_items(items: Seq<ItemV>, acc: Seq<(Seq<char>, Permission)>)
    requires
        sorted_keys(acc),
    ensures
        sorted_keys(entries_items(items, acc)),
    decreases items,
{
    if items.len() > 0 {
        lemma_entries_items(items.drop_last(), acc);
        lemma_entries_blocks(items.last().blocks, entries_items(items.drop_last(), acc));
    }
}

proof fn lemma_entries_block(b: BlockV, acc: Seq<(Seq<char>, Permission)>)
    requires
        sorted_keys(acc),
    ensures
        sorted_keys(entries_block(b, acc)),
    decreases b,
{
    match b {
        BlockV::List { items, .. } => lemma_entries_items(items, acc),
        BlockV::Paragraph(c) => lemma_entries_lines(lines(ptext_inlines(c)), acc),
        _ => {},
    }
}

/// Extract the first `:::ai-policy` block from a document into a typed
/// policy; `None` when the document carries none. No section is listed twice
/// (a later entry for a section replaces an earlier one), and the sections come
/// in order of slug.
pub fn extract_policy(document: &Document) -> (r: Option<AiPolicy>)
    ensures
        r.is_some() == policy_v(document@).is_some(),
        r matches Some(p) ==> p@ == policy_v(document@)->0 && sorted_keys(p@.sections),
{
    let component = match find_policy_block(&document.blocks) {
        Some(c) => c,
        None => return None,
    };
    let model = match component.attrs.get("model") {
        Some(m) => Some(m.to_owned()),
        None => None,
    };
    let default = match component.attrs.get("default") {
        Some(w) => Permission::parse(w),
        None => Permission::Editable,
    };
    let mut sections: Vec<(String, Permission)> = Vec::new();
    assert(secs_v(sections@) =~= Seq::<(Seq<char>, Permission)>::empty());
    match &component.body {
        ComponentBody::Children(blocks) => collect_entries(blocks, &mut sections),
        ComponentBody::Raw(_) => {},
    }
    proof {
        match body_v(component.body) {
            BodyV::Children(c) => lemma_entries_blocks(c, Seq::empty()),
            BodyV::Raw(_) => {},
        }
    }
    let p = AiPolicy { model, default, sections };
    Some(p)
}


/// The plain text of a policy paragraph keeps the text of every text and code
/// inline at any depth of emphasis and strong emphasis: markup around an
/// entry's section name changes nothing of it. A line break reads as a line
/// break; links, images, raw HTML and the extensions add nothing.
pub proof fn law_policy_text_sees_through_markup(c: Seq<InlineV>, t: Seq<char>)
    ensures
        ptext_inline(InlineV::Emphasis(c)) == ptext_inlines(c),
        ptext_inline(InlineV::Strong(c)) == ptext_inlines(c),
        ptext_inline(InlineV::Strong(seq![InlineV::Emphasis(c)])) == ptext_inlines(c),
        ptext_inline(InlineV::Text(t)) == t,
        ptext_inline(InlineV::Code(t)) == t,
        ptext_inline(InlineV::SoftBreak) == seq!['\n'],
        ptext_inline(InlineV::HardBreak) == seq!['\n'],
        ptext_inlines(seq![InlineV::Text(t)]) == t,
{
    let one = seq![InlineV::Emphasis(c)];
    assert(one.drop_last() =~= Seq::<InlineV>::empty());
    assert(one.last() == InlineV::Emphasis(c));
    assert(ptext_inlines(one) == ptext_inlines(one.drop_last()) + ptext_inline(one.last()));
    assert(Seq::<char>::empty() + ptext_inlines(c) =~= ptext_inlines(c));
    let tx = seq![InlineV::Text(t)];
    assert(tx.drop_last() =~= Seq::<InlineV>::empty());
    assert(tx.last() == InlineV::Text(t));
    assert(ptext_inlines(tx) == ptext_inlines(tx.drop_last()) + ptext_inline(tx.last()));
    assert(Seq::<char>::empty() + t =~= t);
}

/// The plain text of two inline runs one after the other is that of the first
/// followed by that of the second.
pub proof fn law_policy_text_concat(s: Seq<InlineV>, u: Seq<InlineV>)
    ensures
        ptext_inlines(s + u) == ptext_inlines(s) + ptext_inlines(u),
    decreases u.len(),
{
    if u.len() == 0 {
        assert(s + u =~= s);
        assert(ptext_inlines(s) + Seq::<char>::empty() =~= ptext_inlines(s));
    } else {
        law_policy_text_concat(s, u.drop_last());
        assert((s + u).drop_last() =~= s + u.drop_last());
        assert((s + u).last() == u.last());
        assert(ptext_inlines(s + u) =~= ptext_inlines(s) + ptext_inlines(u));
    }
}


/// The permission words: `editable`, `edit`, `rw` and `write` (in any letter
/// case, with `_` for `-`, around whitespace) make a section editable,
/// `append-only` and `append` append-only, and every other word read-only;
/// only editable and append-only sections may be written.
pub proof fn law_permission_words(w: Seq<char>)
    ensures
        (perm_word(w) == Permission::Editable) <==> (norm_word(w) == "editable"@ || norm_word(w) == "edit"@
            || norm_word(w) == "rw"@ || norm_word(w) == "write"@),
        (perm_word(w) == Permission::AppendOnly) <==> (!(norm_word(w) == "editable"@ || norm_word(w) == "edit"@
            || norm_word(w) == "rw"@ || norm_word(w) == "write"@) && (norm_word(w) == "append-only"@ || norm_word(w)
            == "append"@)),
        writable(Permission::Editable),
        writable(Permission::AppendOnly),
        !writable(Permission::ReadOnly),
{
}

/// A section the policy names has the permission named for it; any other has
/// the policy's default.
pub proof fn law_permission_lookup(p: PolicyV, slug: Seq<char>, q: Permission)
    ensures
        sec_get(p.sections, slug) == Some(q) ==> permission_v(p, slug) == q,
        sec_get(p.sections, slug) is None ==> permission_v(p, slug) == p.default,
        (forall|i: int| 0 <= i < p.sections.len() ==> #[trigger] p.sections[i].0 != slug) ==> permission_v(p, slug)
            == p.default,
        (p.sections.len() > 0 && p.sections[0].0 == slug) ==> permission_v(p, slug) == p.sections[0].1,
    decreases p.sections.len(),
{
    lemma_sec_get_absent(p.sections, slug);
}

proof fn lemma_sec_get_absent(secs: Seq<(Seq<char>, Permission)>, slug: Seq<char>)
    ensures
        (forall|i: int| 0 <= i < secs.len() ==> #[trigger] secs[i].0 != slug) ==> sec_get(secs, slug) is None,
    decreases secs.len(),
{
    if secs.len() > 0 {
        let d = secs.drop_first();
        if forall|i: int| 0 <= i < secs.len() ==> #[trigger] secs[i].0 != slug {
            assert forall|i: int| 0 <= i < d.len() implies #[trigger] d[i].0 != slug by {
                assert(d[i] == secs[i + 1]);
            }
        }
        lemma_sec_get_absent(d, slug);
    }
}


/// A policy line `name: word` sets the section whose anchor is the slug of
/// `name` (split at the first colon, trimmed) to the permission `word` names;
/// a line without a colon, or whose name has no slug, changes nothing.
pub proof fn law_entry_line(l: Seq<char>, acc: Seq<(Seq<char>, Permission)>, j: int)
    requires
        0 <= j < l.len(),
        l[j] == ':',
        forall|k: int| 0 <= k < j ==> #[trigger] l[k] != ':',
        slugify_v(trim(l.take(j))).len() > 0,
    ensures
        entry_line(l, acc) == sec_set(acc, slugify_v(trim(l.take(j))), perm_word(l.skip(j + 1))),
{
    lemma_colon_first(l, 0, j);
}

proof fn lemma_colon_first(l: Seq<char>, i: int, j: int)
    requires
        0 <= i <= j < l.len(),
        l[j] == ':',
        forall|k: int| i <= k < j ==> #[trigger] l[k] != ':',
    ensures
        colon_index(l, i) == j,
    decreases j - i,
{
    if i < j {
        lemma_colon_first(l, i + 1, j);
    }
}

} // verus!
