//! Component-aware syntax tree to HTML renderer.
//!
//! Standard CommonMark nodes become their usual tags; component nodes become
//! `alt-<name>` custom elements wrapping a static fallback, so a plain browser
//! shows the fallback and the JS runtime upgrades the element into the rich
//! form. All text is escaped, URL schemes on generated links are filtered, and
//! only raw-HTML nodes go through the sanitiser: the tags generated here are
//! emitted directly, so the output is safe by construction.
use vstd::prelude::*;
use crate::ast::{
    first_value, Alignment, Attrs, AttrsV, Block, BlockV, BodyV, Component, ComponentBody,
    Document, Inline, InlineV, ItemV, List, ListItem, Table, blocks_v, cells_v, inline_v,
    inlines_v, items_v, rows_v,
};
use crate::html::{
    class_suffix, dec, esc, esc_attr, is_safe_name, push_class_suffix, push_dec, push_escaped,
    push_escaped_attr, safe_name, safe_url, safe_url_v,
};
use crate::prepass::{
    collect_labels, fig_bump, fig_count, fig_kind_v, fig_prefix, figure_kind, pairs_v,
    pre_blocks, pre_empty, push_fig_prefix, push_inline_text, text_inlines, FigCounts,
    FigKind, HeadV, Heading, PreV, Prepass,
};
use crate::sanitize::{sanitize, sanitize_v};
use crate::inert::{
    block_clean, blocks_clean, cells_clean, inline_clean, inlines_clean, items_clean, kids_clean, lex,
    opens_element, rows_clean, Lex,
};
use crate::text::split_on;
use crate::text::{chars_of, str_eq, string_of, strs_v};

verus! {

broadcast use crate::ast::group_views;

/// What rendering reads of the pre-pass: the headings, the cross-reference
/// labels, the bibliography entries, and the cited keys that have an entry, in
/// citation order.
pub struct RenderCtx {
    pub heads: Vec<Heading>,
    pub labels: Vec<(String, String)>,
    pub bib: Vec<(String, String)>,
    pub cited: Vec<String>,
}

pub struct Ctx {
    pub heads: Seq<HeadV>,
    pub labels: Seq<(Seq<char>, Seq<char>)>,
    pub bib: Seq<(Seq<char>, Seq<char>)>,
    pub cited: Seq<Seq<char>>,
}

impl View for RenderCtx {
    type V = Ctx;

    open spec fn view(&self) -> Ctx {
        Ctx {
            heads: self.heads@.map_values(|h: Heading| h@),
            labels: pairs_v(self.labels@),
            bib: pairs_v(self.bib@),
            cited: strs_v(self.cited@),
        }
    }
}

/// What changes as blocks are rendered: the index of the next heading, and
/// the figures numbered so far.
#[derive(Clone, Copy, Debug, PartialEq, Eq)]
pub struct RenderState {
    pub cursor: usize,
    pub figs: FigCounts,
}

/// The text of the last label defined for `key`.
pub open spec fn last_value(labels: Seq<(Seq<char>, Seq<char>)>, key: Seq<char>) -> Option<Seq<char>>
    decreases labels.len(),
{
    if labels.len() == 0 {
        None
    } else if labels.last().0 == key {
        Some(labels.last().1)
    } else {
        last_value(labels.drop_last(), key)
    }
}

/// The index of the first occurrence of `x` in `s`.
pub open spec fn pos_of(s: Seq<Seq<char>>, x: Seq<char>) -> Option<nat>
    decreases s.len(),
{
    if s.len() == 0 {
        None
    } else if s[0] == x {
        Some(0)
    } else {
        match pos_of(s.drop_first(), x) {
            Some(n) => Some(n + 1),
            None => None,
        }
    }
}

/// The cited keys that have a bibliography entry, in citation order.
pub open spec fn cited_of(cites: Seq<Seq<char>>, bib: Seq<(Seq<char>, Seq<char>)>) -> Seq<Seq<char>>
    decreases cites.len(),
{
    if cites.len() == 0 {
        Seq::empty()
    } else if first_value(bib, cites.last()).is_some() {
        cited_of(cites.drop_last(), bib).push(cites.last())
    } else {
        cited_of(cites.drop_last(), bib)
    }
}

/// A ` title="..."` attribute, or nothing for an empty title.
pub open spec fn title_attr(t: Seq<char>) -> Seq<char> {
    if t.len() == 0 {
        Seq::empty()
    } else {
        " title=\""@ + esc_attr(t) + "\""@
    }
}

/// A `[#label]` cross-reference: a link showing the label's text, or the
/// literal text it was written as when no label has that name.
pub open spec fn xref_html(t: Seq<char>, cx: Ctx) -> Seq<char> {
    match last_value(cx.labels, t) {
        Some(text) => "<a class=\"alt-xref\" href=\"#"@ + esc_attr(t) + "\">"@ + esc(text) + "</a>"@,
        None => "[#"@ + esc(t) + "]"@,
    }
}

/// A `[@key]` citation: a numbered link into the reference list, or the
/// literal text it was written as when the key has no bibliography entry.
pub open spec fn cite_html(k: Seq<char>, cx: Ctx) -> Seq<char> {
    match pos_of(cx.cited, k) {
        Some(n) => "<a class=\"alt-cite\" href=\"#ref-"@ + esc_attr(k) + "\">["@ + dec(n + 1) + "]</a>"@,
        None => "[@"@ + esc(k) + "]"@,
    }
}

pub open spec fn r_inlines(s: Seq<InlineV>, cx: Ctx) -> Seq<char>
    decreases s,
{
    if s.len() == 0 {
        Seq::empty()
    } else {
        r_inlines(s.drop_last(), cx) + r_inline(s.last(), cx)
    }
}

pub open spec fn r_inline(i: InlineV, cx: Ctx) -> Seq<char>
    decreases i,
{
    match i {
        InlineV::Text(t) => esc(t),
        InlineV::Emphasis(c) => "<em>"@ + r_inlines(c, cx) + "</em>"@,
        InlineV::Strong(c) => "<strong>"@ + r_inlines(c, cx) + "</strong>"@,
        InlineV::Strikethrough(c) => "<del>"@ + r_inlines(c, cx) + "</del>"@,
        InlineV::CrossRef(t) => xref_html(t, cx),
        InlineV::Citation(k) => cite_html(k, cx),
        InlineV::FootnoteReference(n) => "<sup class=\"footnote-ref\"><a href=\"#fn-"@ + esc_attr(n)
            + "\">"@ + esc(n) + "</a></sup>"@,
        InlineV::Code(t) => "<code>"@ + esc(t) + "</code>"@,
        InlineV::Link { url, title, content } => "<a href=\""@ + esc_attr(safe_url_v(url)) + "\""@
            + title_attr(title) + ">"@ + r_inlines(content, cx) + "</a>"@,
        InlineV::Image { url, title, alt } => "<img src=\""@ + esc_attr(safe_url_v(url))
            + "\" alt=\""@ + esc_attr(text_inlines(alt)) + "\""@ + title_attr(title) + " />"@,
        InlineV::SoftBreak => "\n"@,
        InlineV::HardBreak => "<br />\n"@,
        InlineV::HtmlInline(h) => sanitize_v(h),
    }
}

/// Append a ` title="..."` attribute for a non-empty title.
fn push_title_attr(out: &mut String, title: &String)
    ensures
        final(out)@ == old(out)@ + title_attr(title@),
{
    let c = chars_of(title.as_str());
    if c.len() > 0 {
        out.append(" title=\"");
        push_escaped_attr(out, title.as_str());
        out.append("\"");
    } else {
        assert(old(out)@ + Seq::<char>::empty() =~= old(out)@);
    }
}

/// The text of the last label defined for `key`.
fn find_label<'a>(labels: &'a Vec<(String, String)>, key: &String) -> (r: Option<&'a String>)
    ensures
        r.is_some() == last_value(pairs_v(labels@), key@).is_some(),
        r matches Some(t) ==> t@ == last_value(pairs_v(labels@), key@)->0,
{
    let ghost lv = pairs_v(labels@);
    let mut i = labels.len();
    assert(lv.take(lv.len() as int) =~= lv);
    while i > 0
        invariant
            i <= labels@.len(),
            lv == pairs_v(labels@),
            last_value(lv, key@) == last_value(lv.take(i as int), key@),
        decreases i,
    {
        assert(lv.take(i as int).drop_last() =~= lv.take(i - 1));
        if str_eq(labels[i - 1].0.as_str(), key.as_str()) {
            return Some(&labels[i - 1].1);
        }
        i = i - 1;
    }
    None
}

/// The index of `key` among the cited keys.
fn find_cited(cited: &Vec<String>, key: &String) -> (r: Option<usize>)
    ensures
        r matches Some(i) ==> i < cited@.len() && pos_of(strs_v(cited@), key@) == Some(i as nat),
        r.is_none() ==> pos_of(strs_v(cited@), key@).is_none(),
{
    let ghost cv = strs_v(cited@);
    let mut i: usize = 0;
    assert(cv.skip(0) =~= cv);
    while i < cited.len()
        invariant
            i <= cited@.len(),
            cv == strs_v(cited@),
            match pos_of(cv, key@) {
                Some(n) => match pos_of(cv.skip(i as int), key@) {
                    Some(m) => n == m + i,
                    None => false,
                },
                None => pos_of(cv.skip(i as int), key@).is_none(),
            },
        decreases cited.len() - i,
    {
        assert(cv.skip(i as int).drop_first() =~= cv.skip(i + 1));
        if str_eq(cited[i].as_str(), key.as_str()) {
            return Some(i);
        }
        i = i + 1;
    }
    None
}

fn push_xref(out: &mut String, target: &String, cx: &RenderCtx)
    ensures
        final(out)@ == old(out)@ + xref_html(target@, cx@),
{
    match find_label(&cx.labels, target) {
        Some(text) => {
            out.append("<a class=\"alt-xref\" href=\"#");
            push_escaped_attr(out, target.as_str());
            out.append("\">");
            push_escaped(out, text.as_str());
            out.append("</a>");
        },
        None => {
            out.append("[#");
            push_escaped(out, target.as_str());
            out.append("]");
        },
    }
}

fn push_cite(out: &mut String, key: &String, cx: &RenderCtx)
    ensures
        final(out)@ == old(out)@ + cite_html(key@, cx@),
{
    match find_cited(&cx.cited, key) {
        Some(n) => {
            out.append("<a class=\"alt-cite\" href=\"#ref-");
            push_escaped_attr(out, key.as_str());
            out.append("\">[");
            let len = cx.cited.len();
            assert(n < len);
            let m: u64 = n as u64 + 1;
            push_dec(out, m);
            out.append("]</a>");
        },
        None => {
            out.append("[@");
            push_escaped(out, key.as_str());
            out.append("]");
        },
    }
}

/// Append the HTML of an inline sequence.
pub fn render_inlines(inlines: &Vec<Inline>, cx: &RenderCtx, out: &mut String)
    ensures
        final(out)@ == old(out)@ + r_inlines(inlines_v(inlines@), cx@),
        inlines_clean(inlines_v(inlines@)),
    decreases inlines@,
{
    let ghost iv = inlines_v(inlines@);
    let mut i: usize = 0;
    assert(iv.take(0) =~= Seq::<InlineV>::empty());
    assert(old(out)@ + Seq::<char>::empty() =~= old(out)@);
    while i < inlines.len()
        invariant
            i <= inlines@.len(),
            iv == inlines_v(inlines@),
            out@ == old(out)@ + r_inlines(iv.take(i as int), cx@),
            inlines_clean(iv.take(i as int)),
        decreases inlines.len() - i,
    {
        let ghost before = out@;
        assert(iv.take(i + 1).drop_last() =~= iv.take(i as int));
        proof {
            crate::ast::lemma_inlines_v(inlines@);
        }
        assert(iv[i as int] == inline_v(inlines@[i as int]));
        render_inline(&inlines[i], cx, out);
        assert(out@ =~= old(out)@ + r_inlines(iv.take(i + 1), cx@));
        i = i + 1;
    }
    assert(iv.take(iv.len() as int) =~= iv);
}

#[verifier::spinoff_prover]
fn render_inline(inline: &Inline, cx: &RenderCtx, out: &mut String)
    ensures
        final(out)@ == old(out)@ + r_inline(inline@, cx@),
        inline_clean(inline@),
    decreases inline,
{
    let ghost o = out@;
    match inline {
        Inline::Text(t) => push_escaped(out, t.as_str()),
        Inline::Emphasis(c) => {
            out.append("<em>");
            render_inlines(c, cx, out);
            out.append("</em>");
        },
        Inline::Strong(c) => {
            out.append("<strong>");
            render_inlines(c, cx, out);
            out.append("</strong>");
        },
        Inline::Strikethrough(c) => {
            out.append("<del>");
            render_inlines(c, cx, out);
            out.append("</del>");
        },
        Inline::CrossRef { target } => push_xref(out, target, cx),
        Inline::Citation { key } => push_cite(out, key, cx),
        Inline::FootnoteReference { name } => {
            out.append("<sup class=\"footnote-ref\"><a href=\"#fn-");
            push_escaped_attr(out, name.as_str());
            out.append("\">");
            push_escaped(out, name.as_str());
            out.append("</a></sup>");
        },
        Inline::Code(t) => {
            out.append("<code>");
            push_escaped(out, t.as_str());
            out.append("</code>");
        },
        Inline::Link { url, title, content } => {
            out.append("<a href=\"");
            let u = safe_url(url.as_str());
            push_escaped_attr(out, u.as_str());
            out.append("\"");
            push_title_attr(out, title);
            out.append(">");
            render_inlines(content, cx, out);
            out.append("</a>");
        },
        Inline::Image { url, title, alt } => {
            out.append("<img src=\"");
            let u = safe_url(url.as_str());
            push_escaped_attr(out, u.as_str());
            out.append("\" alt=\"");
            let mut t = String::new();
            push_inline_text(&mut t, alt);
            assert(t@ =~= text_inlines(inlines_v(alt@)));
            push_escaped_attr(out, t.as_str());
            out.append("\"");
            push_title_attr(out, title);
            out.append(" />");
        },
        Inline::SoftBreak => out.append("\n"),
        Inline::HardBreak => out.append("<br />\n"),
        Inline::HtmlInline(h) => {
            let s = sanitize(h.as_str());
            out.append(s.as_str());
        },
    }
    assert(out@ =~= o + r_inline(inline@, cx@));
}

/// A heading level kept within 1..6.
pub open spec fn clamp_level(l: u8) -> u8 {
    if l < 1 {
        1
    } else if l > 6 {
        6
    } else {
        l
    }
}

fn clamp(l: u8) -> (r: u8)
    ensures
        r == clamp_level(l),
{
    if l < 1 {
        1
    } else if l > 6 {
        6
    } else {
        l
    }
}

/// The `style` attribute of a table cell in column `col`.
pub open spec fn align_style(aligns: Seq<Alignment>, col: int) -> Seq<char> {
    if 0 <= col < aligns.len() {
        match aligns[col] {
            Alignment::Left => " style=\"text-align:left\""@,
            Alignment::Center => " style=\"text-align:center\""@,
            Alignment::Right => " style=\"text-align:right\""@,
            Alignment::Unaligned => Seq::empty(),
        }
    } else {
        Seq::empty()
    }
}

/// The cells of one table row, header cells (`th`) or body cells (`td`).
pub open spec fn cells_html(cells: Seq<Seq<InlineV>>, aligns: Seq<Alignment>, th: bool, cx: Ctx) -> Seq<char>
    decreases cells.len(),
{
    if cells.len() == 0 {
        Seq::empty()
    } else {
        let col = cells.len() - 1;
        cells_html(cells.drop_last(), aligns, th, cx) + if th {
            "<th"@ + align_style(aligns, col) + ">"@ + r_inlines(cells.last(), cx) + "</th>\n"@
        } else {
            "<td"@ + align_style(aligns, col) + ">"@ + r_inlines(cells.last(), cx) + "</td>\n"@
        }
    }
}

pub open spec fn rows_html(rows: Seq<Seq<Seq<InlineV>>>, aligns: Seq<Alignment>, cx: Ctx) -> Seq<char>
    decreases rows.len(),
{
    if rows.len() == 0 {
        Seq::empty()
    } else {
        rows_html(rows.drop_last(), aligns, cx) + "<tr>\n"@ + cells_html(rows.last(), aligns, false, cx)
            + "</tr>\n"@
    }
}

/// A GFM table.
pub open spec fn table_html(
    aligns: Seq<Alignment>,
    header: Seq<Seq<InlineV>>,
    rows: Seq<Seq<Seq<InlineV>>>,
    cx: Ctx,
) -> Seq<char> {
    "<table>\n<thead>\n<tr>\n"@ + cells_html(header, aligns, true, cx) + "</tr>\n</thead>\n"@ + (if rows.len()
        > 0 {
        "<tbody>\n"@ + rows_html(rows, aligns, cx) + "</tbody>\n"@
    } else {
        Seq::empty()
    }) + "</table>\n"@
}

fn push_align_style(out: &mut String, aligns: &Vec<Alignment>, col: usize)
    ensures
        final(out)@ == old(out)@ + align_style(aligns@, col as int),
{
    if col < aligns.len() {
        match aligns[col] {
            Alignment::Left => out.append(" style=\"text-align:left\""),
            Alignment::Center => out.append(" style=\"text-align:center\""),
            Alignment::Right => out.append(" style=\"text-align:right\""),
            Alignment::Unaligned => {
                assert(old(out)@ + Seq::<char>::empty() =~= old(out)@);
            },
        }
    } else {
        assert(old(out)@ + Seq::<char>::empty() =~= old(out)@);
    }
}

fn render_cells(cells: &Vec<Vec<Inline>>, aligns: &Vec<Alignment>, th: bool, cx: &RenderCtx, out: &mut String)
    ensures
        final(out)@ == old(out)@ + cells_html(cells_v(cells@), aligns@, th, cx@),
        cells_clean(cells_v(cells@)),
{
    let ghost cv = cells_v(cells@);
    let mut i: usize = 0;
    assert(cv.take(0) =~= Seq::<Seq<InlineV>>::empty());
    assert(old(out)@ + Seq::<char>::empty() =~= old(out)@);
    while i < cells.len()
        invariant
            i <= cells@.len(),
            cv == cells_v(cells@),
            out@ == old(out)@ + cells_html(cv.take(i as int), aligns@, th, cx@),
            cells_clean(cv.take(i as int)),
        decreases cells.len() - i,
    {
        assert(cv.take(i + 1).drop_last() =~= cv.take(i as int));
        proof {
            crate::ast::lemma_cells_v(cells@);
        }
        if th {
            out.append("<th");
        } else {
            out.append("<td");
        }
        push_align_style(out, aligns, i);
        out.append(">");
        render_inlines(&cells[i], cx, out);
        if th {
            out.append("</th>\n");
        } else {
            out.append("</td>\n");
        }
        assert(out@ =~= old(out)@ + cells_html(cv.take(i + 1), aligns@, th, cx@));
        i = i + 1;
    }
    assert(cv.take(cv.len() as int) =~= cv);
}

#[verifier::spinoff_prover]
fn render_table(table: &Table, cx: &RenderCtx, out: &mut String)
    ensures
        final(out)@ == old(out)@ + table_html(
            table.alignments@,
            cells_v(table.header@),
            rows_v(table.rows@),
            cx@,
        ),
        cells_clean(cells_v(table.header@)),
        rows_clean(rows_v(table.rows@)),
{
    let ghost o = out@;
    out.append("<table>\n<thead>\n<tr>\n");
    render_cells(&table.header, &table.alignments, true, cx, out);
    out.append("</tr>\n</thead>\n");
    let ghost mid = out@;
    let ghost rv = rows_v(table.rows@);
    if table.rows.len() > 0 {
        out.append("<tbody>\n");
        let mut i: usize = 0;
        let ghost start = out@;
        assert(rv.take(0) =~= Seq::<Seq<Seq<InlineV>>>::empty());
        assert(start + Seq::<char>::empty() =~= start);
        while i < table.rows.len()
            invariant
                i <= table.rows@.len(),
                rv == rows_v(table.rows@),
                out@ == start + rows_html(rv.take(i as int), table.alignments@, cx@),
                rows_clean(rv.take(i as int)),
            decreases table.rows.len() - i,
        {
            assert(rv.take(i + 1).drop_last() =~= rv.take(i as int));
            proof {
                crate::ast::lemma_rows_v(table.rows@);
            }
            out.append("<tr>\n");
            render_cells(&table.rows[i], &table.alignments, false, cx, out);
            out.append("</tr>\n");
            assert(out@ =~= start + rows_html(rv.take(i + 1), table.alignments@, cx@));
            i = i + 1;
        }
        assert(rv.take(rv.len() as int) =~= rv);
        out.append("</tbody>\n");
    }
    out.append("</table>\n");
    assert(out@ =~= o + table_html(table.alignments@, cells_v(table.header@), rv, cx@));
}

/// A code block: its language class from the first word of the info string.
pub open spec fn code_html(info: Seq<char>, literal: Seq<char>) -> Seq<char> {
    let lang = crate::decode::first_word(info);
    (if lang.len() == 0 {
        "<pre><code>"@
    } else {
        "<pre><code class=\"language-"@ + esc_attr(lang) + "\">"@
    }) + esc(literal) + "</code></pre>\n"@
}

fn render_code(info: &String, literal: &String, out: &mut String)
    ensures
        final(out)@ == old(out)@ + code_html(info@, literal@),
{
    let ghost o = out@;
    let s = chars_of(info.as_str());
    let (a, b) = crate::decode::word_bounds(&s);
    if a == b {
        out.append("<pre><code>");
    } else {
        out.append("<pre><code class=\"language-");
        let lang = string_of(&s, a, b);
        push_escaped_attr(out, lang.as_str());
        out.append("\">");
    }
    push_escaped(out, literal.as_str());
    out.append("</code></pre>\n");
    assert(out@ =~= o + code_html(info@, literal@));
}

/// An ` id="..."` attribute, when there is an id.
pub open spec fn id_attr(id: Option<Seq<char>>) -> Seq<char> {
    match id {
        Some(i) => " id=\""@ + esc_attr(i) + "\""@,
        None => Seq::empty(),
    }
}

/// Strings joined with single spaces.
pub open spec fn join_sp(cs: Seq<Seq<char>>) -> Seq<char>
    decreases cs.len(),
{
    if cs.len() == 0 {
        Seq::empty()
    } else if cs.len() == 1 {
        cs[0]
    } else {
        join_sp(cs.drop_last()) + " "@ + cs.last()
    }
}

/// The `data-` attributes of the pairs whose key is a safe name.
pub open spec fn pairs_html(ps: Seq<(Seq<char>, Seq<char>)>) -> Seq<char>
    decreases ps.len(),
{
    if ps.len() == 0 {
        Seq::empty()
    } else {
        pairs_html(ps.drop_last()) + if safe_name(ps.last().0) {
            " data-"@ + ps.last().0 + "=\""@ + esc_attr(ps.last().1) + "\""@
        } else {
            Seq::empty()
        }
    }
}

/// The attributes of a component element: its id, its classes, and each
/// `key=value` pair with a safe key as a `data-key` attribute.
pub open spec fn attrs_html(a: AttrsV) -> Seq<char> {
    id_attr(a.id) + (if a.classes.len() > 0 {
        " class=\""@ + esc_attr(join_sp(a.classes)) + "\""@
    } else {
        Seq::empty()
    }) + pairs_html(a.pairs)
}

fn push_id_attr(out: &mut String, id: &Option<String>)
    ensures
        final(out)@ == old(out)@ + id_attr(match id {
            Some(i) => Some(i@),
            None => None,
        }),
{
    match id {
        Some(i) => {
            out.append(" id=\"");
            push_escaped_attr(out, i.as_str());
            out.append("\"");
        },
        None => {
            assert(old(out)@ + Seq::<char>::empty() =~= old(out)@);
        },
    }
}

fn render_attrs(attrs: &Attrs, out: &mut String)
    ensures
        final(out)@ == old(out)@ + attrs_html(attrs@),
{
    let ghost o = out@;
    push_id_attr(out, &attrs.id);
    let ghost after_id = out@;
    let ghost cv = attrs@.classes;
    if attrs.classes.len() > 0 {
        let mut joined = String::new();
        let mut i: usize = 0;
        assert(cv.take(0) =~= Seq::<Seq<char>>::empty());
        while i < attrs.classes.len()
            invariant
                i <= attrs.classes@.len(),
                cv == attrs@.classes,
                cv.len() == attrs.classes@.len(),
                joined@ == join_sp(cv.take(i as int)),
            decreases attrs.classes.len() - i,
        {
            assert(cv.take(i + 1).drop_last() =~= cv.take(i as int));
            assert(cv[i as int] == attrs.classes@[i as int]@);
            if i > 0 {
                joined.append(" ");
            } else {
                assert(cv.take(1) =~= seq![cv[0]]);
            }
            joined.append(attrs.classes[i].as_str());
            assert(joined@ =~= join_sp(cv.take(i + 1)));
            i = i + 1;
        }
        assert(cv.take(cv.len() as int) =~= cv);
        out.append(" class=\"");
        push_escaped_attr(out, joined.as_str());
        out.append("\"");
    }
    let ghost after_class = out@;
    let ghost pv = attrs@.pairs;
    let mut j: usize = 0;
    assert(pv.take(0) =~= Seq::<(Seq<char>, Seq<char>)>::empty());
    assert(after_class + Seq::<char>::empty() =~= after_class);
    while j < attrs.pairs.len()
        invariant
            j <= attrs.pairs@.len(),
            pv == attrs@.pairs,
            pv.len() == attrs.pairs@.len(),
            out@ == after_class + pairs_html(pv.take(j as int)),
        decreases attrs.pairs.len() - j,
    {
        assert(pv.take(j + 1).drop_last() =~= pv.take(j as int));
        assert(pv[j as int] == (attrs.pairs@[j as int].0@, attrs.pairs@[j as int].1@));
        let key = &attrs.pairs[j].0;
        if is_safe_name(key.as_str()) {
            out.append(" data-");
            out.append(key.as_str());
            out.append("=\"");
            push_escaped_attr(out, attrs.pairs[j].1.as_str());
            out.append("\"");
        }
        assert(out@ =~= after_class + pairs_html(pv.take(j + 1)));
        j = j + 1;
    }
    assert(pv.take(pv.len() as int) =~= pv);
    assert(out@ =~= o + attrs_html(attrs@));
}

/// The cells of a row of comma-separated data, each trimmed.
pub open spec fn csv_cells(cells: Seq<Seq<char>>, th: bool) -> Seq<char>
    decreases cells.len(),
{
    if cells.len() == 0 {
        Seq::empty()
    } else {
        csv_cells(cells.drop_last(), th) + csv_cell(cells.last(), th)
    }
}

/// One cell of comma-separated data, trimmed.
pub open spec fn csv_cell(cell: Seq<char>, th: bool) -> Seq<char> {
    if th {
        "<th>"@ + esc(crate::text::trim(cell)) + "</th>"@
    } else {
        "<td>"@ + esc(crate::text::trim(cell)) + "</td>"@
    }
}

/// The lines that hold more than whitespace.
pub open spec fn nonblank(ls: Seq<Seq<char>>) -> Seq<Seq<char>>
    decreases ls.len(),
{
    if ls.len() == 0 {
        Seq::empty()
    } else if crate::text::trim(ls.last()).len() > 0 {
        nonblank(ls.drop_last()).push(ls.last())
    } else {
        nonblank(ls.drop_last())
    }
}

pub open spec fn csv_rows(rows: Seq<Seq<char>>) -> Seq<char>
    decreases rows.len(),
{
    if rows.len() == 0 {
        Seq::empty()
    } else {
        csv_rows(rows.drop_last()) + "<tr>"@ + csv_cells(split_on(rows.last(), ','), false) + "</tr>"@
    }
}

/// Comma-separated data as an HTML table: the first non-blank line is the header.
pub open spec fn csv_html(raw: Seq<char>) -> Seq<char> {
    let rows = nonblank(crate::text::lines(raw));
    "<table>"@ + (if rows.len() > 0 {
        "<thead><tr>"@ + csv_cells(split_on(rows[0], ','), true) + "</tr></thead>"@
    } else {
        Seq::empty()
    }) + "<tbody>"@ + (if rows.len() > 0 {
        csv_rows(rows.drop_first())
    } else {
        Seq::empty()
    }) + "</tbody></table>"@
}

/// Append one trimmed cell `c[from..to]`.
fn push_csv_cell(out: &mut String, c: &Vec<char>, from: usize, to: usize, th: bool)
    requires
        from <= to <= c@.len(),
    ensures
        final(out)@ == old(out)@ + csv_cell(c@.subrange(from as int, to as int), th),
{
    let (a, b) = crate::text::trim_bounds(c, from, to);
    let cell = string_of(c, a, b);
    if th {
        out.append("<th>");
    } else {
        out.append("<td>");
    }
    push_escaped(out, cell.as_str());
    if th {
        out.append("</th>");
    } else {
        out.append("</td>");
    }
}

pub proof fn lemma_csv_cells_push(cells: Seq<Seq<char>>, x: Seq<char>, th: bool)
    ensures
        csv_cells(cells.push(x), th) == csv_cells(cells, th) + csv_cell(x, th),
{
    assert(cells.push(x).drop_last() =~= cells);
}

/// Append the cells of the row `c[from..to]`, split at commas.
fn push_csv_row_cells(out: &mut String, c: &Vec<char>, from: usize, to: usize, th: bool)
    requires
        from <= to <= c@.len(),
    ensures
        final(out)@ == old(out)@ + csv_cells(split_on(c@.subrange(from as int, to as int), ','), th),
{
    let ghost row = c@.subrange(from as int, to as int);
    let ghost mut done: Seq<Seq<char>> = Seq::empty();
    let mut cs = from;
    let mut j = from;
    assert(row.take(0) =~= Seq::<char>::empty());
    assert(c@.subrange(from as int, from as int) =~= Seq::<char>::empty());
    assert(split_on(Seq::<char>::empty(), ',') =~= done.push(Seq::<char>::empty()));
    assert(old(out)@ + Seq::<char>::empty() =~= old(out)@);
    while j < to
        invariant
            from <= cs <= j <= to <= c@.len(),
            row == c@.subrange(from as int, to as int),
            split_on(row.take(j - from), ',') == done.push(c@.subrange(cs as int, j as int)),
            out@ == old(out)@ + csv_cells(done, th),
        decreases to - j,
    {
        let ghost k = j - from;
        assert(row.take(k + 1).drop_last() =~= row.take(k));
        assert(row.take(k + 1).last() == c@[j as int]);
        if c[j] == ',' {
            push_csv_cell(out, c, cs, j, th);
            proof {
                lemma_csv_cells_push(done, c@.subrange(cs as int, j as int), th);
                done = done.push(c@.subrange(cs as int, j as int));
            }
            cs = j + 1;
            assert(c@.subrange(cs as int, cs as int) =~= Seq::<char>::empty());
        } else {
            assert(c@.subrange(cs as int, j + 1) =~= c@.subrange(cs as int, j as int).push(c@[j as int]));
            assert(done.push(c@.subrange(cs as int, j as int)).drop_last() =~= done);
        }
        j = j + 1;
    }
    assert(row.take(to - from) =~= row);
    push_csv_cell(out, c, cs, to, th);
    proof {
        lemma_csv_cells_push(done, c@.subrange(cs as int, to as int), th);
    }
}

pub open spec fn bounds_v(c: Seq<char>, v: Seq<(usize, usize)>) -> Seq<Seq<char>> {
    v.map_values(|p: (usize, usize)| c.subrange(p.0 as int, p.1 as int))
}

/// Render comma-separated data as an HTML table.
#[verifier::spinoff_prover]
fn render_csv_table(raw: &String, out: &mut String)
    ensures
        final(out)@ == old(out)@ + csv_html(raw@),
{
    let ghost o = out@;
    let c = chars_of(raw.as_str());
    let lb = crate::text::line_bounds(&c);
    let ghost ls = crate::text::lines(c@);
    let mut rows: Vec<(usize, usize)> = Vec::new();
    let mut i: usize = 0;
    assert(ls.take(0) =~= Seq::<Seq<char>>::empty());
    assert(bounds_v(c@, rows@) =~= Seq::<Seq<char>>::empty());
    while i < lb.len()
        invariant
            i <= lb@.len(),
            ls == crate::text::lines(c@),
            lb@.len() == ls.len(),
            forall|k: int|
                0 <= k < lb@.len() ==> (#[trigger] lb@[k]).0 <= lb@[k].1 <= c@.len() && c@.subrange(
                    lb@[k].0 as int,
                    lb@[k].1 as int,
                ) == ls[k],
            forall|k: int| 0 <= k < rows@.len() ==> (#[trigger] rows@[k]).0 <= rows@[k].1 <= c@.len(),
            bounds_v(c@, rows@) == nonblank(ls.take(i as int)),
        decreases lb.len() - i,
    {
        assert(ls.take(i + 1).drop_last() =~= ls.take(i as int));
        let (s0, e0) = lb[i];
        let (a, b) = crate::text::trim_bounds(&c, s0, e0);
        if a < b {
            let ghost before = bounds_v(c@, rows@);
            rows.push((s0, e0));
            assert(bounds_v(c@, rows@) =~= before.push(ls[i as int]));
        }
        i = i + 1;
    }
    assert(ls.take(ls.len() as int) =~= ls);
    let ghost rv = bounds_v(c@, rows@);
    out.append("<table>");
    if rows.len() > 0 {
        out.append("<thead><tr>");
        push_csv_row_cells(out, &c, rows[0].0, rows[0].1, true);
        out.append("</tr></thead>");
    }
    out.append("<tbody>");
    let ghost start = out@;
    let mut r: usize = 1;
    if rows.len() > 0 {
        assert(rv.drop_first().take(0) =~= Seq::<Seq<char>>::empty());
    }
    assert(start + Seq::<char>::empty() =~= start);
    while r < rows.len()
        invariant
            1 <= r,
            rows@.len() > 0 ==> r <= rows@.len(),
            rv == bounds_v(c@, rows@),
            forall|k: int| 0 <= k < rows@.len() ==> (#[trigger] rows@[k]).0 <= rows@[k].1 <= c@.len(),
            rows@.len() > 0 ==> out@ == start + csv_rows(rv.drop_first().take(r - 1)),
            rows@.len() == 0 ==> out@ == start,
        decreases rows.len() - r,
    {
        let ghost t = rv.drop_first();
        assert(t.take(r as int).drop_last() =~= t.take(r - 1));
        assert(t.take(r as int).last() == rv[r as int]);
        out.append("<tr>");
        push_csv_row_cells(out, &c, rows[r].0, rows[r].1, false);
        out.append("</tr>");
        assert(out@ =~= start + csv_rows(t.take(r as int)));
        r = r + 1;
    }
    if rows.len() > 0 {
        assert(rv.drop_first().take(rv.len() - 1) =~= rv.drop_first());
    }
    out.append("</tbody></table>");
    assert(out@ =~= o + csv_html(raw@));
}

/// The value of attribute `key`, or `d` when there is none.
pub open spec fn get_or(a: AttrsV, key: Seq<char>, d: Seq<char>) -> Seq<char> {
    match first_value(a.pairs, key) {
        Some(v) => v,
        None => d,
    }
}

fn attr_or<'a>(attrs: &'a Attrs, key: &str, d: &'a str) -> (r: &'a str)
    ensures
        r@ == get_or(attrs@, key@, d@),
{
    match attrs.get(key) {
        Some(v) => v,
        None => d,
    }
}

/// The table of contents: a `<nav>` linking to every heading by its slug.
pub open spec fn toc_items(heads: Seq<HeadV>) -> Seq<char>
    decreases heads.len(),
{
    if heads.len() == 0 {
        Seq::empty()
    } else {
        let h = heads.last();
        toc_items(heads.drop_last()) + "<li class=\"alt-toc-l"@ + dec(clamp_level(h.level) as nat)
            + "\"><a href=\"#"@ + esc_attr(h.slug) + "\">"@ + esc(h.text) + "</a></li>\n"@
    }
}

pub open spec fn toc_html(heads: Seq<HeadV>) -> Seq<char> {
    "<nav class=\"alt-toc\" aria-label=\"Table of contents\">"@ + if heads.len() == 0 {
        "</nav>"@
    } else {
        "\n<ul>\n"@ + toc_items(heads) + "</ul>\n</nav>"@
    }
}

/// The bibliography text of `k`, or nothing.
pub open spec fn bib_text(bib: Seq<(Seq<char>, Seq<char>)>, k: Seq<char>) -> Seq<char> {
    match first_value(bib, k) {
        Some(t) => t,
        None => Seq::empty(),
    }
}

pub open spec fn refs_items(keys: Seq<Seq<char>>, bib: Seq<(Seq<char>, Seq<char>)>) -> Seq<char>
    decreases keys.len(),
{
    if keys.len() == 0 {
        Seq::empty()
    } else {
        refs_items(keys.drop_last(), bib) + "\n<li id=\"ref-"@ + esc_attr(keys.last()) + "\">"@ + esc(
            bib_text(bib, keys.last()),
        ) + "</li>"@
    }
}

/// The reference list: the cited entries in citation order, each anchored.
pub open spec fn refs_html(cx: Ctx) -> Seq<char> {
    "<ol class=\"alt-references\">"@ + refs_items(cx.cited, cx.bib) + "\n</ol>"@
}

fn render_toc(cx: &RenderCtx, out: &mut String)
    ensures
        final(out)@ == old(out)@ + toc_html(cx@.heads),
{
    let ghost o = out@;
    let ghost hv = cx@.heads;
    out.append("<nav class=\"alt-toc\" aria-label=\"Table of contents\">");
    if cx.heads.len() == 0 {
        out.append("</nav>");
        assert(out@ =~= o + toc_html(hv));
        return;
    }
    out.append("\n<ul>\n");
    let ghost start = out@;
    let mut i: usize = 0;
    assert(hv.take(0) =~= Seq::<HeadV>::empty());
    assert(start + Seq::<char>::empty() =~= start);
    while i < cx.heads.len()
        invariant
            i <= cx.heads@.len(),
            hv == cx@.heads,
            hv.len() == cx.heads@.len(),
            out@ == start + toc_items(hv.take(i as int)),
        decreases cx.heads.len() - i,
    {
        assert(hv.take(i + 1).drop_last() =~= hv.take(i as int));
        let h = &cx.heads[i];
        assert(hv[i as int] == h@);
        out.append("<li class=\"alt-toc-l");
        push_dec(out, clamp(h.level) as u64);
        out.append("\"><a href=\"#");
        push_escaped_attr(out, h.slug.as_str());
        out.append("\">");
        push_escaped(out, h.text.as_str());
        out.append("</a></li>\n");
        assert(out@ =~= start + toc_items(hv.take(i + 1)));
        i = i + 1;
    }
    assert(hv.take(hv.len() as int) =~= hv);
    out.append("</ul>\n</nav>");
    assert(out@ =~= o + toc_html(hv));
}

/// The text of the first entry for `key`.
fn find_first<'a>(pairs: &'a Vec<(String, String)>, key: &String) -> (r: Option<&'a String>)
    ensures
        r.is_some() == first_value(pairs_v(pairs@), key@).is_some(),
        r matches Some(t) ==> t@ == first_value(pairs_v(pairs@), key@)->0,
{
    let ghost pv = pairs_v(pairs@);
    let mut i: usize = 0;
    assert(pv.skip(0) =~= pv);
    while i < pairs.len()
        invariant
            i <= pairs@.len(),
            pv == pairs_v(pairs@),
            first_value(pv, key@) == first_value(pv.skip(i as int), key@),
        decreases pairs.len() - i,
    {
        assert(pv.skip(i as int).drop_first() =~= pv.skip(i + 1));
        if str_eq(pairs[i].0.as_str(), key.as_str()) {
            return Some(&pairs[i].1);
        }
        i = i + 1;
    }
    None
}

fn render_references(cx: &RenderCtx, out: &mut String)
    ensures
        final(out)@ == old(out)@ + refs_html(cx@),
{
    let ghost o = out@;
    let ghost kv = cx@.cited;
    out.append("<ol class=\"alt-references\">");
    let ghost start = out@;
    let mut i: usize = 0;
    assert(kv.take(0) =~= Seq::<Seq<char>>::empty());
    assert(start + Seq::<char>::empty() =~= start);
    while i < cx.cited.len()
        invariant
            i <= cx.cited@.len(),
            kv == cx@.cited,
            kv.len() == cx.cited@.len(),
            out@ == start + refs_items(kv.take(i as int), cx@.bib),
        decreases cx.cited.len() - i,
    {
        assert(kv.take(i + 1).drop_last() =~= kv.take(i as int));
        let key = &cx.cited[i];
        out.append("\n<li id=\"ref-");
        push_escaped_attr(out, key.as_str());
        out.append("\">");
        match find_first(&cx.bib, key) {
            Some(t) => push_escaped(out, t.as_str()),
            None => {},
        }
        out.append("</li>");
        assert(out@ =~= start + refs_items(kv.take(i + 1), cx@.bib));
        i = i + 1;
    }
    assert(kv.take(kv.len() as int) =~= kv);
    out.append("\n</ol>");
    assert(out@ =~= o + refs_html(cx@));
}

/// An `embed` fallback: a link to its (scheme-filtered) source.
pub open spec fn embed_html(src: Seq<char>) -> Seq<char> {
    if src.len() == 0 {
        Seq::empty()
    } else {
        "<a href=\""@ + esc_attr(src) + "\" rel=\"noopener noreferrer\">"@ + esc(src) + "</a>"@
    }
}

/// An unresolved `include` fallback: a link to the source file.
pub open spec fn include_html(src: Seq<char>) -> Seq<char> {
    if src.len() == 0 {
        Seq::empty()
    } else {
        "<a class=\"alt-include\" href=\""@ + esc_attr(safe_url_v(src)) + "\">"@ + esc(src) + "</a>"@
    }
}

/// A `math` fallback: the source as code.
pub open spec fn math_html(body: BodyV) -> Seq<char> {
    match body {
        BodyV::Raw(r) => "<code class=\"alt-math\">"@ + esc(crate::text::trim_end(r)) + "</code>"@,
        BodyV::Children(_) => Seq::empty(),
    }
}

fn render_embed(attrs: &Attrs, out: &mut String)
    ensures
        final(out)@ == old(out)@ + embed_html(safe_url_v(get_or(attrs@, "src"@, ""@))),
{
    let src = safe_url(attr_or(attrs, "src", ""));
    if chars_of(src.as_str()).len() > 0 {
        out.append("<a href=\"");
        push_escaped_attr(out, src.as_str());
        out.append("\" rel=\"noopener noreferrer\">");
        push_escaped(out, src.as_str());
        out.append("</a>");
    } else {
        assert(old(out)@ + Seq::<char>::empty() =~= old(out)@);
    }
}

fn render_include(attrs: &Attrs, out: &mut String)
    ensures
        final(out)@ == old(out)@ + include_html(get_or(attrs@, "src"@, ""@)),
{
    let src = attr_or(attrs, "src", "");
    if chars_of(src).len() > 0 {
        out.append("<a class=\"alt-include\" href=\"");
        let u = safe_url(src);
        push_escaped_attr(out, u.as_str());
        out.append("\">");
        push_escaped(out, src);
        out.append("</a>");
    } else {
        assert(old(out)@ + Seq::<char>::empty() =~= old(out)@);
    }
}

pub open spec fn body_v(b: ComponentBody) -> BodyV {
    match b {
        ComponentBody::Children(k) => BodyV::Children(blocks_v(k@)),
        ComponentBody::Raw(r) => BodyV::Raw(r@),
    }
}

fn render_math(body: &ComponentBody, out: &mut String)
    ensures
        final(out)@ == old(out)@ + math_html(body_v(*body)),
{
    match body {
        ComponentBody::Raw(r) => {
            let c = chars_of(r.as_str());
            let b = crate::text::skip_ws_back(&c, 0, c.len());
            assert(c@.subrange(0, c@.len() as int) =~= c@);
            let t = string_of(&c, 0, b);
            out.append("<code class=\"alt-math\">");
            push_escaped(out, t.as_str());
            out.append("</code>");
        },
        ComponentBody::Children(_) => {
            assert(old(out)@ + Seq::<char>::empty() =~= old(out)@);
        },
    }
}

/// One more, stopping at the largest `usize`.
pub open spec fn sat_usize(n: usize) -> usize {
    if n < usize::MAX {
        (n + 1) as usize
    } else {
        n
    }
}

/// The opening tag of a list.
pub open spec fn list_open(ordered: bool, start: u32) -> Seq<char> {
    if ordered && start != 1 {
        "<ol start=\""@ + dec(start as nat) + "\">\n"@
    } else if ordered {
        "<ol>\n"@
    } else {
        "<ul>\n"@
    }
}

pub open spec fn list_close(ordered: bool) -> Seq<char> {
    if ordered {
        "</ol>\n"@
    } else {
        "</ul>\n"@
    }
}

/// The opening of a list item, with a disabled checkbox for a task item.
pub open spec fn item_open(task: Option<bool>) -> Seq<char> {
    match task {
        Some(true) => "<li class=\"task-list-item\">"@ + "<input type=\"checkbox\" checked disabled /> "@,
        Some(false) => "<li class=\"task-list-item\">"@ + "<input type=\"checkbox\" disabled /> "@,
        None => "<li>"@,
    }
}

/// The opening tag of a heading, with the anchor of the heading at `cursor`.
pub open spec fn heading_open(l: u8, cx: Ctx, cursor: usize) -> Seq<char> {
    if cursor < cx.heads.len() {
        "<h"@ + dec(l as nat) + " id=\""@ + esc_attr(cx.heads[cursor as int].slug) + "\">"@
    } else {
        "<h"@ + dec(l as nat) + ">"@
    }
}

/// A figure: native `<figure>` with its children and a numbered caption.
pub open spec fn figure_html(attrs: AttrsV, k: FigKind, n: u64, kids: Seq<char>) -> Seq<char> {
    "<figure"@ + id_attr(attrs.id) + ">\n"@ + kids + "<figcaption><span class=\"alt-figlabel\">"@
        + fig_prefix(k) + " "@ + dec(n as nat) + "</span>"@ + (match first_value(attrs.pairs, "caption"@) {
        Some(c) => ": "@ + esc(c),
        None => Seq::empty(),
    }) + "</figcaption>\n</figure>\n"@
}

/// The kinds of static fallback, by component name.
pub enum Fallback {
    Callout,
    Accordion,
    Tabs,
    Tab,
    Stack,
    Data,
    Math,
    Embed,
    Toc,
    References,
    Include,
    Plain,
}

pub open spec fn fallback_of(name: Seq<char>) -> Fallback {
    if name == "callout"@ {
        Fallback::Callout
    } else if name == "accordion"@ {
        Fallback::Accordion
    } else if name == "tabs"@ {
        Fallback::Tabs
    } else if name == "tab"@ {
        Fallback::Tab
    } else if name == "columns"@ || name == "column"@ {
        Fallback::Stack
    } else if name == "chart"@ || name == "table"@ {
        Fallback::Data
    } else if name == "math"@ {
        Fallback::Math
    } else if name == "embed"@ {
        Fallback::Embed
    } else if name == "toc"@ {
        Fallback::Toc
    } else if name == "references"@ {
        Fallback::References
    } else if name == "include"@ {
        Fallback::Include
    } else {
        Fallback::Plain
    }
}

/// Whether a component's fallback shows its block children.
pub open spec fn shows_children(name: Seq<char>) -> bool {
    match fallback_of(name) {
        Fallback::Callout | Fallback::Accordion | Fallback::Tabs | Fallback::Tab | Fallback::Stack
        | Fallback::Plain => true,
        _ => false,
    }
}

pub open spec fn wrap_html(class: Seq<char>, kids: Seq<char>) -> Seq<char> {
    "<div class=\""@ + class + "\">\n"@ + kids + "</div>"@
}

/// The static fallback of a component, given the HTML of its children.
pub open spec fn fallback_html(name: Seq<char>, attrs: AttrsV, body: BodyV, cx: Ctx, kids: Seq<char>) -> Seq<char> {
    match fallback_of(name) {
        Fallback::Callout => "<aside class=\"alt-callout alt-callout-"@ + class_suffix(
            get_or(attrs, "type"@, "note"@),
        ) + "\" role=\"note\">\n"@ + kids + "</aside>"@,
        Fallback::Accordion => "<details><summary>"@ + esc(get_or(attrs, "title"@, "Details"@))
            + "</summary>\n"@ + kids + "</details>"@,
        Fallback::Tabs => wrap_html("alt-tabs"@, kids),
        Fallback::Tab => "<section class=\"alt-tab\"><h3>"@ + esc(get_or(attrs, "title"@, "Tab"@))
            + "</h3>\n"@ + kids + "</section>"@,
        Fallback::Stack => wrap_html("alt-stack"@, kids),
        Fallback::Data => match body {
            BodyV::Raw(r) => csv_html(r),
            BodyV::Children(_) => Seq::empty(),
        },
        Fallback::Math => math_html(body),
        Fallback::Embed => embed_html(safe_url_v(get_or(attrs, "src"@, ""@))),
        Fallback::Toc => toc_html(cx.heads),
        Fallback::References => refs_html(cx),
        Fallback::Include => include_html(get_or(attrs, "src"@, ""@)),
        Fallback::Plain => match body {
            BodyV::Children(_) => "\n"@ + kids,
            BodyV::Raw(r) => "<pre>"@ + esc(r) + "</pre>"@,
        },
    }
}

pub open spec fn r_blocks(bs: Seq<BlockV>, cx: Ctx, st: RenderState) -> (Seq<char>, RenderState)
    decreases bs,
{
    if bs.len() == 0 {
        (Seq::empty(), st)
    } else {
        let (a, s1) = r_blocks(bs.drop_last(), cx, st);
        let (b, s2) = r_block(bs.last(), cx, s1);
        (a + b, s2)
    }
}

/// The blocks of a list item: in a tight list a paragraph is bare inline content.
pub open spec fn r_item_blocks(bs: Seq<BlockV>, tight: bool, cx: Ctx, st: RenderState) -> (Seq<char>, RenderState)
    decreases bs,
{
    if bs.len() == 0 {
        (Seq::empty(), st)
    } else {
        let (a, s1) = r_item_blocks(bs.drop_last(), tight, cx, st);
        match bs.last() {
            BlockV::Paragraph(c) => if tight {
                (a + r_inlines(c, cx), s1)
            } else {
                let (b, s2) = r_block(bs.last(), cx, s1);
                (a + b, s2)
            },
            _ => {
                let (b, s2) = r_block(bs.last(), cx, s1);
                (a + b, s2)
            },
        }
    }
}

pub open spec fn r_items(items: Seq<ItemV>, tight: bool, cx: Ctx, st: RenderState) -> (Seq<char>, RenderState)
    decreases items,
{
    if items.len() == 0 {
        (Seq::empty(), st)
    } else {
        let (a, s1) = r_items(items.drop_last(), tight, cx, st);
        let (b, s2) = r_item_blocks(items.last().blocks, tight, cx, s1);
        (a + item_open(items.last().task) + b + "</li>\n"@, s2)
    }
}

pub open spec fn r_block(b: BlockV, cx: Ctx, st: RenderState) -> (Seq<char>, RenderState)
    decreases b,
{
    match b {
        BlockV::Heading { level, content } => {
            let l = clamp_level(level);
            (
                heading_open(l, cx, st.cursor) + r_inlines(content, cx) + "</h"@ + dec(l as nat) + ">\n"@,
                RenderState { cursor: sat_usize(st.cursor), figs: st.figs },
            )
        },
        BlockV::Paragraph(c) => ("<p>"@ + r_inlines(c, cx) + "</p>\n"@, st),
        BlockV::BlockQuote(c) => {
            let (o, s1) = r_blocks(c, cx, st);
            ("<blockquote>\n"@ + o + "</blockquote>\n"@, s1)
        },
        BlockV::List { ordered, start, tight, items } => {
            let (o, s1) = r_items(items, tight, cx, st);
            (list_open(ordered, start) + o + list_close(ordered), s1)
        },
        BlockV::CodeBlock { info, literal } => (code_html(info, literal), st),
        BlockV::ThematicBreak => ("<hr />\n"@, st),
        BlockV::Table { alignments, header, rows } => (table_html(alignments, header, rows, cx), st),
        BlockV::FootnoteDefinition { name, blocks } => {
            let (o, s1) = r_blocks(blocks, cx, st);
            ("<section class=\"footnote\" id=\"fn-"@ + esc_attr(name) + "\">\n"@ + o + "</section>\n"@, s1)
        },
        BlockV::HtmlBlock(h) => (sanitize_v(h), st),
        BlockV::Component { name, attrs, body } => r_component(name, attrs, body, cx, st),
    }
}

/// A component: nothing for an unsafe name, `bib` or `ai-policy`; a native
/// `<figure>` for `figure`; otherwise an `alt-<name>` element around its fallback.
pub open spec fn r_component(name: Seq<char>, attrs: AttrsV, body: BodyV, cx: Ctx, st: RenderState) -> (Seq<char>, RenderState)
    decreases body,
{
    if !safe_name(name) {
        (Seq::empty(), st)
    } else if name == "figure"@ {
        let k = fig_kind_v(attrs);
        let f = fig_bump(st.figs, k);
        let s1 = RenderState { cursor: st.cursor, figs: f };
        let (kids, s2) = match body {
            BodyV::Children(c) => r_blocks(c, cx, s1),
            BodyV::Raw(_) => (Seq::empty(), s1),
        };
        (figure_html(attrs, k, fig_count(f, k), kids), s2)
    } else if name == "bib"@ || name == "ai-policy"@ {
        (Seq::empty(), st)
    } else {
        let (kids, s2) = match body {
            BodyV::Children(c) => r_blocks(c, cx, st),
            BodyV::Raw(_) => (Seq::empty(), st),
        };
        (
            "<alt-"@ + name + attrs_html(attrs) + ">"@ + fallback_html(name, attrs, body, cx, kids)
                + "</alt-"@ + name + ">\n"@,
            if shows_children(name) {
                s2
            } else {
                st
            },
        )
    }
}

/// The HTML of a component's block children and the state after them.
pub open spec fn kids_v(body: BodyV, cx: Ctx, st: RenderState) -> (Seq<char>, RenderState) {
    match body {
        BodyV::Children(c) => r_blocks(c, cx, st),
        BodyV::Raw(_) => (Seq::empty(), st),
    }
}

/// Append the HTML of a block sequence.
pub fn render_blocks(bs: &Vec<Block>, cx: &RenderCtx, st: &mut RenderState, out: &mut String)
    ensures
        final(out)@ == old(out)@ + r_blocks(blocks_v(bs@), cx@, *old(st)).0,
        *final(st) == r_blocks(blocks_v(bs@), cx@, *old(st)).1,
        blocks_clean(blocks_v(bs@)),
    decreases bs@, 0int,
{
    let ghost bv = blocks_v(bs@);
    let mut i: usize = 0;
    assert(bv.take(0) =~= Seq::<BlockV>::empty());
    assert(old(out)@ + Seq::<char>::empty() =~= old(out)@);
    while i < bs.len()
        invariant
            i <= bs@.len(),
            bv == blocks_v(bs@),
            out@ == old(out)@ + r_blocks(bv.take(i as int), cx@, *old(st)).0,
            *st == r_blocks(bv.take(i as int), cx@, *old(st)).1,
            blocks_clean(bv.take(i as int)),
        decreases bs.len() - i,
    {
        assert(bv.take(i + 1).drop_last() =~= bv.take(i as int));
        proof {
            crate::ast::lemma_blocks_v(bs@);
        }
        assert(bv[i as int] == bs@[i as int]@);
        render_block(&bs[i], cx, st, out);
        assert(out@ =~= old(out)@ + r_blocks(bv.take(i + 1), cx@, *old(st)).0);
        i = i + 1;
    }
    assert(bv.take(bv.len() as int) =~= bv);
}

fn render_item_blocks(bs: &Vec<Block>, tight: bool, cx: &RenderCtx, st: &mut RenderState, out: &mut String)
    ensures
        final(out)@ == old(out)@ + r_item_blocks(blocks_v(bs@), tight, cx@, *old(st)).0,
        *final(st) == r_item_blocks(blocks_v(bs@), tight, cx@, *old(st)).1,
        blocks_clean(blocks_v(bs@)),
    decreases bs@, 0int,
{
    let ghost bv = blocks_v(bs@);
    let mut i: usize = 0;
    assert(bv.take(0) =~= Seq::<BlockV>::empty());
    assert(old(out)@ + Seq::<char>::empty() =~= old(out)@);
    while i < bs.len()
        invariant
            i <= bs@.len(),
            bv == blocks_v(bs@),
            out@ == old(out)@ + r_item_blocks(bv.take(i as int), tight, cx@, *old(st)).0,
            *st == r_item_blocks(bv.take(i as int), tight, cx@, *old(st)).1,
            blocks_clean(bv.take(i as int)),
        decreases bs.len() - i,
    {
        assert(bv.take(i + 1).drop_last() =~= bv.take(i as int));
        proof {
            crate::ast::lemma_blocks_v(bs@);
        }
        assert(bv[i as int] == bs@[i as int]@);
        let ghost o = out@;
        if tight {
            match &bs[i] {
                Block::Paragraph(c) => {
                    render_inlines(c, cx, out);
                    assert(block_clean(bv[i as int]));
                },
                _ => render_block(&bs[i], cx, st, out),
            }
        } else {
            render_block(&bs[i], cx, st, out);
        }
        assert(out@ =~= old(out)@ + r_item_blocks(bv.take(i + 1), tight, cx@, *old(st)).0);
        i = i + 1;
    }
    assert(bv.take(bv.len() as int) =~= bv);
}

fn render_items(items: &Vec<ListItem>, tight: bool, cx: &RenderCtx, st: &mut RenderState, out: &mut String)
    ensures
        final(out)@ == old(out)@ + r_items(items_v(items@), tight, cx@, *old(st)).0,
        *final(st) == r_items(items_v(items@), tight, cx@, *old(st)).1,
        items_clean(items_v(items@)),
    decreases items@, 0int,
{
    let ghost iv = items_v(items@);
    let mut i: usize = 0;
    assert(iv.take(0) =~= Seq::<ItemV>::empty());
    assert(old(out)@ + Seq::<char>::empty() =~= old(out)@);
    while i < items.len()
        invariant
            i <= items@.len(),
            iv == items_v(items@),
            out@ == old(out)@ + r_items(iv.take(i as int), tight, cx@, *old(st)).0,
            *st == r_items(iv.take(i as int), tight, cx@, *old(st)).1,
            items_clean(iv.take(i as int)),
        decreases items.len() - i,
    {
        assert(iv.take(i + 1).drop_last() =~= iv.take(i as int));
        proof {
            crate::ast::lemma_items_v(items@);
        }
        let item = &items[i];
        match item.task {
            Some(true) => {
                out.append("<li class=\"task-list-item\">");
                out.append("<input type=\"checkbox\" checked disabled /> ");
            },
            Some(false) => {
                out.append("<li class=\"task-list-item\">");
                out.append("<input type=\"checkbox\" disabled /> ");
            },
            None => out.append("<li>"),
        }
        render_item_blocks(&item.blocks, tight, cx, st, out);
        out.append("</li>\n");
        assert(out@ =~= old(out)@ + r_items(iv.take(i + 1), tight, cx@, *old(st)).0);
        i = i + 1;
    }
    assert(iv.take(iv.len() as int) =~= iv);
}

#[verifier::spinoff_prover]
fn render_block(b: &Block, cx: &RenderCtx, st: &mut RenderState, out: &mut String)
    ensures
        final(out)@ == old(out)@ + r_block(b@, cx@, *old(st)).0,
        *final(st) == r_block(b@, cx@, *old(st)).1,
        block_clean(b@),
    decreases b, 0int,
{
    let ghost o = out@;
    match b {
        Block::Heading { level, content } => {
            let l = clamp(*level);
            let cur = st.cursor;
            if cur < cx.heads.len() {
                out.append("<h");
                push_dec(out, l as u64);
                out.append(" id=\"");
                push_escaped_attr(out, cx.heads[cur].slug.as_str());
                out.append("\">");
                assert(cx@.heads[cur as int] == cx.heads@[cur as int]@);
            } else {
                out.append("<h");
                push_dec(out, l as u64);
                out.append(">");
            }
            if cur < usize::MAX {
                st.cursor = cur + 1;
            }
            render_inlines(content, cx, out);
            out.append("</h");
            push_dec(out, l as u64);
            out.append(">\n");
            assert(out@ =~= o + r_block(b@, cx@, *old(st)).0);
        },
        Block::Paragraph(c) => {
            out.append("<p>");
            render_inlines(c, cx, out);
            out.append("</p>\n");
            assert(out@ =~= o + r_block(b@, cx@, *old(st)).0);
        },
        Block::BlockQuote(c) => {
            out.append("<blockquote>\n");
            render_blocks(c, cx, st, out);
            out.append("</blockquote>\n");
            assert(out@ =~= o + r_block(b@, cx@, *old(st)).0);
        },
        Block::List(l) => {
            if l.ordered && l.start != 1 {
                out.append("<ol start=\"");
                push_dec(out, l.start as u64);
                out.append("\">\n");
            } else if l.ordered {
                out.append("<ol>\n");
            } else {
                out.append("<ul>\n");
            }
            render_items(&l.items, l.tight, cx, st, out);
            if l.ordered {
                out.append("</ol>\n");
            } else {
                out.append("</ul>\n");
            }
            assert(out@ =~= o + r_block(b@, cx@, *old(st)).0);
        },
        Block::CodeBlock { info, literal } => render_code(info, literal, out),
        Block::ThematicBreak => out.append("<hr />\n"),
        Block::Table(t) => render_table(t, cx, out),
        Block::FootnoteDefinition { name, blocks } => {
            out.append("<section class=\"footnote\" id=\"fn-");
            push_escaped_attr(out, name.as_str());
            out.append("\">\n");
            render_blocks(blocks, cx, st, out);
            out.append("</section>\n");
            assert(out@ =~= o + r_block(b@, cx@, *old(st)).0);
        },
        Block::HtmlBlock(h) => {
            let s = sanitize(h.as_str());
            out.append(s.as_str());
        },
        Block::Component(c) => render_component(c, cx, st, out),
    }
}

fn render_children(body: &ComponentBody, cx: &RenderCtx, st: &mut RenderState, out: &mut String)
    ensures
        final(out)@ == old(out)@ + kids_v(body_v(*body), cx@, *old(st)).0,
        *final(st) == kids_v(body_v(*body), cx@, *old(st)).1,
        body_v(*body) matches BodyV::Children(k) ==> blocks_clean(k),
    decreases body, 0int,
{
    match body {
        ComponentBody::Children(k) => render_blocks(k, cx, st, out),
        ComponentBody::Raw(_) => {
            assert(old(out)@ + Seq::<char>::empty() =~= old(out)@);
        },
    }
}

#[verifier::spinoff_prover]
#[verifier::rlimit(40)]
fn render_figure(c: &Component, cx: &RenderCtx, st: &mut RenderState, out: &mut String)
    requires
        c.name@ == "figure"@,
        safe_name(c.name@),
    ensures
        final(out)@ == old(out)@ + r_component(c.name@, c.attrs@, body_v(c.body), cx@, *old(st)).0,
        *final(st) == r_component(c.name@, c.attrs@, body_v(c.body), cx@, *old(st)).1,
        kids_clean(c.name@, body_v(c.body)),
    decreases c, 1int,
{
    let ghost o = out@;
    let ghost s0 = *st;
    let k = figure_kind(&c.attrs);
    let n = st.figs.bump(k);
    assert(*st == RenderState { cursor: s0.cursor, figs: fig_bump(s0.figs, k) });
    out.append("<figure");
    push_id_attr(out, &c.attrs.id);
    out.append(">\n");
    render_children(&c.body, cx, st, out);
    out.append("<figcaption><span class=\"alt-figlabel\">");
    push_fig_prefix(out, k);
    out.append(" ");
    push_dec(out, n);
    out.append("</span>");
    match c.attrs.get("caption") {
        Some(cap) => {
            out.append(": ");
            push_escaped(out, cap);
        },
        None => {},
    }
    out.append("</figcaption>\n</figure>\n");
    let ghost kids = kids_v(body_v(c.body), cx@, RenderState { cursor: s0.cursor, figs: fig_bump(s0.figs, k) });
    assert(out@ =~= o + figure_html(c.attrs@, k, n, kids.0));
    assert(r_component(c.name@, c.attrs@, body_v(c.body), cx@, s0).0 == figure_html(c.attrs@, k, n, kids.0));
}

#[verifier::spinoff_prover]
fn render_component(c: &Component, cx: &RenderCtx, st: &mut RenderState, out: &mut String)
    ensures
        final(out)@ == old(out)@ + r_component(c.name@, c.attrs@, body_v(c.body), cx@, *old(st)).0,
        *final(st) == r_component(c.name@, c.attrs@, body_v(c.body), cx@, *old(st)).1,
        kids_clean(c.name@, body_v(c.body)),
    decreases c, 3int,
{
    let ghost o = out@;
    let name = c.name.as_str();
    if !is_safe_name(name) {
        assert(o + Seq::<char>::empty() =~= o);
        return;
    }
    proof {
        reveal_strlit("figure");
        reveal_strlit("bib");
        reveal_strlit("ai-policy");
    }
    if str_eq(name, "figure") {
        render_figure(c, cx, st, out);
        return;
    }
    if str_eq(name, "bib") || str_eq(name, "ai-policy") {
        assert(o + Seq::<char>::empty() =~= o);
        return;
    }
    out.append("<alt-");
    out.append(name);
    render_attrs(&c.attrs, out);
    out.append(">");
    render_fallback(c, cx, st, out);
    out.append("</alt-");
    out.append(name);
    out.append(">\n");
    assert(out@ =~= o + r_component(c.name@, c.attrs@, body_v(c.body), cx@, *old(st)).0);
}

/// Append a component's static fallback.
#[verifier::spinoff_prover]
fn render_fallback(c: &Component, cx: &RenderCtx, st: &mut RenderState, out: &mut String)
    ensures
        final(out)@ == old(out)@ + fallback_html(
            c.name@,
            c.attrs@,
            body_v(c.body),
            cx@,
            kids_v(body_v(c.body), cx@, *old(st)).0,
        ),
        *final(st) == if shows_children(c.name@) {
            kids_v(body_v(c.body), cx@, *old(st)).1
        } else {
            *old(st)
        },
        shows_children(c.name@) ==> kids_clean(c.name@, body_v(c.body)),
    decreases c, 2int,
{
    let ghost o = out@;
    let name = c.name.as_str();
    if str_eq(name, "callout") {
        let kind = attr_or(&c.attrs, "type", "note");
        out.append("<aside class=\"alt-callout alt-callout-");
        push_class_suffix(out, kind);
        out.append("\" role=\"note\">\n");
        render_children(&c.body, cx, st, out);
        out.append("</aside>");
    } else if str_eq(name, "accordion") {
        let title = attr_or(&c.attrs, "title", "Details");
        out.append("<details><summary>");
        push_escaped(out, title);
        out.append("</summary>\n");
        render_children(&c.body, cx, st, out);
        out.append("</details>");
    } else if str_eq(name, "tabs") {
        out.append("<div class=\"");
        out.append("alt-tabs");
        out.append("\">\n");
        render_children(&c.body, cx, st, out);
        out.append("</div>");
    } else if str_eq(name, "tab") {
        let title = attr_or(&c.attrs, "title", "Tab");
        out.append("<section class=\"alt-tab\"><h3>");
        push_escaped(out, title);
        out.append("</h3>\n");
        render_children(&c.body, cx, st, out);
        out.append("</section>");
    } else if str_eq(name, "columns") || str_eq(name, "column") {
        out.append("<div class=\"");
        out.append("alt-stack");
        out.append("\">\n");
        render_children(&c.body, cx, st, out);
        out.append("</div>");
    } else if str_eq(name, "chart") || str_eq(name, "table") {
        match &c.body {
            ComponentBody::Raw(r) => render_csv_table(r, out),
            ComponentBody::Children(_) => {},
        }
    } else if str_eq(name, "math") {
        render_math(&c.body, out);
    } else if str_eq(name, "embed") {
        render_embed(&c.attrs, out);
    } else if str_eq(name, "toc") {
        render_toc(cx, out);
    } else if str_eq(name, "references") {
        render_references(cx, out);
    } else if str_eq(name, "include") {
        render_include(&c.attrs, out);
    } else {
        match &c.body {
            ComponentBody::Children(_) => {
                out.append("\n");
                render_children(&c.body, cx, st, out);
            },
            ComponentBody::Raw(r) => {
                out.append("<pre>");
                push_escaped(out, r.as_str());
                out.append("</pre>");
            },
        }
    }
    assert(out@ =~= o + fallback_html(
        c.name@,
        c.attrs@,
        body_v(c.body),
        cx@,
        kids_v(body_v(c.body), cx@, *old(st)).0,
    ));
}

/// What rendering reads of a finished pre-pass.
pub open spec fn ctx_of(p: PreV) -> Ctx {
    Ctx { heads: p.heads, labels: p.labels, bib: p.bib, cited: cited_of(p.cites, p.bib) }
}

pub open spec fn start_state() -> RenderState {
    RenderState { cursor: 0, figs: FigCounts { figure: 0, table: 0, listing: 0 } }
}

/// The HTML of a document: a pre-pass over the whole document collects the
/// headings, labels, citations and bibliography, then the blocks are rendered
/// in order against what it collected.
pub open spec fn render_v(doc: Seq<BlockV>) -> Seq<char> {
    r_blocks(doc, ctx_of(pre_blocks(doc, pre_empty())), start_state()).0
}

/// Render a [`Document`] to an HTML string.
pub fn render_document(document: &Document) -> (r: String)
    ensures
        r@ == render_v(document@),
        !opens_element(r@, "script"@),
        !opens_element(r@, "iframe"@),
        lex(r@, Lex::Text) == Some(Lex::Text),
{
    let mut pre = Prepass::new();
    collect_labels(&document.blocks, &mut pre);
    let ghost pv = pre@;
    let Prepass { heads, anchors: _, labels, figs: _, cites, bib } = pre;
    let ghost cv = strs_v(cites@);
    let mut cited: Vec<String> = Vec::new();
    let mut i: usize = 0;
    assert(cv.take(0) =~= Seq::<Seq<char>>::empty());
    assert(strs_v(cited@) =~= Seq::<Seq<char>>::empty());
    while i < cites.len()
        invariant
            i <= cites@.len(),
            cv == strs_v(cites@),
            strs_v(cited@) == cited_of(cv.take(i as int), pairs_v(bib@)),
        decreases cites.len() - i,
    {
        assert(cv.take(i + 1).drop_last() =~= cv.take(i as int));
        let ghost before = strs_v(cited@);
        if find_first(&bib, &cites[i]).is_some() {
            cited.push(cites[i].clone());
            assert(strs_v(cited@) =~= before.push(cv[i as int]));
        }
        i = i + 1;
    }
    assert(cv.take(cv.len() as int) =~= cv);
    let cx = RenderCtx { heads, labels, bib, cited };
    assert(cx@ == ctx_of(pv));
    let mut st = RenderState { cursor: 0, figs: FigCounts::zero() };
    let mut out = String::new();
    render_blocks(&document.blocks, &cx, &mut st, &mut out);
    assert(out@ =~= render_v(document@));
    proof {
        crate::inert::law_no_script_or_frame(document@);
        crate::inert::law_no_event_handlers(document@);
    }
    out
}

/// No key occurs twice.
pub open spec fn no_dups(s: Seq<Seq<char>>) -> bool {
    forall|i: int, j: int| 0 <= i < j < s.len() ==> #[trigger] s[i] != #[trigger] s[j]
}

proof fn lemma_push_no_dups(s: Seq<Seq<char>>, x: Seq<char>)
    requires
        no_dups(s),
        !s.contains(x),
    ensures
        no_dups(s.push(x)),
{
    assert forall|i: int, j: int| 0 <= i < j < s.push(x).len() implies #[trigger] s.push(x)[i]
        != #[trigger] s.push(x)[j] by {
        if j == s.len() {
            assert(s.push(x)[i] == s[i]);
        } else {
            assert(s.push(x)[i] == s[i] && s.push(x)[j] == s[j]);
        }
    }
}

proof fn lemma_cites_inlines(s: Seq<InlineV>, acc: Seq<Seq<char>>)
    requires
        no_dups(acc),
    ensures
        no_dups(crate::prepass::cites_inlines(s, acc)),
    decreases s,
{
    if s.len() > 0 {
        lemma_cites_inlines(s.drop_last(), acc);
        lemma_cites_inline(s.last(), crate::prepass::cites_inlines(s.drop_last(), acc));
    }
}

proof fn lemma_cites_inline(i: InlineV, acc: Seq<Seq<char>>)
    requires
        no_dups(acc),
    ensures
        no_dups(crate::prepass::cites_inline(i, acc)),
    decreases i,
{
    match i {
        InlineV::Citation(k) => {
            if !acc.contains(k) {
                lemma_push_no_dups(acc, k);
            }
        },
        InlineV::Emphasis(c) => lemma_cites_inlines(c, acc),
        InlineV::Strong(c) => lemma_cites_inlines(c, acc),
        InlineV::Strikethrough(c) => lemma_cites_inlines(c, acc),
        InlineV::Link { content, .. } => lemma_cites_inlines(content, acc),
        _ => {},
    }
}

proof fn lemma_cites_cells(s: Seq<Seq<InlineV>>, acc: Seq<Seq<char>>)
    requires
        no_dups(acc),
    ensures
        no_dups(crate::prepass::cites_cells(s, acc)),
    decreases s.len(),
{
    if s.len() > 0 {
        lemma_cites_cells(s.drop_last(), acc);
        lemma_cites_inlines(s.last(), crate::prepass::cites_cells(s.drop_last(), acc));
    }
}

proof fn lemma_cites_rows(s: Seq<Seq<Seq<InlineV>>>, acc: Seq<Seq<char>>)
    requires
        no_dups(acc),
    ensures
        no_dups(crate::prepass::cites_rows(s, acc)),
    decreases s.len(),
{
    if s.len() > 0 {
        lemma_cites_rows(s.drop_last(), acc);
        lemma_cites_cells(s.last(), crate::prepass::cites_rows(s.drop_last(), acc));
    }
}

proof fn lemma_pre_blocks_cites(bs: Seq<BlockV>, p: PreV)
    requires
        no_dups(p.cites),
    ensures
        no_dups(pre_blocks(bs, p).cites),
    decreases bs,
{
    if bs.len() > 0 {
        lemma_pre_blocks_cites(bs.drop_last(), p);
        lemma_pre_block_cites(bs.last(), pre_blocks(bs.drop_last(), p));
    }
}

proof fn lemma_pre_items_cites(items: Seq<ItemV>, p: PreV)
    requires
        no_dups(p.cites),
    ensures
        no_dups(crate::prepass::pre_items(items, p).cites),
    decreases items,
{
    if items.len() > 0 {
        lemma_pre_items_cites(items.drop_last(), p);
        lemma_pre_blocks_cites(items.last().blocks, crate::prepass::pre_items(items.drop_last(), p));
    }
}

proof fn lemma_pre_block_cites(b: BlockV, p: PreV)
    requires
        no_dups(p.cites),
    ensures
        no_dups(crate::prepass::pre_block(b, p).cites),
    decreases b,
{
    match b {
        BlockV::Heading { level, content } => lemma_cites_inlines(content, p.cites),
        BlockV::Paragraph(c) => lemma_cites_inlines(c, p.cites),
        BlockV::Table { header, rows, .. } => {
            lemma_cites_cells(header, p.cites);
            lemma_cites_rows(rows, crate::prepass::cites_cells(header, p.cites));
        },
        BlockV::Component { name, attrs, body } => {
            match body {
                BodyV::Children(c) => {
                    lemma_pre_blocks_cites(c, p);
                    lemma_pre_blocks_cites(c, crate::prepass::pre_figure(attrs, p));
                },
                BodyV::Raw(_) => {},
            }
        },
        BlockV::BlockQuote(c) => lemma_pre_blocks_cites(c, p),
        BlockV::List { items, .. } => lemma_pre_items_cites(items, p),
        BlockV::FootnoteDefinition { blocks, .. } => lemma_pre_blocks_cites(blocks, p),
        _ => {},
    }
}

proof fn lemma_cited_of(cites: Seq<Seq<char>>, bib: Seq<(Seq<char>, Seq<char>)>)
    requires
        no_dups(cites),
    ensures
        no_dups(cited_of(cites, bib)),
        forall|k: int| 0 <= k < cited_of(cites, bib).len() ==> cites.contains(#[trigger] cited_of(cites, bib)[k]),
    decreases cites.len(),
{
    if cites.len() > 0 {
        let d = cites.drop_last();
        assert forall|i: int, j: int| 0 <= i < j < d.len() implies #[trigger] d[i] != #[trigger] d[j] by {
            assert(d[i] == cites[i] && d[j] == cites[j]);
        }
        lemma_cited_of(d, bib);
        let c = cited_of(d, bib);
        assert forall|k: int| 0 <= k < c.len() implies cites.contains(#[trigger] c[k]) by {
            let m = choose|m: int| 0 <= m < d.len() && d[m] == c[k];
            assert(cites[m] == d[m]);
        }
        if first_value(bib, cites.last()) is Some {
            if c.contains(cites.last()) {
                let k = choose|k: int| 0 <= k < c.len() && c[k] == cites.last();
                let m = choose|m: int| 0 <= m < d.len() && d[m] == c[k];
                assert(cites[m] == cites[cites.len() - 1]);
            }
            lemma_push_no_dups(c, cites.last());
            let r = c.push(cites.last());
            assert forall|k: int| 0 <= k < r.len() implies cites.contains(#[trigger] r[k]) by {
                if k < c.len() {
                    assert(r[k] == c[k]);
                } else {
                    assert(r[k] == cites[cites.len() - 1]);
                }
            }
        }
    }
}

proof fn lemma_pos_of(s: Seq<Seq<char>>, k: int)
    requires
        no_dups(s),
        0 <= k < s.len(),
    ensures
        pos_of(s, s[k]) == Some(k as nat),
    decreases k,
{
    if k > 0 {
        let d = s.drop_first();
        assert forall|i: int, j: int| 0 <= i < j < d.len() implies #[trigger] d[i] != #[trigger] d[j] by {
            assert(d[i] == s[i + 1] && d[j] == s[j + 1]);
        }
        assert(d[k - 1] == s[k]);
        lemma_pos_of(d, k - 1);
        assert(s[0] != s[k]);
    }
}

/// Citations are numbered by first appearance, and the reference list agrees:
/// the cited key at position `k` of the list shows the number `k + 1`, and no
/// key is listed twice.
pub proof fn law_citation_numbers(doc: Seq<BlockV>)
    ensures
        no_dups(ctx_of(pre_blocks(doc, pre_empty())).cited),
        forall|k: int|
            0 <= k < ctx_of(pre_blocks(doc, pre_empty())).cited.len() ==> pos_of(
                ctx_of(pre_blocks(doc, pre_empty())).cited,
                #[trigger] ctx_of(pre_blocks(doc, pre_empty())).cited[k],
            ) == Some(k as nat),
{
    let p = pre_blocks(doc, pre_empty());
    lemma_pre_blocks_cites(doc, pre_empty());
    lemma_cited_of(p.cites, p.bib);
    let c = ctx_of(p).cited;
    assert forall|k: int| 0 <= k < c.len() implies pos_of(c, #[trigger] c[k]) == Some(k as nat) by {
        lemma_pos_of(c, k);
    }
}

/// Whether the renderer shows a component's block children: the pre-pass
/// walks exactly these, so that what it counts is what the render walk reaches.
pub open spec fn renders_children(name: Seq<char>) -> bool {
    safe_name(name) && (name == "figure"@ || (name != "bib"@ && name != "ai-policy"@ && shows_children(name)))
}

/// Whether the renderer shows the block children of a component named `name`.
pub fn shows_block_children(name: &str) -> (r: bool)
    ensures
        r == renders_children(name@),
{
    proof {
        reveal_strlit("figure");
        reveal_strlit("bib");
        reveal_strlit("ai-policy");
        reveal_strlit("callout");
        reveal_strlit("accordion");
        reveal_strlit("tabs");
        reveal_strlit("tab");
        reveal_strlit("columns");
        reveal_strlit("column");
        reveal_strlit("chart");
        reveal_strlit("table");
        reveal_strlit("math");
        reveal_strlit("embed");
        reveal_strlit("toc");
        reveal_strlit("references");
        reveal_strlit("include");
    }
    if !is_safe_name(name) {
        return false;
    }
    if str_eq(name, "figure") {
        return true;
    }
    if str_eq(name, "bib") || str_eq(name, "ai-policy") {
        return false;
    }
    let hidden = str_eq(name, "chart") || str_eq(name, "table") || str_eq(name, "math") || str_eq(name, "embed")
        || str_eq(name, "toc") || str_eq(name, "references") || str_eq(name, "include");
    proof {
        let n = name@;
        if hidden {
            assert(n.len() == 3 ==> n[1] == 'o');
            assert(n.len() == 4 ==> n[0] == 'm');
            assert(n.len() == 7 ==> n[0] == 'i');
            assert(n.len() != 6 && n.len() != 9);
            assert(!shows_children(n));
        } else {
            assert(shows_children(n));
        }
    }
    !hidden
}

proof fn lemma_pre_heads_grow_blocks(bs: Seq<BlockV>, p: PreV)
    ensures
        pre_blocks(bs, p).heads.len() >= p.heads.len(),
    decreases bs,
{
    if bs.len() > 0 {
        lemma_pre_heads_grow_blocks(bs.drop_last(), p);
        lemma_pre_heads_grow_block(bs.last(), pre_blocks(bs.drop_last(), p));
    }
}

proof fn lemma_pre_heads_grow_items(items: Seq<ItemV>, p: PreV)
    ensures
        crate::prepass::pre_items(items, p).heads.len() >= p.heads.len(),
    decreases items,
{
    if items.len() > 0 {
        lemma_pre_heads_grow_items(items.drop_last(), p);
        lemma_pre_heads_grow_blocks(items.last().blocks, crate::prepass::pre_items(items.drop_last(), p));
    }
}

proof fn lemma_pre_heads_grow_block(b: BlockV, p: PreV)
    ensures
        crate::prepass::pre_block(b, p).heads.len() >= p.heads.len(),
    decreases b,
{
    match b {
        BlockV::Component { name, attrs, body } => match body {
            BodyV::Children(c) => {
                lemma_pre_heads_grow_blocks(c, p);
                lemma_pre_heads_grow_blocks(c, crate::prepass::pre_figure(attrs, p));
            },
            BodyV::Raw(_) => {},
        },
        BlockV::BlockQuote(c) => lemma_pre_heads_grow_blocks(c, p),
        BlockV::List { items, .. } => lemma_pre_heads_grow_items(items, p),
        BlockV::FootnoteDefinition { blocks, .. } => lemma_pre_heads_grow_blocks(blocks, p),
        _ => {},
    }
}

/// The render walk advances its heading cursor and its figure counters in step
/// with the pre-pass: starting from the same count of headings and figures, it
/// ends with the same counts, whatever the blocks. So a heading is rendered with the anchor the pre-pass gave it, and a figure's
/// caption shows the number that a cross-reference to it shows.
pub proof fn law_render_walk_in_step(bs: Seq<BlockV>, cx: Ctx, st: RenderState, p: PreV)
    requires
        st.figs == p.figs,
        st.cursor == p.heads.len(),
        pre_blocks(bs, p).heads.len() < usize::MAX,
    ensures
        r_blocks(bs, cx, st).1.figs == pre_blocks(bs, p).figs,
        r_blocks(bs, cx, st).1.cursor == pre_blocks(bs, p).heads.len(),
    decreases bs,
{
    if bs.len() > 0 {
        lemma_pre_heads_grow_block(bs.last(), pre_blocks(bs.drop_last(), p));
        law_render_walk_in_step(bs.drop_last(), cx, st, p);
        let s1 = r_blocks(bs.drop_last(), cx, st).1;
        let p1 = pre_blocks(bs.drop_last(), p);
        lemma_block_in_step(bs.last(), cx, s1, p1);
    }
}

/// A heading is rendered with the anchor of the pre-pass heading at the
/// cursor, and moves the cursor on by one (stopping at the largest `usize`);
/// the figure counts stay as they are. With the walk kept in step, the heading
/// rendered `k`-th carries the anchor the pre-pass gave the `k`-th heading.
pub proof fn law_heading_takes_its_anchor(level: u8, content: Seq<InlineV>, cx: Ctx, st: RenderState)
    requires
        st.cursor < cx.heads.len(),
    ensures
        r_block(BlockV::Heading { level, content }, cx, st).0 == "<h"@ + dec(clamp_level(level) as nat)
            + " id=\""@ + esc_attr(cx.heads[st.cursor as int].slug) + "\">"@ + r_inlines(content, cx) + "</h"@
            + dec(clamp_level(level) as nat) + ">\n"@,
        r_block(BlockV::Heading { level, content }, cx, st).1.cursor == sat_usize(st.cursor),
        r_block(BlockV::Heading { level, content }, cx, st).1.figs == st.figs,
{
}

proof fn lemma_items_in_step(items: Seq<ItemV>, tight: bool, cx: Ctx, st: RenderState, p: PreV)
    requires
        st.figs == p.figs,
        st.cursor == p.heads.len(),
        crate::prepass::pre_items(items, p).heads.len() < usize::MAX,
    ensures
        r_items(items, tight, cx, st).1.figs == crate::prepass::pre_items(items, p).figs,
        r_items(items, tight, cx, st).1.cursor == crate::prepass::pre_items(items, p).heads.len(),
    decreases items,
{
    if items.len() > 0 {
        let p1 = crate::prepass::pre_items(items.drop_last(), p);
        lemma_pre_heads_grow_blocks(items.last().blocks, p1);
        lemma_items_in_step(items.drop_last(), tight, cx, st, p);
        let s1 = r_items(items.drop_last(), tight, cx, st).1;
        lemma_item_blocks_in_step(items.last().blocks, tight, cx, s1, p1);
    }
}

proof fn lemma_item_blocks_in_step(bs: Seq<BlockV>, tight: bool, cx: Ctx, st: RenderState, p: PreV)
    requires
        st.figs == p.figs,
        st.cursor == p.heads.len(),
        pre_blocks(bs, p).heads.len() < usize::MAX,
    ensures
        r_item_blocks(bs, tight, cx, st).1.figs == pre_blocks(bs, p).figs,
        r_item_blocks(bs, tight, cx, st).1.cursor == pre_blocks(bs, p).heads.len(),
    decreases bs,
{
    if bs.len() > 0 {
        lemma_pre_heads_grow_block(bs.last(), pre_blocks(bs.drop_last(), p));
        lemma_item_blocks_in_step(bs.drop_last(), tight, cx, st, p);
        let s1 = r_item_blocks(bs.drop_last(), tight, cx, st).1;
        let p1 = pre_blocks(bs.drop_last(), p);
        lemma_block_in_step(bs.last(), cx, s1, p1);
    }
}

proof fn lemma_block_in_step(b: BlockV, cx: Ctx, st: RenderState, p: PreV)
    requires
        st.figs == p.figs,
        st.cursor == p.heads.len(),
        crate::prepass::pre_block(b, p).heads.len() < usize::MAX,
    ensures
        r_block(b, cx, st).1.figs == crate::prepass::pre_block(b, p).figs,
        r_block(b, cx, st).1.cursor == crate::prepass::pre_block(b, p).heads.len(),
    decreases b,
{
    match b {
        BlockV::BlockQuote(c) => law_render_walk_in_step(c, cx, st, p),
        BlockV::List { items, tight, .. } => lemma_items_in_step(items, tight, cx, st, p),
        BlockV::FootnoteDefinition { blocks, .. } => law_render_walk_in_step(blocks, cx, st, p),
        BlockV::Component { name, attrs, body } => {
            reveal_strlit("figure");
            reveal_strlit("bib");
            reveal_strlit("ai-policy");
            if renders_children(name) {
                if name == "figure"@ {
                    let k = fig_kind_v(attrs);
                    let s1 = RenderState { cursor: st.cursor, figs: fig_bump(st.figs, k) };
                    match body {
                        BodyV::Children(c) => law_render_walk_in_step(
                            c,
                            cx,
                            s1,
                            crate::prepass::pre_figure(attrs, p),
                        ),
                        BodyV::Raw(_) => {},
                    }
                } else {
                    match body {
                        BodyV::Children(c) => law_render_walk_in_step(c, cx, st, p),
                        BodyV::Raw(_) => {},
                    }
                }
            }
        },
        _ => {},
    }
}


/// Each inline kind renders to its own HTML element around the HTML of its
/// content: emphasis to `<em>`, strong emphasis to `<strong>`, strikethrough to
/// `<del>`, code to `<code>` around its escaped text, a link to `<a href>` with
/// its filtered, escaped destination, an image to `<img>`, a hard break to
/// `<br />`; text renders escaped and a soft break as a line break.
pub proof fn law_inline_elements(c: Seq<InlineV>, t: Seq<char>, url: Seq<char>, title: Seq<char>, cx: Ctx)
    ensures
        r_inline(InlineV::Emphasis(c), cx) == "<em>"@ + r_inlines(c, cx) + "</em>"@,
        r_inline(InlineV::Strong(c), cx) == "<strong>"@ + r_inlines(c, cx) + "</strong>"@,
        r_inline(InlineV::Strikethrough(c), cx) == "<del>"@ + r_inlines(c, cx) + "</del>"@,
        r_inline(InlineV::Code(t), cx) == "<code>"@ + esc(t) + "</code>"@,
        r_inline(InlineV::Text(t), cx) == esc(t),
        r_inline(InlineV::Link { url, title, content: c }, cx) == "<a href=\""@ + esc_attr(safe_url_v(url))
            + "\""@ + title_attr(title) + ">"@ + r_inlines(c, cx) + "</a>"@,
        r_inline(InlineV::Image { url, title, alt: c }, cx) == "<img src=\""@ + esc_attr(safe_url_v(url))
            + "\" alt=\""@ + esc_attr(text_inlines(c)) + "\""@ + title_attr(title) + " />"@,
        r_inline(InlineV::HardBreak, cx) == "<br />\n"@,
        r_inline(InlineV::SoftBreak, cx) == "\n"@,
        r_inline(InlineV::HtmlInline(t), cx) == sanitize_v(t),
{
}

/// The HTML of two inline runs one after the other is the HTML of the first
/// followed by that of the second: nothing is dropped, added or reordered.
pub proof fn law_inlines_concat(s: Seq<InlineV>, u: Seq<InlineV>, cx: Ctx)
    ensures
        r_inlines(s + u, cx) == r_inlines(s, cx) + r_inlines(u, cx),
    decreases u.len(),
{
    if u.len() == 0 {
        assert(s + u =~= s);
        assert(r_inlines(s, cx) + Seq::<char>::empty() =~= r_inlines(s, cx));
    } else {
        law_inlines_concat(s, u.drop_last(), cx);
        assert((s + u).drop_last() =~= s + u.drop_last());
        assert((s + u).last() == u.last());
        assert(r_inlines(s + u, cx) =~= r_inlines(s, cx) + r_inlines(u, cx));
    }
}

/// Each block kind renders to its own HTML element: a paragraph to `<p>`, a
/// block quote to `<blockquote>`, a thematic break to `<hr />`, a footnote
/// definition to a `<section>` anchored at its name, raw HTML to what the
/// sanitiser makes of it; a heading to `<hN>` with its level kept within 1..6.
pub proof fn law_block_elements(c: Seq<InlineV>, bs: Seq<BlockV>, name: Seq<char>, h: Seq<char>, level: u8, cx: Ctx, st: RenderState)
    ensures
        r_block(BlockV::Paragraph(c), cx, st) == ("<p>"@ + r_inlines(c, cx) + "</p>\n"@, st),
        r_block(BlockV::BlockQuote(bs), cx, st) == (
            "<blockquote>\n"@ + r_blocks(bs, cx, st).0 + "</blockquote>\n"@,
            r_blocks(bs, cx, st).1,
        ),
        r_block(BlockV::ThematicBreak, cx, st) == ("<hr />\n"@, st),
        r_block(BlockV::FootnoteDefinition { name, blocks: bs }, cx, st).0 == "<section class=\"footnote\" id=\"fn-"@
            + esc_attr(name) + "\">\n"@ + r_blocks(bs, cx, st).0 + "</section>\n"@,
        r_block(BlockV::HtmlBlock(h), cx, st) == (sanitize_v(h), st),
        r_block(BlockV::Heading { level, content: c }, cx, st).0 == heading_open(clamp_level(level), cx, st.cursor)
            + r_inlines(c, cx) + "</h"@ + dec(clamp_level(level) as nat) + ">\n"@,
        1 <= clamp_level(level) <= 6,
        1 <= level <= 6 ==> clamp_level(level) == level,
{
}


/// Lists, items, tables, code blocks, cross-references, citations and
/// components render to their own markup: an ordered list to `<ol>` (with
/// `start` when it does not start at 1), a bullet list to `<ul>`, an item to
/// `<li>` (with a disabled checkbox for a task), a header cell to `<th>` and a
/// body cell to `<td>`, a code block to `<pre><code>` with its language class,
/// a resolved cross-reference to a link to its label showing the label's text,
/// an unresolved one to its literal text, and a component with a safe name
/// other than `figure`, `bib` and `ai-policy` to an `alt-<name>` element around
/// its fallback.
pub proof fn law_structure_elements(
    ordered: bool,
    start: u32,
    tight: bool,
    items: Seq<ItemV>,
    task: Option<bool>,
    cell: Seq<InlineV>,
    aligns: Seq<Alignment>,
    info: Seq<char>,
    literal: Seq<char>,
    t: Seq<char>,
    name: Seq<char>,
    attrs: AttrsV,
    body: BodyV,
    cx: Ctx,
    st: RenderState,
)
    ensures
        r_block(BlockV::List { ordered, start, tight, items }, cx, st).0 == list_open(ordered, start) + r_items(
            items,
            tight,
            cx,
            st,
        ).0 + list_close(ordered),
        list_open(true, 1) == "<ol>\n"@,
        start != 1 ==> list_open(true, start) == "<ol start=\""@ + dec(start as nat) + "\">\n"@,
        list_open(false, start) == "<ul>\n"@,
        list_close(true) == "</ol>\n"@,
        list_close(false) == "</ul>\n"@,
        item_open(None) == "<li>"@,
        item_open(Some(true)) == "<li class=\"task-list-item\">"@ + "<input type=\"checkbox\" checked disabled /> "@,
        item_open(Some(false)) == "<li class=\"task-list-item\">"@ + "<input type=\"checkbox\" disabled /> "@,
        cells_html(seq![cell], aligns, true, cx) == Seq::<char>::empty() + ("<th"@ + align_style(aligns, 0) + ">"@
            + r_inlines(cell, cx) + "</th>\n"@),
        cells_html(seq![cell], aligns, false, cx) == Seq::<char>::empty() + ("<td"@ + align_style(aligns, 0) + ">"@
            + r_inlines(cell, cx) + "</td>\n"@),
        crate::decode::first_word(info).len() == 0 ==> code_html(info, literal) == "<pre><code>"@ + esc(literal)
            + "</code></pre>\n"@,
        crate::decode::first_word(info).len() > 0 ==> code_html(info, literal) == "<pre><code class=\"language-"@
            + esc_attr(crate::decode::first_word(info)) + "\">"@ + esc(literal) + "</code></pre>\n"@,
        last_value(cx.labels, t) matches Some(text) ==> r_inline(InlineV::CrossRef(t), cx)
            == "<a class=\"alt-xref\" href=\"#"@ + esc_attr(t) + "\">"@ + esc(text) + "</a>"@,
        last_value(cx.labels, t) is None ==> r_inline(InlineV::CrossRef(t), cx) == "[#"@ + esc(t) + "]"@,
        pos_of(cx.cited, t) matches Some(n) ==> r_inline(InlineV::Citation(t), cx)
            == "<a class=\"alt-cite\" href=\"#ref-"@ + esc_attr(t) + "\">["@ + dec(n + 1) + "]</a>"@,
        (safe_name(name) && name != "figure"@ && name != "bib"@ && name != "ai-policy"@) ==> r_component(
            name,
            attrs,
            body,
            cx,
            st,
        ).0 == "<alt-"@ + name + attrs_html(attrs) + ">"@ + fallback_html(
            name,
            attrs,
            body,
            cx,
            kids_v(body, cx, st).0,
        ) + "</alt-"@ + name + ">\n"@,
        !safe_name(name) ==> r_component(name, attrs, body, cx, st).0 == Seq::<char>::empty(),
{
    let one = seq![cell];
    assert(one.drop_last() =~= Seq::<Seq<InlineV>>::empty());
    assert(one.last() == cell);
    assert(one.len() - 1 == 0);
    assert(cells_html(one.drop_last(), aligns, true, cx) == Seq::<char>::empty());
    assert(cells_html(one.drop_last(), aligns, false, cx) == Seq::<char>::empty());
    assert(cells_html(one, aligns, true, cx) == cells_html(one.drop_last(), aligns, true, cx) + ("<th"@
        + align_style(aligns, 0) + ">"@ + r_inlines(cell, cx) + "</th>\n"@));
    assert(cells_html(one, aligns, false, cx) == cells_html(one.drop_last(), aligns, false, cx) + ("<td"@
        + align_style(aligns, 0) + ">"@ + r_inlines(cell, cx) + "</td>\n"@));
}

} // verus!
