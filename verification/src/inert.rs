//! What rendered HTML cannot hold. The renderer's own markup never opens a
//! `script` or an `iframe` element, in any letter case, and never begins an
//! event-handler attribute (a name starting with `on`) inside a tag; so a
//! rendered document holds either only where the sanitiser's output for its
//! raw HTML does.
use vstd::prelude::*;
use crate::ast::{AttrsV, BlockV, BodyV, InlineV, ItemV, first_value};
use crate::html::{class_chars, class_suffix, dec, esc, esc_attr, law_escaped_attr_inert, law_escaped_text_inert, lemma_dec_len, safe_name};
use crate::prepass::{fig_prefix, FigKind, HeadV};
use crate::render::{
    Ctx, Fallback, RenderState, align_style, attrs_html, cells_html, cite_html, code_html, csv_cell,
    csv_cells, csv_html, csv_rows, embed_html, fallback_html, fallback_of, figure_html, heading_open,
    id_attr, include_html, item_open, list_close, list_open, math_html, pairs_html, r_block, r_blocks,
    r_component, r_inline, r_inlines, r_item_blocks, r_items, refs_html, refs_items, render_v, rows_html,
    renders_children, shows_children,
    table_html, title_attr, toc_html, toc_items, wrap_html, xref_html, clamp_level,
};
use crate::sanitize::sanitize_v;
use crate::text::{lower, split_on};

verus! {

/// Whether the two characters after a `<` spell `sc` or `if`, in either case:
/// the start of a `script` or an `iframe` element.
pub open spec fn opens_script_or_frame(a: char, b: char) -> bool {
    ((a == 's' || a == 'S') && (b == 'c' || b == 'C')) || ((a == 'i' || a == 'I') && (b == 'f' || b == 'F'))
}

/// Every `<` in `s` is followed, within `s`, by two characters that start
/// neither a `script` nor an `iframe` element.
pub open spec fn tags_plain(s: Seq<char>) -> bool {
    forall|i: int|
        0 <= i < s.len() && #[trigger] s[i] == '<' ==> i + 2 < s.len() && !opens_script_or_frame(
            s[i + 1],
            s[i + 2],
        )
}

/// `tags_plain`, checked one character at a time from index `k` on.
pub open spec fn plain_from(s: Seq<char>, k: int) -> bool
    decreases s.len() - k,
{
    if k < 0 || k >= s.len() {
        true
    } else {
        (s[k] == '<' ==> k + 2 < s.len() && !opens_script_or_frame(s[k + 1], s[k + 2])) && plain_from(s, k + 1)
    }
}

/// Whether `s` holds `<` followed by `name`, compared in ASCII lower case.
pub open spec fn opens_element(s: Seq<char>, name: Seq<char>) -> bool {
    exists|i: int|
        0 <= i && i + name.len() < s.len() && #[trigger] s[i] == '<' && forall|j: int|
            0 <= j < name.len() ==> lower(s[i + 1 + j]) == name[j]
}

proof fn lemma_plain_from(s: Seq<char>, k: int)
    requires
        0 <= k,
        plain_from(s, k),
    ensures
        forall|i: int|
            k <= i < s.len() && #[trigger] s[i] == '<' ==> i + 2 < s.len() && !opens_script_or_frame(
                s[i + 1],
                s[i + 2],
            ),
    decreases s.len() - k,
{
    if k < s.len() {
        lemma_plain_from(s, k + 1);
    }
}

proof fn lemma_lit(s: Seq<char>)
    requires
        plain_from(s, 0),
    ensures
        tags_plain(s),
{
    lemma_plain_from(s, 0);
}

/// Markup whose every `<` opens neither element stays so when joined.
pub broadcast proof fn lemma_plain_concat(a: Seq<char>, b: Seq<char>)
    requires
        tags_plain(a),
        tags_plain(b),
    ensures
        #[trigger] tags_plain(a + b),
{
    let s = a + b;
    assert forall|i: int| 0 <= i < s.len() && #[trigger] s[i] == '<' implies i + 2 < s.len()
        && !opens_script_or_frame(s[i + 1], s[i + 2]) by {
        if i < a.len() {
            assert(s[i] == a[i]);
            assert(s[i + 1] == a[i + 1] && s[i + 2] == a[i + 2]);
        } else {
            let j = i - a.len();
            assert(s[i] == b[j]);
            assert(s[i + 1] == b[j + 1] && s[i + 2] == b[j + 2]);
        }
    }
}

proof fn lemma_no_lt(s: Seq<char>)
    requires
        forall|k: int| 0 <= k < s.len() ==> #[trigger] s[k] != '<',
    ensures
        tags_plain(s),
{
}

proof fn lemma_esc(s: Seq<char>)
    ensures
        tags_plain(esc(s)),
        tags_plain(esc_attr(s)),
{
    law_escaped_text_inert(s);
    law_escaped_attr_inert(s);
}

proof fn lemma_dec(n: nat)
    ensures
        forall|k: int| 0 <= k < dec(n).len() ==> #[trigger] dec(n)[k] != '<',
        tags_plain(dec(n)),
    decreases n,
{
    if n >= 10 {
        lemma_dec(n / 10);
        let d = dec(n);
        assert forall|k: int| 0 <= k < d.len() implies #[trigger] d[k] != '<' by {
            if k < dec(n / 10).len() {
                assert(d[k] == dec(n / 10)[k]);
            }
        }
    }
}

/// `<h` and a number: the start of a heading tag.
proof fn lemma_h_dec(n: nat)
    ensures
        tags_plain("<h"@ + dec(n)),
{
    reveal_strlit("<h");
    lemma_dec(n);
    lemma_dec_len(n);
    let s = "<h"@ + dec(n);
    assert forall|i: int| 0 <= i < s.len() && #[trigger] s[i] == '<' implies i + 2 < s.len()
        && !opens_script_or_frame(s[i + 1], s[i + 2]) by {
        if i >= 2 {
            assert(s[i] == dec(n)[i - 2]);
        } else if i == 1 {
            assert(s[1] == 'h');
        } else {
            assert(s[1] == 'h');
        }
    }
}

proof fn lemma_safe_name(s: Seq<char>)
    requires
        safe_name(s),
    ensures
        tags_plain(s),
{
    assert forall|k: int| 0 <= k < s.len() implies #[trigger] s[k] != '<' by {
        assert(crate::text::is_ascii_lower(s[k]) || crate::text::is_ascii_digit(s[k]) || s[k] == '-');
    }
}

proof fn lemma_class_suffix(s: Seq<char>)
    ensures
        tags_plain(class_suffix(s)),
    decreases s.len(),
{
    broadcast use lemma_plain_concat;

    lemma_class_chars(s);
    assert(tags_plain("default"@)) by {
        reveal_strlit("default");
        reveal_with_fuel(plain_from, 9);
        lemma_lit("default"@);
    }
}

proof fn lemma_class_chars(s: Seq<char>)
    ensures
        forall|k: int| 0 <= k < class_chars(s).len() ==> #[trigger] class_chars(s)[k] != '<',
    decreases s.len(),
{
    if s.len() > 0 {
        lemma_class_chars(s.drop_last());
        let c = class_chars(s);
        let p = class_chars(s.drop_last());
        assert forall|k: int| 0 <= k < c.len() implies #[trigger] c[k] != '<' by {
            if k < p.len() {
                assert(c[k] == p[k]);
            }
        }
    }
}

proof fn lemma_title_attr(t: Seq<char>)
    ensures
        tags_plain(title_attr(t)),
{
    broadcast use lemma_plain_concat;

    lemma_esc(t);
    assert(tags_plain(" title=\""@)) by {
        reveal_strlit(" title=\"");
        reveal_with_fuel(plain_from, 10);
        lemma_lit(" title=\""@);
    }
    assert(tags_plain("\""@)) by {
        reveal_strlit("\"");
        reveal_with_fuel(plain_from, 3);
        lemma_lit("\""@);
    }
}

proof fn lemma_xref(t: Seq<char>, cx: Ctx)
    ensures
        tags_plain(xref_html(t, cx)),
{
    broadcast use lemma_plain_concat;

    lemma_esc(t);
    match crate::render::last_value(cx.labels, t) {
        Some(text) => lemma_esc(text),
        None => {},
    }
    assert(tags_plain("<a class=\"alt-xref\" href=\"#"@)) by {
        reveal_strlit("<a class=\"alt-xref\" href=\"#");
        reveal_with_fuel(plain_from, 29);
        lemma_lit("<a class=\"alt-xref\" href=\"#"@);
    }
    assert(tags_plain("\">"@)) by {
        reveal_strlit("\">");
        reveal_with_fuel(plain_from, 4);
        lemma_lit("\">"@);
    }
    assert(tags_plain("</a>"@)) by {
        reveal_strlit("</a>");
        reveal_with_fuel(plain_from, 6);
        lemma_lit("</a>"@);
    }
    assert(tags_plain("[#"@)) by {
        reveal_strlit("[#");
        reveal_with_fuel(plain_from, 4);
        lemma_lit("[#"@);
    }
    assert(tags_plain("]"@)) by {
        reveal_strlit("]");
        reveal_with_fuel(plain_from, 3);
        lemma_lit("]"@);
    }
}

proof fn lemma_cite(k: Seq<char>, cx: Ctx)
    ensures
        tags_plain(cite_html(k, cx)),
{
    broadcast use lemma_plain_concat;

    lemma_esc(k);
    match crate::render::pos_of(cx.cited, k) {
        Some(n) => lemma_dec(n + 1),
        None => {},
    }
    assert(tags_plain("<a class=\"alt-cite\" href=\"#ref-"@)) by {
        reveal_strlit("<a class=\"alt-cite\" href=\"#ref-");
        reveal_with_fuel(plain_from, 33);
        lemma_lit("<a class=\"alt-cite\" href=\"#ref-"@);
    }
    assert(tags_plain("\">["@)) by {
        reveal_strlit("\">[");
        reveal_with_fuel(plain_from, 5);
        lemma_lit("\">["@);
    }
    assert(tags_plain("]</a>"@)) by {
        reveal_strlit("]</a>");
        reveal_with_fuel(plain_from, 7);
        lemma_lit("]</a>"@);
    }
    assert(tags_plain("[@"@)) by {
        reveal_strlit("[@");
        reveal_with_fuel(plain_from, 4);
        lemma_lit("[@"@);
    }
    assert(tags_plain("]"@)) by {
        reveal_strlit("]");
        reveal_with_fuel(plain_from, 3);
        lemma_lit("]"@);
    }
}

proof fn lemma_inlines(s: Seq<InlineV>, cx: Ctx)
    requires
        inlines_clean(s),
    ensures
        tags_plain(r_inlines(s, cx)),
    decreases s,
{
    broadcast use lemma_plain_concat;

    if s.len() > 0 {
        lemma_inlines(s.drop_last(), cx);
        lemma_inline(s.last(), cx);
    }
}

#[verifier::spinoff_prover]
proof fn lemma_inline(i: InlineV, cx: Ctx)
    requires
        inline_clean(i),
    ensures
        tags_plain(r_inline(i, cx)),
    decreases i,
{
    broadcast use lemma_plain_concat;

    match i {
        InlineV::Text(t) => lemma_esc(t),
        InlineV::Emphasis(c) => {
            lemma_inlines(c, cx);
            assert(tags_plain("<em>"@)) by {
                reveal_strlit("<em>");
                reveal_with_fuel(plain_from, 6);
                lemma_lit("<em>"@);
            }
            assert(tags_plain("</em>"@)) by {
                reveal_strlit("</em>");
                reveal_with_fuel(plain_from, 7);
                lemma_lit("</em>"@);
            }
        },
        InlineV::Strong(c) => {
            lemma_inlines(c, cx);
            assert(tags_plain("<strong>"@)) by {
                reveal_strlit("<strong>");
                reveal_with_fuel(plain_from, 10);
                lemma_lit("<strong>"@);
            }
            assert(tags_plain("</strong>"@)) by {
                reveal_strlit("</strong>");
                reveal_with_fuel(plain_from, 11);
                lemma_lit("</strong>"@);
            }
        },
        InlineV::Strikethrough(c) => {
            lemma_inlines(c, cx);
            assert(tags_plain("<del>"@)) by {
                reveal_strlit("<del>");
                reveal_with_fuel(plain_from, 7);
                lemma_lit("<del>"@);
            }
            assert(tags_plain("</del>"@)) by {
                reveal_strlit("</del>");
                reveal_with_fuel(plain_from, 8);
                lemma_lit("</del>"@);
            }
        },
        InlineV::CrossRef(t) => lemma_xref(t, cx),
        InlineV::Citation(k) => lemma_cite(k, cx),
        InlineV::FootnoteReference(n) => {
            lemma_esc(n);
            assert(tags_plain("<sup class=\"footnote-ref\"><a href=\"#fn-"@)) by {
                reveal_strlit("<sup class=\"footnote-ref\"><a href=\"#fn-");
                reveal_with_fuel(plain_from, 41);
                lemma_lit("<sup class=\"footnote-ref\"><a href=\"#fn-"@);
            }
            assert(tags_plain("\">"@)) by {
                reveal_strlit("\">");
                reveal_with_fuel(plain_from, 4);
                lemma_lit("\">"@);
            }
            assert(tags_plain("</a></sup>"@)) by {
                reveal_strlit("</a></sup>");
                reveal_with_fuel(plain_from, 12);
                lemma_lit("</a></sup>"@);
            }
        },
        InlineV::Code(t) => {
            lemma_esc(t);
            assert(tags_plain("<code>"@)) by {
                reveal_strlit("<code>");
                reveal_with_fuel(plain_from, 8);
                lemma_lit("<code>"@);
            }
            assert(tags_plain("</code>"@)) by {
                reveal_strlit("</code>");
                reveal_with_fuel(plain_from, 9);
                lemma_lit("</code>"@);
            }
        },
        InlineV::Link { url, title, content } => {
            lemma_esc(crate::html::safe_url_v(url));
            lemma_title_attr(title);
            lemma_inlines(content, cx);
            assert(tags_plain("<a href=\""@)) by {
                reveal_strlit("<a href=\"");
                reveal_with_fuel(plain_from, 11);
                lemma_lit("<a href=\""@);
            }
            assert(tags_plain("\""@)) by {
                reveal_strlit("\"");
                reveal_with_fuel(plain_from, 3);
                lemma_lit("\""@);
            }
            assert(tags_plain(">"@)) by {
                reveal_strlit(">");
                reveal_with_fuel(plain_from, 3);
                lemma_lit(">"@);
            }
            assert(tags_plain("</a>"@)) by {
                reveal_strlit("</a>");
                reveal_with_fuel(plain_from, 6);
                lemma_lit("</a>"@);
            }
        },
        InlineV::Image { url, title, alt } => {
            lemma_esc(crate::html::safe_url_v(url));
            lemma_esc(crate::prepass::text_inlines(alt));
            lemma_title_attr(title);
            assert(tags_plain("<img src=\""@)) by {
                reveal_strlit("<img src=\"");
                reveal_with_fuel(plain_from, 12);
                lemma_lit("<img src=\""@);
            }
            assert(tags_plain("\" alt=\""@)) by {
                reveal_strlit("\" alt=\"");
                reveal_with_fuel(plain_from, 9);
                lemma_lit("\" alt=\""@);
            }
            assert(tags_plain("\""@)) by {
                reveal_strlit("\"");
                reveal_with_fuel(plain_from, 3);
                lemma_lit("\""@);
            }
            assert(tags_plain(" />"@)) by {
                reveal_strlit(" />");
                reveal_with_fuel(plain_from, 5);
                lemma_lit(" />"@);
            }
        },
        InlineV::SoftBreak => {
            assert(tags_plain("\n"@)) by {
                reveal_strlit("\n");
                reveal_with_fuel(plain_from, 3);
                lemma_lit("\n"@);
            }
        },
        InlineV::HardBreak => {
            assert(tags_plain("<br />\n"@)) by {
                reveal_strlit("<br />\n");
                reveal_with_fuel(plain_from, 9);
                lemma_lit("<br />\n"@);
            }
        },
        InlineV::HtmlInline(h) => {
            assert(tags_plain(sanitize_v(h)));
        },
    }
}


proof fn lemma_align(aligns: Seq<crate::ast::Alignment>, col: int)
    ensures
        tags_plain(align_style(aligns, col)),
{
    broadcast use lemma_plain_concat;

    assert(tags_plain(" style=\"text-align:left\""@)) by {
        reveal_strlit(" style=\"text-align:left\"");
        reveal_with_fuel(plain_from, 26);
        lemma_lit(" style=\"text-align:left\""@);
    }
    assert(tags_plain(" style=\"text-align:center\""@)) by {
        reveal_strlit(" style=\"text-align:center\"");
        reveal_with_fuel(plain_from, 28);
        lemma_lit(" style=\"text-align:center\""@);
    }
    assert(tags_plain(" style=\"text-align:right\""@)) by {
        reveal_strlit(" style=\"text-align:right\"");
        reveal_with_fuel(plain_from, 27);
        lemma_lit(" style=\"text-align:right\""@);
    }
}

proof fn lemma_cells(cells: Seq<Seq<InlineV>>, aligns: Seq<crate::ast::Alignment>, th: bool, cx: Ctx)
    requires
        cells_clean(cells),
    ensures
        tags_plain(cells_html(cells, aligns, th, cx)),
    decreases cells.len(),
{
    broadcast use lemma_plain_concat;

    if cells.len() > 0 {
        lemma_cells(cells.drop_last(), aligns, th, cx);
        lemma_align(aligns, cells.len() - 1);
        lemma_inlines(cells.last(), cx);
        assert(tags_plain("<th"@)) by {
            reveal_strlit("<th");
            reveal_with_fuel(plain_from, 5);
            lemma_lit("<th"@);
        }
        assert(tags_plain(">"@)) by {
            reveal_strlit(">");
            reveal_with_fuel(plain_from, 3);
            lemma_lit(">"@);
        }
        assert(tags_plain("</th>\n"@)) by {
            reveal_strlit("</th>\n");
            reveal_with_fuel(plain_from, 8);
            lemma_lit("</th>\n"@);
        }
        assert(tags_plain("<td"@)) by {
            reveal_strlit("<td");
            reveal_with_fuel(plain_from, 5);
            lemma_lit("<td"@);
        }
        assert(tags_plain("</td>\n"@)) by {
            reveal_strlit("</td>\n");
            reveal_with_fuel(plain_from, 8);
            lemma_lit("</td>\n"@);
        }
    }
}

proof fn lemma_rows(rows: Seq<Seq<Seq<InlineV>>>, aligns: Seq<crate::ast::Alignment>, cx: Ctx)
    requires
        rows_clean(rows),
    ensures
        tags_plain(rows_html(rows, aligns, cx)),
    decreases rows.len(),
{
    broadcast use lemma_plain_concat;

    if rows.len() > 0 {
        lemma_rows(rows.drop_last(), aligns, cx);
        lemma_cells(rows.last(), aligns, false, cx);
        assert(tags_plain("<tr>\n"@)) by {
            reveal_strlit("<tr>\n");
            reveal_with_fuel(plain_from, 7);
            lemma_lit("<tr>\n"@);
        }
        assert(tags_plain("</tr>\n"@)) by {
            reveal_strlit("</tr>\n");
            reveal_with_fuel(plain_from, 8);
            lemma_lit("</tr>\n"@);
        }
    }
}

proof fn lemma_table(
    aligns: Seq<crate::ast::Alignment>,
    header: Seq<Seq<InlineV>>,
    rows: Seq<Seq<Seq<InlineV>>>,
    cx: Ctx,
)
    requires
        cells_clean(header),
        rows_clean(rows),
    ensures
        tags_plain(table_html(aligns, header, rows, cx)),
{
    broadcast use lemma_plain_concat;

    lemma_cells(header, aligns, true, cx);
    lemma_rows(rows, aligns, cx);
    assert(tags_plain("<table>\n<thead>\n<tr>\n"@)) by {
        reveal_strlit("<table>\n<thead>\n<tr>\n");
        reveal_with_fuel(plain_from, 23);
        lemma_lit("<table>\n<thead>\n<tr>\n"@);
    }
    assert(tags_plain("</tr>\n</thead>\n"@)) by {
        reveal_strlit("</tr>\n</thead>\n");
        reveal_with_fuel(plain_from, 17);
        lemma_lit("</tr>\n</thead>\n"@);
    }
    assert(tags_plain("<tbody>\n"@)) by {
        reveal_strlit("<tbody>\n");
        reveal_with_fuel(plain_from, 10);
        lemma_lit("<tbody>\n"@);
    }
    assert(tags_plain("</tbody>\n"@)) by {
        reveal_strlit("</tbody>\n");
        reveal_with_fuel(plain_from, 11);
        lemma_lit("</tbody>\n"@);
    }
    assert(tags_plain("</table>\n"@)) by {
        reveal_strlit("</table>\n");
        reveal_with_fuel(plain_from, 11);
        lemma_lit("</table>\n"@);
    }
}

proof fn lemma_code(info: Seq<char>, literal: Seq<char>)
    ensures
        tags_plain(code_html(info, literal)),
{
    broadcast use lemma_plain_concat;

    lemma_esc(crate::decode::first_word(info));
    lemma_esc(literal);
    assert(tags_plain("<pre><code>"@)) by {
        reveal_strlit("<pre><code>");
        reveal_with_fuel(plain_from, 13);
        lemma_lit("<pre><code>"@);
    }
    assert(tags_plain("<pre><code class=\"language-"@)) by {
        reveal_strlit("<pre><code class=\"language-");
        reveal_with_fuel(plain_from, 29);
        lemma_lit("<pre><code class=\"language-"@);
    }
    assert(tags_plain("\">"@)) by {
        reveal_strlit("\">");
        reveal_with_fuel(plain_from, 4);
        lemma_lit("\">"@);
    }
    assert(tags_plain("</code></pre>\n"@)) by {
        reveal_strlit("</code></pre>\n");
        reveal_with_fuel(plain_from, 16);
        lemma_lit("</code></pre>\n"@);
    }
}

proof fn lemma_id_attr(id: Option<Seq<char>>)
    ensures
        tags_plain(id_attr(id)),
{
    broadcast use lemma_plain_concat;

    match id {
        Some(i) => lemma_esc(i),
        None => {},
    }
    assert(tags_plain(" id=\""@)) by {
        reveal_strlit(" id=\"");
        reveal_with_fuel(plain_from, 7);
        lemma_lit(" id=\""@);
    }
    assert(tags_plain("\""@)) by {
        reveal_strlit("\"");
        reveal_with_fuel(plain_from, 3);
        lemma_lit("\""@);
    }
}

proof fn lemma_pairs(ps: Seq<(Seq<char>, Seq<char>)>)
    ensures
        tags_plain(pairs_html(ps)),
    decreases ps.len(),
{
    broadcast use lemma_plain_concat;

    if ps.len() > 0 {
        lemma_pairs(ps.drop_last());
        if safe_name(ps.last().0) {
            lemma_safe_name(ps.last().0);
        }
        lemma_esc(ps.last().1);
        assert(tags_plain(" data-"@)) by {
            reveal_strlit(" data-");
            reveal_with_fuel(plain_from, 8);
            lemma_lit(" data-"@);
        }
        assert(tags_plain("=\""@)) by {
            reveal_strlit("=\"");
            reveal_with_fuel(plain_from, 4);
            lemma_lit("=\""@);
        }
        assert(tags_plain("\""@)) by {
            reveal_strlit("\"");
            reveal_with_fuel(plain_from, 3);
            lemma_lit("\""@);
        }
    }
}

proof fn lemma_attrs(a: AttrsV)
    ensures
        tags_plain(attrs_html(a)),
{
    broadcast use lemma_plain_concat;

    lemma_id_attr(a.id);
    lemma_esc(crate::render::join_sp(a.classes));
    lemma_pairs(a.pairs);
    assert(tags_plain(" class=\""@)) by {
        reveal_strlit(" class=\"");
        reveal_with_fuel(plain_from, 10);
        lemma_lit(" class=\""@);
    }
    assert(tags_plain("\""@)) by {
        reveal_strlit("\"");
        reveal_with_fuel(plain_from, 3);
        lemma_lit("\""@);
    }
}

proof fn lemma_csv_cells(cells: Seq<Seq<char>>, th: bool)
    ensures
        tags_plain(csv_cells(cells, th)),
    decreases cells.len(),
{
    broadcast use lemma_plain_concat;

    if cells.len() > 0 {
        lemma_csv_cells(cells.drop_last(), th);
        lemma_esc(crate::text::trim(cells.last()));
        assert(tags_plain("<th>"@)) by {
            reveal_strlit("<th>");
            reveal_with_fuel(plain_from, 6);
            lemma_lit("<th>"@);
        }
        assert(tags_plain("</th>"@)) by {
            reveal_strlit("</th>");
            reveal_with_fuel(plain_from, 7);
            lemma_lit("</th>"@);
        }
        assert(tags_plain("<td>"@)) by {
            reveal_strlit("<td>");
            reveal_with_fuel(plain_from, 6);
            lemma_lit("<td>"@);
        }
        assert(tags_plain("</td>"@)) by {
            reveal_strlit("</td>");
            reveal_with_fuel(plain_from, 7);
            lemma_lit("</td>"@);
        }
    }
}

proof fn lemma_csv_rows(rows: Seq<Seq<char>>)
    ensures
        tags_plain(csv_rows(rows)),
    decreases rows.len(),
{
    broadcast use lemma_plain_concat;

    if rows.len() > 0 {
        lemma_csv_rows(rows.drop_last());
        lemma_csv_cells(crate::text::split_on(rows.last(), ','), false);
        assert(tags_plain("<tr>"@)) by {
            reveal_strlit("<tr>");
            reveal_with_fuel(plain_from, 6);
            lemma_lit("<tr>"@);
        }
        assert(tags_plain("</tr>"@)) by {
            reveal_strlit("</tr>");
            reveal_with_fuel(plain_from, 7);
            lemma_lit("</tr>"@);
        }
    }
}

proof fn lemma_csv(raw: Seq<char>)
    ensures
        tags_plain(csv_html(raw)),
{
    broadcast use lemma_plain_concat;

    let rows = crate::render::nonblank(crate::text::lines(raw));
    if rows.len() > 0 {
        lemma_csv_cells(crate::text::split_on(rows[0], ','), true);
        lemma_csv_rows(rows.drop_first());
    }
    assert(tags_plain("<table>"@)) by {
        reveal_strlit("<table>");
        reveal_with_fuel(plain_from, 9);
        lemma_lit("<table>"@);
    }
    assert(tags_plain("<thead><tr>"@)) by {
        reveal_strlit("<thead><tr>");
        reveal_with_fuel(plain_from, 13);
        lemma_lit("<thead><tr>"@);
    }
    assert(tags_plain("</tr></thead>"@)) by {
        reveal_strlit("</tr></thead>");
        reveal_with_fuel(plain_from, 15);
        lemma_lit("</tr></thead>"@);
    }
    assert(tags_plain("<tbody>"@)) by {
        reveal_strlit("<tbody>");
        reveal_with_fuel(plain_from, 9);
        lemma_lit("<tbody>"@);
    }
    assert(tags_plain("</tbody></table>"@)) by {
        reveal_strlit("</tbody></table>");
        reveal_with_fuel(plain_from, 18);
        lemma_lit("</tbody></table>"@);
    }
}

proof fn lemma_toc_items(heads: Seq<HeadV>)
    ensures
        tags_plain(toc_items(heads)),
    decreases heads.len(),
{
    broadcast use lemma_plain_concat;

    if heads.len() > 0 {
        lemma_toc_items(heads.drop_last());
        let h = heads.last();
        lemma_dec(clamp_level(h.level) as nat);
        lemma_esc(h.slug);
        lemma_esc(h.text);
        assert(tags_plain("<li class=\"alt-toc-l"@)) by {
            reveal_strlit("<li class=\"alt-toc-l");
            reveal_with_fuel(plain_from, 22);
            lemma_lit("<li class=\"alt-toc-l"@);
        }
        assert(tags_plain("\"><a href=\"#"@)) by {
            reveal_strlit("\"><a href=\"#");
            reveal_with_fuel(plain_from, 14);
            lemma_lit("\"><a href=\"#"@);
        }
        assert(tags_plain("\">"@)) by {
            reveal_strlit("\">");
            reveal_with_fuel(plain_from, 4);
            lemma_lit("\">"@);
        }
        assert(tags_plain("</a></li>\n"@)) by {
            reveal_strlit("</a></li>\n");
            reveal_with_fuel(plain_from, 12);
            lemma_lit("</a></li>\n"@);
        }
    }
}

proof fn lemma_toc(heads: Seq<HeadV>)
    ensures
        tags_plain(toc_html(heads)),
{
    broadcast use lemma_plain_concat;

    lemma_toc_items(heads);
    assert(tags_plain("<nav class=\"alt-toc\" aria-label=\"Table of contents\">"@)) by {
        reveal_strlit("<nav class=\"alt-toc\" aria-label=\"Table of contents\">");
        reveal_with_fuel(plain_from, 54);
        lemma_lit("<nav class=\"alt-toc\" aria-label=\"Table of contents\">"@);
    }
    assert(tags_plain("</nav>"@)) by {
        reveal_strlit("</nav>");
        reveal_with_fuel(plain_from, 8);
        lemma_lit("</nav>"@);
    }
    assert(tags_plain("\n<ul>\n"@)) by {
        reveal_strlit("\n<ul>\n");
        reveal_with_fuel(plain_from, 8);
        lemma_lit("\n<ul>\n"@);
    }
    assert(tags_plain("</ul>\n</nav>"@)) by {
        reveal_strlit("</ul>\n</nav>");
        reveal_with_fuel(plain_from, 14);
        lemma_lit("</ul>\n</nav>"@);
    }
}

proof fn lemma_refs_items(keys: Seq<Seq<char>>, bib: Seq<(Seq<char>, Seq<char>)>)
    ensures
        tags_plain(refs_items(keys, bib)),
    decreases keys.len(),
{
    broadcast use lemma_plain_concat;

    if keys.len() > 0 {
        lemma_refs_items(keys.drop_last(), bib);
        lemma_esc(keys.last());
        lemma_esc(crate::render::bib_text(bib, keys.last()));
        assert(tags_plain("\n<li id=\"ref-"@)) by {
            reveal_strlit("\n<li id=\"ref-");
            reveal_with_fuel(plain_from, 15);
            lemma_lit("\n<li id=\"ref-"@);
        }
        assert(tags_plain("\">"@)) by {
            reveal_strlit("\">");
            reveal_with_fuel(plain_from, 4);
            lemma_lit("\">"@);
        }
        assert(tags_plain("</li>"@)) by {
            reveal_strlit("</li>");
            reveal_with_fuel(plain_from, 7);
            lemma_lit("</li>"@);
        }
    }
}

proof fn lemma_refs(cx: Ctx)
    ensures
        tags_plain(refs_html(cx)),
{
    broadcast use lemma_plain_concat;

    lemma_refs_items(cx.cited, cx.bib);
    assert(tags_plain("<ol class=\"alt-references\">"@)) by {
        reveal_strlit("<ol class=\"alt-references\">");
        reveal_with_fuel(plain_from, 29);
        lemma_lit("<ol class=\"alt-references\">"@);
    }
    assert(tags_plain("\n</ol>"@)) by {
        reveal_strlit("\n</ol>");
        reveal_with_fuel(plain_from, 8);
        lemma_lit("\n</ol>"@);
    }
}

proof fn lemma_embed(src: Seq<char>)
    ensures
        tags_plain(embed_html(src)),
        tags_plain(include_html(src)),
{
    broadcast use lemma_plain_concat;

    lemma_esc(src);
    lemma_esc(crate::html::safe_url_v(src));
    assert(tags_plain("<a href=\""@)) by {
        reveal_strlit("<a href=\"");
        reveal_with_fuel(plain_from, 11);
        lemma_lit("<a href=\""@);
    }
    assert(tags_plain("\" rel=\"noopener noreferrer\">"@)) by {
        reveal_strlit("\" rel=\"noopener noreferrer\">");
        reveal_with_fuel(plain_from, 30);
        lemma_lit("\" rel=\"noopener noreferrer\">"@);
    }
    assert(tags_plain("</a>"@)) by {
        reveal_strlit("</a>");
        reveal_with_fuel(plain_from, 6);
        lemma_lit("</a>"@);
    }
    assert(tags_plain("<a class=\"alt-include\" href=\""@)) by {
        reveal_strlit("<a class=\"alt-include\" href=\"");
        reveal_with_fuel(plain_from, 31);
        lemma_lit("<a class=\"alt-include\" href=\""@);
    }
    assert(tags_plain("\">"@)) by {
        reveal_strlit("\">");
        reveal_with_fuel(plain_from, 4);
        lemma_lit("\">"@);
    }
}

proof fn lemma_math(body: BodyV)
    ensures
        tags_plain(math_html(body)),
{
    broadcast use lemma_plain_concat;

    match body {
        BodyV::Raw(r) => lemma_esc(crate::text::trim_end(r)),
        BodyV::Children(_) => {},
    }
    assert(tags_plain("<code class=\"alt-math\">"@)) by {
        reveal_strlit("<code class=\"alt-math\">");
        reveal_with_fuel(plain_from, 25);
        lemma_lit("<code class=\"alt-math\">"@);
    }
    assert(tags_plain("</code>"@)) by {
        reveal_strlit("</code>");
        reveal_with_fuel(plain_from, 9);
        lemma_lit("</code>"@);
    }
}

proof fn lemma_list(ordered: bool, start: u32)
    ensures
        tags_plain(list_open(ordered, start)),
        tags_plain(list_close(ordered)),
{
    broadcast use lemma_plain_concat;

    lemma_dec(start as nat);
    assert(tags_plain("<ol start=\""@)) by {
        reveal_strlit("<ol start=\"");
        reveal_with_fuel(plain_from, 13);
        lemma_lit("<ol start=\""@);
    }
    assert(tags_plain("\">\n"@)) by {
        reveal_strlit("\">\n");
        reveal_with_fuel(plain_from, 5);
        lemma_lit("\">\n"@);
    }
    assert(tags_plain("<ol>\n"@)) by {
        reveal_strlit("<ol>\n");
        reveal_with_fuel(plain_from, 7);
        lemma_lit("<ol>\n"@);
    }
    assert(tags_plain("<ul>\n"@)) by {
        reveal_strlit("<ul>\n");
        reveal_with_fuel(plain_from, 7);
        lemma_lit("<ul>\n"@);
    }
    assert(tags_plain("</ol>\n"@)) by {
        reveal_strlit("</ol>\n");
        reveal_with_fuel(plain_from, 8);
        lemma_lit("</ol>\n"@);
    }
    assert(tags_plain("</ul>\n"@)) by {
        reveal_strlit("</ul>\n");
        reveal_with_fuel(plain_from, 8);
        lemma_lit("</ul>\n"@);
    }
}

proof fn lemma_item_open(task: Option<bool>)
    ensures
        tags_plain(item_open(task)),
{
    broadcast use lemma_plain_concat;

    assert(tags_plain("<li class=\"task-list-item\">"@)) by {
        reveal_strlit("<li class=\"task-list-item\">");
        reveal_with_fuel(plain_from, 29);
        lemma_lit("<li class=\"task-list-item\">"@);
    }
    assert(tags_plain("<input type=\"checkbox\" checked disabled /> "@)) by {
        reveal_strlit("<input type=\"checkbox\" checked disabled /> ");
        reveal_with_fuel(plain_from, 45);
        lemma_lit("<input type=\"checkbox\" checked disabled /> "@);
    }
    assert(tags_plain("<input type=\"checkbox\" disabled /> "@)) by {
        reveal_strlit("<input type=\"checkbox\" disabled /> ");
        reveal_with_fuel(plain_from, 37);
        lemma_lit("<input type=\"checkbox\" disabled /> "@);
    }
    assert(tags_plain("<li>"@)) by {
        reveal_strlit("<li>");
        reveal_with_fuel(plain_from, 6);
        lemma_lit("<li>"@);
    }
}

proof fn lemma_heading_open(l: u8, cx: Ctx, cursor: usize)
    ensures
        tags_plain(heading_open(l, cx, cursor)),
{
    broadcast use lemma_plain_concat;

    lemma_h_dec(l as nat);
    if cursor < cx.heads.len() {
        lemma_esc(cx.heads[cursor as int].slug);
    }
    assert(tags_plain(" id=\""@)) by {
        reveal_strlit(" id=\"");
        reveal_with_fuel(plain_from, 7);
        lemma_lit(" id=\""@);
    }
    assert(tags_plain("\">"@)) by {
        reveal_strlit("\">");
        reveal_with_fuel(plain_from, 4);
        lemma_lit("\">"@);
    }
    assert(tags_plain(">"@)) by {
        reveal_strlit(">");
        reveal_with_fuel(plain_from, 3);
        lemma_lit(">"@);
    }
}

proof fn lemma_fig_prefix(k: FigKind)
    ensures
        tags_plain(fig_prefix(k)),
{
    broadcast use lemma_plain_concat;

    assert(tags_plain("Figure"@)) by {
        reveal_strlit("Figure");
        reveal_with_fuel(plain_from, 8);
        lemma_lit("Figure"@);
    }
    assert(tags_plain("Table"@)) by {
        reveal_strlit("Table");
        reveal_with_fuel(plain_from, 7);
        lemma_lit("Table"@);
    }
    assert(tags_plain("Listing"@)) by {
        reveal_strlit("Listing");
        reveal_with_fuel(plain_from, 9);
        lemma_lit("Listing"@);
    }
}

proof fn lemma_figure(attrs: AttrsV, k: FigKind, n: u64, kids: Seq<char>)
    requires
        tags_plain(kids),
    ensures
        tags_plain(figure_html(attrs, k, n, kids)),
{
    broadcast use lemma_plain_concat;

    lemma_id_attr(attrs.id);
    lemma_dec(n as nat);
    lemma_fig_prefix(k);
    match first_value(attrs.pairs, "caption"@) {
        Some(c) => lemma_esc(c),
        None => {},
    }
    assert(tags_plain("<figure"@)) by {
        reveal_strlit("<figure");
        reveal_with_fuel(plain_from, 9);
        lemma_lit("<figure"@);
    }
    assert(tags_plain(">\n"@)) by {
        reveal_strlit(">\n");
        reveal_with_fuel(plain_from, 4);
        lemma_lit(">\n"@);
    }
    assert(tags_plain("<figcaption><span class=\"alt-figlabel\">"@)) by {
        reveal_strlit("<figcaption><span class=\"alt-figlabel\">");
        reveal_with_fuel(plain_from, 41);
        lemma_lit("<figcaption><span class=\"alt-figlabel\">"@);
    }
    assert(tags_plain(" "@)) by {
        reveal_strlit(" ");
        reveal_with_fuel(plain_from, 3);
        lemma_lit(" "@);
    }
    assert(tags_plain("</span>"@)) by {
        reveal_strlit("</span>");
        reveal_with_fuel(plain_from, 9);
        lemma_lit("</span>"@);
    }
    assert(tags_plain(": "@)) by {
        reveal_strlit(": ");
        reveal_with_fuel(plain_from, 4);
        lemma_lit(": "@);
    }
    assert(tags_plain("</figcaption>\n</figure>\n"@)) by {
        reveal_strlit("</figcaption>\n</figure>\n");
        reveal_with_fuel(plain_from, 26);
        lemma_lit("</figcaption>\n</figure>\n"@);
    }
}

proof fn lemma_wrap(class: Seq<char>, kids: Seq<char>)
    requires
        tags_plain(class),
        tags_plain(kids),
    ensures
        tags_plain(wrap_html(class, kids)),
{
    broadcast use lemma_plain_concat;

    assert(tags_plain("<div class=\""@)) by {
        reveal_strlit("<div class=\"");
        reveal_with_fuel(plain_from, 14);
        lemma_lit("<div class=\""@);
    }
    assert(tags_plain("\">\n"@)) by {
        reveal_strlit("\">\n");
        reveal_with_fuel(plain_from, 5);
        lemma_lit("\">\n"@);
    }
    assert(tags_plain("</div>"@)) by {
        reveal_strlit("</div>");
        reveal_with_fuel(plain_from, 8);
        lemma_lit("</div>"@);
    }
}

#[verifier::spinoff_prover]
proof fn lemma_fallback(name: Seq<char>, attrs: AttrsV, body: BodyV, cx: Ctx, kids: Seq<char>)
    requires
        shows_children(name) ==> tags_plain(kids),
    ensures
        tags_plain(fallback_html(name, attrs, body, cx, kids)),
{
    broadcast use lemma_plain_concat;

    match fallback_of(name) {
        Fallback::Callout => {
            lemma_class_suffix(crate::render::get_or(attrs, "type"@, "note"@));
            assert(tags_plain("<aside class=\"alt-callout alt-callout-"@)) by {
                reveal_strlit("<aside class=\"alt-callout alt-callout-");
                reveal_with_fuel(plain_from, 40);
                lemma_lit("<aside class=\"alt-callout alt-callout-"@);
            }
            assert(tags_plain("\" role=\"note\">\n"@)) by {
                reveal_strlit("\" role=\"note\">\n");
                reveal_with_fuel(plain_from, 17);
                lemma_lit("\" role=\"note\">\n"@);
            }
            assert(tags_plain("</aside>"@)) by {
                reveal_strlit("</aside>");
                reveal_with_fuel(plain_from, 10);
                lemma_lit("</aside>"@);
            }
        },
        Fallback::Accordion => {
            lemma_esc(crate::render::get_or(attrs, "title"@, "Details"@));
            assert(tags_plain("<details><summary>"@)) by {
                reveal_strlit("<details><summary>");
                reveal_with_fuel(plain_from, 20);
                lemma_lit("<details><summary>"@);
            }
            assert(tags_plain("</summary>\n"@)) by {
                reveal_strlit("</summary>\n");
                reveal_with_fuel(plain_from, 13);
                lemma_lit("</summary>\n"@);
            }
            assert(tags_plain("</details>"@)) by {
                reveal_strlit("</details>");
                reveal_with_fuel(plain_from, 12);
                lemma_lit("</details>"@);
            }
        },
        Fallback::Tabs => {
            assert(tags_plain("alt-tabs"@)) by {
                reveal_strlit("alt-tabs");
                reveal_with_fuel(plain_from, 10);
                lemma_lit("alt-tabs"@);
            }
            lemma_wrap("alt-tabs"@, kids);
        },
        Fallback::Tab => {
            lemma_esc(crate::render::get_or(attrs, "title"@, "Tab"@));
            assert(tags_plain("<section class=\"alt-tab\"><h3>"@)) by {
                reveal_strlit("<section class=\"alt-tab\"><h3>");
                reveal_with_fuel(plain_from, 31);
                lemma_lit("<section class=\"alt-tab\"><h3>"@);
            }
            assert(tags_plain("</h3>\n"@)) by {
                reveal_strlit("</h3>\n");
                reveal_with_fuel(plain_from, 8);
                lemma_lit("</h3>\n"@);
            }
            assert(tags_plain("</section>"@)) by {
                reveal_strlit("</section>");
                reveal_with_fuel(plain_from, 12);
                lemma_lit("</section>"@);
            }
        },
        Fallback::Stack => {
            assert(tags_plain("alt-stack"@)) by {
                reveal_strlit("alt-stack");
                reveal_with_fuel(plain_from, 11);
                lemma_lit("alt-stack"@);
            }
            lemma_wrap("alt-stack"@, kids);
        },
        Fallback::Data => match body {
            BodyV::Raw(r) => lemma_csv(r),
            BodyV::Children(_) => {},
        },
        Fallback::Math => lemma_math(body),
        Fallback::Embed => lemma_embed(crate::html::safe_url_v(crate::render::get_or(attrs, "src"@, ""@))),
        Fallback::Toc => lemma_toc(cx.heads),
        Fallback::References => lemma_refs(cx),
        Fallback::Include => lemma_embed(crate::render::get_or(attrs, "src"@, ""@)),
        Fallback::Plain => match body {
            BodyV::Children(_) => {
                assert(tags_plain("\n"@)) by {
                    reveal_strlit("\n");
                    reveal_with_fuel(plain_from, 3);
                    lemma_lit("\n"@);
                }
            },
            BodyV::Raw(r) => {
                lemma_esc(r);
                assert(tags_plain("<pre>"@)) by {
                    reveal_strlit("<pre>");
                    reveal_with_fuel(plain_from, 7);
                    lemma_lit("<pre>"@);
                }
                assert(tags_plain("</pre>"@)) by {
                    reveal_strlit("</pre>");
                    reveal_with_fuel(plain_from, 8);
                    lemma_lit("</pre>"@);
                }
            },
        },
    }
}

proof fn lemma_blocks(bs: Seq<BlockV>, cx: Ctx, st: RenderState)
    requires
        blocks_clean(bs),
    ensures
        tags_plain(r_blocks(bs, cx, st).0),
    decreases bs,
{
    broadcast use lemma_plain_concat;

    if bs.len() > 0 {
        lemma_blocks(bs.drop_last(), cx, st);
        lemma_block(bs.last(), cx, r_blocks(bs.drop_last(), cx, st).1);
    }
}

proof fn lemma_item_blocks(bs: Seq<BlockV>, tight: bool, cx: Ctx, st: RenderState)
    requires
        blocks_clean(bs),
    ensures
        tags_plain(r_item_blocks(bs, tight, cx, st).0),
    decreases bs,
{
    broadcast use lemma_plain_concat;

    if bs.len() > 0 {
        lemma_item_blocks(bs.drop_last(), tight, cx, st);
        let s1 = r_item_blocks(bs.drop_last(), tight, cx, st).1;
        match bs.last() {
            BlockV::Paragraph(c) => {
                assert(block_clean(bs.last()));
                lemma_inlines(c, cx);
                lemma_block(bs.last(), cx, s1);
            },
            _ => lemma_block(bs.last(), cx, s1),
        }
    }
}

proof fn lemma_items(items: Seq<ItemV>, tight: bool, cx: Ctx, st: RenderState)
    requires
        items_clean(items),
    ensures
        tags_plain(r_items(items, tight, cx, st).0),
    decreases items,
{
    broadcast use lemma_plain_concat;

    if items.len() > 0 {
        lemma_items(items.drop_last(), tight, cx, st);
        let s1 = r_items(items.drop_last(), tight, cx, st).1;
        lemma_item_blocks(items.last().blocks, tight, cx, s1);
        lemma_item_open(items.last().task);
        assert(tags_plain("</li>\n"@)) by {
            reveal_strlit("</li>\n");
            reveal_with_fuel(plain_from, 8);
            lemma_lit("</li>\n"@);
        }
    }
}

#[verifier::spinoff_prover]
proof fn lemma_block(b: BlockV, cx: Ctx, st: RenderState)
    requires
        block_clean(b),
    ensures
        tags_plain(r_block(b, cx, st).0),
    decreases b,
{
    broadcast use lemma_plain_concat;

    match b {
        BlockV::Heading { level, content } => {
            lemma_heading_open(clamp_level(level), cx, st.cursor);
            lemma_inlines(content, cx);
            lemma_dec(clamp_level(level) as nat);
            assert(tags_plain("</h"@)) by {
                reveal_strlit("</h");
                reveal_with_fuel(plain_from, 5);
                lemma_lit("</h"@);
            }
            assert(tags_plain(">\n"@)) by {
                reveal_strlit(">\n");
                reveal_with_fuel(plain_from, 4);
                lemma_lit(">\n"@);
            }
        },
        BlockV::Paragraph(c) => {
            lemma_inlines(c, cx);
            assert(tags_plain("<p>"@)) by {
                reveal_strlit("<p>");
                reveal_with_fuel(plain_from, 5);
                lemma_lit("<p>"@);
            }
            assert(tags_plain("</p>\n"@)) by {
                reveal_strlit("</p>\n");
                reveal_with_fuel(plain_from, 7);
                lemma_lit("</p>\n"@);
            }
        },
        BlockV::BlockQuote(c) => {
            lemma_blocks(c, cx, st);
            assert(tags_plain("<blockquote>\n"@)) by {
                reveal_strlit("<blockquote>\n");
                reveal_with_fuel(plain_from, 15);
                lemma_lit("<blockquote>\n"@);
            }
            assert(tags_plain("</blockquote>\n"@)) by {
                reveal_strlit("</blockquote>\n");
                reveal_with_fuel(plain_from, 16);
                lemma_lit("</blockquote>\n"@);
            }
        },
        BlockV::List { ordered, start, tight, items } => {
            lemma_items(items, tight, cx, st);
            lemma_list(ordered, start);
        },
        BlockV::CodeBlock { info, literal } => lemma_code(info, literal),
        BlockV::ThematicBreak => {
            assert(tags_plain("<hr />\n"@)) by {
                reveal_strlit("<hr />\n");
                reveal_with_fuel(plain_from, 9);
                lemma_lit("<hr />\n"@);
            }
        },
        BlockV::Table { alignments, header, rows } => lemma_table(alignments, header, rows, cx),
        BlockV::FootnoteDefinition { name, blocks } => {
            lemma_blocks(blocks, cx, st);
            lemma_esc(name);
            assert(tags_plain("<section class=\"footnote\" id=\"fn-"@)) by {
                reveal_strlit("<section class=\"footnote\" id=\"fn-");
                reveal_with_fuel(plain_from, 35);
                lemma_lit("<section class=\"footnote\" id=\"fn-"@);
            }
            assert(tags_plain("\">\n"@)) by {
                reveal_strlit("\">\n");
                reveal_with_fuel(plain_from, 5);
                lemma_lit("\">\n"@);
            }
            assert(tags_plain("</section>\n"@)) by {
                reveal_strlit("</section>\n");
                reveal_with_fuel(plain_from, 13);
                lemma_lit("</section>\n"@);
            }
        },
        BlockV::HtmlBlock(h) => {
            assert(tags_plain(sanitize_v(h)));
        },
        BlockV::Component { name, attrs, body } => lemma_component(name, attrs, body, cx, st),
    }
}

#[verifier::spinoff_prover]
proof fn lemma_component(name: Seq<char>, attrs: AttrsV, body: BodyV, cx: Ctx, st: RenderState)
    requires
        kids_clean(name, body),
    ensures
        tags_plain(r_component(name, attrs, body, cx, st).0),
    decreases body,
{
    broadcast use lemma_plain_concat;

    reveal_strlit("figure");
    reveal_strlit("bib");
    reveal_strlit("ai-policy");
    if !safe_name(name) {
    } else if name == "figure"@ {
        let k = crate::prepass::fig_kind_v(attrs);
        let f = crate::prepass::fig_bump(st.figs, k);
        let s1 = RenderState { cursor: st.cursor, figs: f };
        match body {
            BodyV::Children(c) => {
                lemma_blocks(c, cx, s1);
                lemma_figure(attrs, k, crate::prepass::fig_count(f, k), r_blocks(c, cx, s1).0);
            },
            BodyV::Raw(_) => {
                lemma_figure(attrs, k, crate::prepass::fig_count(f, k), Seq::empty());
            },
        }
    } else if name == "bib"@ || name == "ai-policy"@ {
    } else {
        let kids = match body {
            BodyV::Children(c) => r_blocks(c, cx, st).0,
            BodyV::Raw(_) => Seq::empty(),
        };
        match body {
            BodyV::Children(c) => if shows_children(name) {
                lemma_blocks(c, cx, st);
            },
            BodyV::Raw(_) => {},
        }
        lemma_safe_name(name);
        lemma_attrs(attrs);
        lemma_fallback(name, attrs, body, cx, kids);
        assert(tags_plain("<alt-"@)) by {
            reveal_strlit("<alt-");
            reveal_with_fuel(plain_from, 7);
            lemma_lit("<alt-"@);
        }
        assert(tags_plain(">"@)) by {
            reveal_strlit(">");
            reveal_with_fuel(plain_from, 3);
            lemma_lit(">"@);
        }
        assert(tags_plain("</alt-"@)) by {
            reveal_strlit("</alt-");
            reveal_with_fuel(plain_from, 8);
            lemma_lit("</alt-"@);
        }
        assert(tags_plain(">\n"@)) by {
            reveal_strlit(">\n");
            reveal_with_fuel(plain_from, 4);
            lemma_lit(">\n"@);
        }
    }
}

proof fn lemma_lower_is(c: char, t: char)
    requires
        lower(c) == t,
        crate::text::is_ascii_lower(t),
    ensures
        c == t || (crate::text::is_ascii_upper(c) && (c as u32) + 32 == (t as u32)),
{
    if crate::text::is_ascii_upper(c) {
        assert(((c as u32) + 32) as char == t);
    }
}

/// A rendered document opens no `script` and no `iframe` element, in any
/// letter case, when the raw HTML it writes out is clean once sanitised (which
/// [`crate::render::render_document`] shows of every document): the renderer's
/// own markup never opens one, and every text it carries is escaped.
pub proof fn law_no_script_or_frame(doc: Seq<BlockV>)
    requires
        blocks_clean(doc),
    ensures
        !opens_element(render_v(doc), "script"@),
        !opens_element(render_v(doc), "iframe"@),
{
    broadcast use lemma_plain_concat;

    let s = render_v(doc);
    lemma_blocks(doc, crate::render::ctx_of(crate::prepass::pre_blocks(doc, crate::prepass::pre_empty())), crate::render::start_state());
    reveal_strlit("script");
    reveal_strlit("iframe");
    if opens_element(s, "script"@) {
        let i = choose|i: int|
            0 <= i && i + "script"@.len() < s.len() && #[trigger] s[i] == '<' && forall|j: int|
                0 <= j < "script"@.len() ==> lower(s[i + 1 + j]) == "script"@[j];
        assert(lower(s[i + 1 + 0]) == "script"@[0]);
        assert(lower(s[i + 1 + 1]) == "script"@[1]);
        lemma_lower_is(s[i + 1], 's');
        lemma_lower_is(s[i + 2], 'c');
        assert(opens_script_or_frame(s[i + 1], s[i + 2]));
    }
    if opens_element(s, "iframe"@) {
        let i = choose|i: int|
            0 <= i && i + "iframe"@.len() < s.len() && #[trigger] s[i] == '<' && forall|j: int|
                0 <= j < "iframe"@.len() ==> lower(s[i + 1 + j]) == "iframe"@[j];
        assert(lower(s[i + 1 + 0]) == "iframe"@[0]);
        assert(lower(s[i + 1 + 1]) == "iframe"@[1]);
        lemma_lower_is(s[i + 1], 'i');
        lemma_lower_is(s[i + 2], 'f');
        assert(opens_script_or_frame(s[i + 1], s[i + 2]));
    }
}


/// Where a left-to-right reading of HTML stands: in text, inside a tag (just
/// after its name or an attribute character, after a separator, after a
/// separator and an `o`, or after an `=`), or inside a quoted attribute value.
pub enum Lex {
    Text,
    Tag,
    TagGap,
    TagGapO,
    TagEq,
    Quote,
}

/// What separates attributes inside a tag.
pub open spec fn is_gap(c: char) -> bool {
    c == ' ' || c == '\n' || c == '\t' || c == '\r' || c == '/'
}

/// One character read in state `q`; nothing when an attribute name starting
/// with `on` (an event handler) begins inside a tag.
pub open spec fn lex_step(q: Lex, c: char) -> Option<Lex> {
    match q {
        Lex::Text => if c == '<' {
            Some(Lex::Tag)
        } else {
            Some(Lex::Text)
        },
        Lex::Quote => if c == '"' {
            Some(Lex::Tag)
        } else {
            Some(Lex::Quote)
        },
        _ => if q == Lex::TagGapO && (c == 'n' || c == 'N') {
            None
        } else if c == '>' {
            Some(Lex::Text)
        } else if q == Lex::TagEq && c == '"' {
            Some(Lex::Quote)
        } else if c == '=' {
            Some(Lex::TagEq)
        } else if is_gap(c) {
            Some(Lex::TagGap)
        } else if q == Lex::TagGap && (c == 'o' || c == 'O') {
            Some(Lex::TagGapO)
        } else {
            Some(Lex::Tag)
        },
    }
}

/// Reading `s` from index `k` on, starting in state `q`.
#[verifier::opaque]
pub open spec fn lex_from(s: Seq<char>, k: int, q: Lex) -> Option<Lex>
    decreases s.len() - k,
{
    if k < 0 || k >= s.len() {
        Some(q)
    } else {
        match lex_step(q, s[k]) {
            Some(r) => lex_from(s, k + 1, r),
            None => None,
        }
    }
}

/// The state after reading `s` from state `q`, or nothing when `s` starts an
/// event-handler attribute on the way.
pub open spec fn lex(s: Seq<char>, q: Lex) -> Option<Lex> {
    lex_from(s, 0, q)
}

proof fn lemma_lex_shift(a: Seq<char>, b: Seq<char>, j: int, q: Lex)
    requires
        0 <= j <= b.len(),
    ensures
        lex_from(a + b, a.len() + j, q) == lex_from(b, j, q),
    decreases b.len() - j,
{
    reveal(lex_from);
    if j < b.len() {
        assert((a + b)[a.len() + j] == b[j]);
        match lex_step(q, b[j]) {
            Some(r) => lemma_lex_shift(a, b, j + 1, r),
            None => {},
        }
    }
}

proof fn lemma_lex_split(a: Seq<char>, b: Seq<char>, k: int, q: Lex)
    requires
        0 <= k <= a.len(),
    ensures
        lex_from(a + b, k, q) == match lex_from(a, k, q) {
            Some(r) => lex(b, r),
            None => None,
        },
    decreases a.len() - k,
{
    reveal(lex_from);
    if k < a.len() {
        assert((a + b)[k] == a[k]);
        match lex_step(q, a[k]) {
            Some(r) => lemma_lex_split(a, b, k + 1, r),
            None => {},
        }
    } else {
        lemma_lex_shift(a, b, 0, q);
    }
}

/// Reading two pieces one after the other is reading them joined.
pub proof fn lemma_lex_concat(a: Seq<char>, b: Seq<char>, q: Lex)
    ensures
        lex(a + b, q) == match lex(a, q) {
            Some(r) => lex(b, r),
            None => None,
        },
{
    lemma_lex_split(a, b, 0, q);
}

proof fn lemma_lex_text(s: Seq<char>, k: int)
    requires
        0 <= k,
        forall|i: int| k <= i < s.len() ==> #[trigger] s[i] != '<',
    ensures
        lex_from(s, k, Lex::Text) == Some(Lex::Text),
    decreases s.len() - k,
{
    reveal(lex_from);
    if k < s.len() {
        lemma_lex_text(s, k + 1);
    }
}

proof fn lemma_lex_quote(s: Seq<char>, k: int)
    requires
        0 <= k,
        forall|i: int| k <= i < s.len() ==> #[trigger] s[i] != '"',
    ensures
        lex_from(s, k, Lex::Quote) == Some(Lex::Quote),
    decreases s.len() - k,
{
    reveal(lex_from);
    if k < s.len() {
        lemma_lex_quote(s, k + 1);
    }
}

/// A character that may stand in a tag name or an attribute name.
pub open spec fn name_char(c: char) -> bool {
    crate::text::is_ascii_lower(c) || crate::text::is_ascii_digit(c) || c == '-'
}

proof fn lemma_lex_name(s: Seq<char>, k: int)
    requires
        0 <= k,
        forall|i: int| k <= i < s.len() ==> name_char(#[trigger] s[i]),
    ensures
        lex_from(s, k, Lex::Tag) == Some(Lex::Tag),
    decreases s.len() - k,
{
    reveal(lex_from);
    if k < s.len() {
        lemma_lex_name(s, k + 1);
    }
}

proof fn lemma_lex_empty(q: Lex)
    ensures
        lex(Seq::empty(), q) == Some(q),
{
    reveal(lex_from);
}

proof fn lex_join(a: Seq<char>, b: Seq<char>, q: Lex, r: Lex, t: Lex)
    requires
        lex(a, q) == Some(r),
        lex(b, r) == Some(t),
    ensures
        lex(a + b, q) == Some(t),
{
    lemma_lex_concat(a, b, q);
}

/// Escaped text reads as text; an escaped attribute value stays inside its quotes.
proof fn lemma_lex_esc(s: Seq<char>)
    ensures
        lex(esc(s), Lex::Text) == Some(Lex::Text),
        lex(esc_attr(s), Lex::Quote) == Some(Lex::Quote),
        lex(esc_attr(s), Lex::Text) == Some(Lex::Text),
{
    law_escaped_text_inert(s);
    law_escaped_attr_inert(s);
    lemma_lex_text(esc(s), 0);
    lemma_lex_quote(esc_attr(s), 0);
    lemma_lex_text(esc_attr(s), 0);
}

proof fn lemma_dec_digits(n: nat)
    ensures
        forall|k: int| 0 <= k < dec(n).len() ==> crate::text::is_ascii_digit(#[trigger] dec(n)[k]),
    decreases n,
{
    if n >= 10 {
        lemma_dec_digits(n / 10);
        let d = dec(n);
        assert forall|k: int| 0 <= k < d.len() implies crate::text::is_ascii_digit(#[trigger] d[k]) by {
            if k < dec(n / 10).len() {
                assert(d[k] == dec(n / 10)[k]);
            }
        }
    }
}

/// A number reads the same in text, in a tag and in a quoted value.
proof fn lemma_lex_dec(n: nat)
    ensures
        lex(dec(n), Lex::Text) == Some(Lex::Text),
        lex(dec(n), Lex::Tag) == Some(Lex::Tag),
        lex(dec(n), Lex::Quote) == Some(Lex::Quote),
{
    lemma_dec_digits(n);
    lemma_lex_text(dec(n), 0);
    lemma_lex_quote(dec(n), 0);
    lemma_lex_name(dec(n), 0);
}

proof fn lemma_lex_safe_name(s: Seq<char>)
    requires
        safe_name(s),
    ensures
        lex(s, Lex::Tag) == Some(Lex::Tag),
{
    assert forall|i: int| 0 <= i < s.len() implies name_char(#[trigger] s[i]) by {
        assert(crate::text::is_ascii_lower(s[i]) || crate::text::is_ascii_digit(s[i]) || s[i] == '-');
    }
    lemma_lex_name(s, 0);
}

proof fn lemma_lex_class_suffix(s: Seq<char>)
    ensures
        lex(class_suffix(s), Lex::Quote) == Some(Lex::Quote),
{
    lemma_class_chars_plain(s);
    lemma_lex_quote(class_chars(s), 0);
    lit_default_quote_quote();
}

proof fn lemma_class_chars_plain(s: Seq<char>)
    ensures
        forall|k: int| 0 <= k < class_chars(s).len() ==> #[trigger] class_chars(s)[k] != '"',
    decreases s.len(),
{
    if s.len() > 0 {
        lemma_class_chars_plain(s.drop_last());
        let c = class_chars(s);
        let p = class_chars(s.drop_last());
        assert forall|k: int| 0 <= k < c.len() implies #[trigger] c[k] != '"' by {
            if k < p.len() {
                assert(c[k] == p[k]);
            }
        }
    }
}

proof fn lex_title_attr(t: Seq<char>)
    ensures
        lex(title_attr(t), Lex::Tag) == Some(Lex::Tag),
{
    lemma_lex_empty(Lex::Tag);
    if t.len() > 0 {
        lemma_lex_esc(t);
        lit_title_tag_quote();
        lit_mark_quote_tag();
        lex_join(" title=\""@, esc_attr(t), Lex::Tag, Lex::Quote, Lex::Quote);
        lex_join(" title=\""@ + esc_attr(t), "\""@, Lex::Tag, Lex::Quote, Lex::Tag);
    }
}

#[verifier::spinoff_prover]
proof fn lex_xref(t: Seq<char>, cx: Ctx)
    ensures
        lex(xref_html(t, cx), Lex::Text) == Some(Lex::Text),
{
    lemma_lex_esc(t);
    match crate::render::last_value(cx.labels, t) {
        Some(text) => {
            lemma_lex_esc(text);
            lit_a_class_alt_xref_href_text_quote();
            lit_mark_quote_text();
            lit_a_text_text();
            lex_join("<a class=\"alt-xref\" href=\"#"@, esc_attr(t), Lex::Text, Lex::Quote, Lex::Quote);
            lex_join("<a class=\"alt-xref\" href=\"#"@ + esc_attr(t), "\">"@, Lex::Text, Lex::Quote, Lex::Text);
            lex_join("<a class=\"alt-xref\" href=\"#"@ + esc_attr(t) + "\">"@, esc(text), Lex::Text, Lex::Text, Lex::Text);
            lex_join("<a class=\"alt-xref\" href=\"#"@ + esc_attr(t) + "\">"@ + esc(text), "</a>"@, Lex::Text, Lex::Text, Lex::Text);
        },
        None => {
            lit_mark_text_text_2();
            lit_mark_text_text_3();
            lex_join("[#"@, esc(t), Lex::Text, Lex::Text, Lex::Text);
            lex_join("[#"@ + esc(t), "]"@, Lex::Text, Lex::Text, Lex::Text);
        },
    }
}

#[verifier::spinoff_prover]
#[verifier::rlimit(60)]
proof fn lex_cite(k: Seq<char>, cx: Ctx)
    ensures
        lex(cite_html(k, cx), Lex::Text) == Some(Lex::Text),
{
    lemma_lex_esc(k);
    match crate::render::pos_of(cx.cited, k) {
        Some(n) => {
            lemma_lex_dec(n + 1);
            lit_a_class_alt_cite_href_ref_text_quote();
            lit_mark_quote_text_2();
            lit_a_text_text_2();
            lex_join("<a class=\"alt-cite\" href=\"#ref-"@, esc_attr(k), Lex::Text, Lex::Quote, Lex::Quote);
            lex_join("<a class=\"alt-cite\" href=\"#ref-"@ + esc_attr(k), "\">["@, Lex::Text, Lex::Quote, Lex::Text);
            lex_join("<a class=\"alt-cite\" href=\"#ref-"@ + esc_attr(k) + "\">["@, dec(n + 1), Lex::Text, Lex::Text, Lex::Text);
            lex_join("<a class=\"alt-cite\" href=\"#ref-"@ + esc_attr(k) + "\">["@ + dec(n + 1), "]</a>"@, Lex::Text, Lex::Text, Lex::Text);
        },
        None => {
            lit_mark_text_text_4();
            lit_mark_text_text_3();
            lex_join("[@"@, esc(k), Lex::Text, Lex::Text, Lex::Text);
            lex_join("[@"@ + esc(k), "]"@, Lex::Text, Lex::Text, Lex::Text);
        },
    }
}

/// The sanitiser's output for the raw HTML `h` opens no `script` or `iframe`
/// element, and read left to right starts no event-handler attribute and ends
/// outside any tag.
pub open spec fn clean_ok(h: Seq<char>) -> bool {
    tags_plain(sanitize_v(h)) && lex(sanitize_v(h), Lex::Text) == Some(Lex::Text)
}

/// Every raw HTML fragment that the renderer writes out of `s`, once sanitised,
/// is [`clean_ok`].
pub open spec fn inlines_clean(s: Seq<InlineV>) -> bool
    decreases s,
{
    if s.len() == 0 {
        true
    } else {
        inlines_clean(s.drop_last()) && inline_clean(s.last())
    }
}

pub open spec fn inline_clean(i: InlineV) -> bool
    decreases i,
{
    match i {
        InlineV::HtmlInline(h) => clean_ok(h),
        InlineV::Emphasis(c) => inlines_clean(c),
        InlineV::Strong(c) => inlines_clean(c),
        InlineV::Strikethrough(c) => inlines_clean(c),
        InlineV::Link { content, .. } => inlines_clean(content),
        _ => true,
    }
}

pub open spec fn cells_clean(cs: Seq<Seq<InlineV>>) -> bool
    decreases cs.len(),
{
    if cs.len() == 0 {
        true
    } else {
        cells_clean(cs.drop_last()) && inlines_clean(cs.last())
    }
}

pub open spec fn rows_clean(rs: Seq<Seq<Seq<InlineV>>>) -> bool
    decreases rs.len(),
{
    if rs.len() == 0 {
        true
    } else {
        rows_clean(rs.drop_last()) && cells_clean(rs.last())
    }
}

/// Every raw HTML fragment that the renderer writes out of `bs` (those inside
/// components whose children it shows, not the others), once sanitised, is
/// [`clean_ok`].
pub open spec fn blocks_clean(bs: Seq<BlockV>) -> bool
    decreases bs,
{
    if bs.len() == 0 {
        true
    } else {
        blocks_clean(bs.drop_last()) && block_clean(bs.last())
    }
}

pub open spec fn items_clean(items: Seq<ItemV>) -> bool
    decreases items,
{
    if items.len() == 0 {
        true
    } else {
        items_clean(items.drop_last()) && blocks_clean(items.last().blocks)
    }
}

pub open spec fn block_clean(b: BlockV) -> bool
    decreases b,
{
    match b {
        BlockV::Heading { content, .. } => inlines_clean(content),
        BlockV::Paragraph(c) => inlines_clean(c),
        BlockV::BlockQuote(c) => blocks_clean(c),
        BlockV::List { items, .. } => items_clean(items),
        BlockV::Table { header, rows, .. } => cells_clean(header) && rows_clean(rows),
        BlockV::FootnoteDefinition { blocks, .. } => blocks_clean(blocks),
        BlockV::HtmlBlock(h) => clean_ok(h),
        BlockV::Component { name, body, .. } => match body {
            BodyV::Children(c) => renders_children(name) ==> blocks_clean(c),
            BodyV::Raw(_) => true,
        },
        _ => true,
    }
}

/// The children of a component that the renderer shows are [`blocks_clean`].
pub open spec fn kids_clean(name: Seq<char>, body: BodyV) -> bool {
    match body {
        BodyV::Children(c) => renders_children(name) ==> blocks_clean(c),
        BodyV::Raw(_) => true,
    }
}

proof fn lex_inlines(s: Seq<InlineV>, cx: Ctx)
    requires
        inlines_clean(s),
    ensures
        lex(r_inlines(s, cx), Lex::Text) == Some(Lex::Text),
    decreases s, 2int,
{
    lemma_lex_empty(Lex::Text);
    if s.len() > 0 {
        lex_inlines(s.drop_last(), cx);
        lex_inline(s.last(), cx);
        lex_join(r_inlines(s.drop_last(), cx), r_inline(s.last(), cx), Lex::Text, Lex::Text, Lex::Text);
    }
}

proof fn lex_link(url: Seq<char>, title: Seq<char>, content: Seq<InlineV>, cx: Ctx)
    requires
        inlines_clean(content),
    ensures
        lex(r_inline(InlineV::Link { url, title, content }, cx), Lex::Text) == Some(Lex::Text),
    decreases content, 3int,
{
    lemma_lex_esc(crate::html::safe_url_v(url));
    lex_title_attr(title);
    lex_inlines(content, cx);
    lit_a_href_text_quote();
    lit_mark_quote_tag();
    lit_mark_tag_text();
    lit_a_text_text();
    lex_join("<a href=\""@, esc_attr(crate::html::safe_url_v(url)), Lex::Text, Lex::Quote, Lex::Quote);
    lex_join("<a href=\""@ + esc_attr(crate::html::safe_url_v(url)), "\""@, Lex::Text, Lex::Quote, Lex::Tag);
    lex_join("<a href=\""@ + esc_attr(crate::html::safe_url_v(url)) + "\""@, title_attr(title), Lex::Text, Lex::Tag, Lex::Tag);
    lex_join("<a href=\""@ + esc_attr(crate::html::safe_url_v(url)) + "\""@ + title_attr(title), ">"@, Lex::Text, Lex::Tag, Lex::Text);
    lex_join("<a href=\""@ + esc_attr(crate::html::safe_url_v(url)) + "\""@ + title_attr(title) + ">"@, r_inlines(content, cx), Lex::Text, Lex::Text, Lex::Text);
    lex_join("<a href=\""@ + esc_attr(crate::html::safe_url_v(url)) + "\""@ + title_attr(title) + ">"@ + r_inlines(content, cx), "</a>"@, Lex::Text, Lex::Text, Lex::Text);
}

proof fn lex_image(url: Seq<char>, title: Seq<char>, alt: Seq<InlineV>, cx: Ctx)
    ensures
        lex(r_inline(InlineV::Image { url, title, alt }, cx), Lex::Text) == Some(Lex::Text),
{
    lemma_lex_esc(crate::html::safe_url_v(url));
    lemma_lex_esc(crate::prepass::text_inlines(alt));
    lex_title_attr(title);
    lit_img_src_text_quote();
    lit_alt_quote_quote();
    lit_mark_quote_tag();
    lit_mark_tag_text_2();
    lex_join("<img src=\""@, esc_attr(crate::html::safe_url_v(url)), Lex::Text, Lex::Quote, Lex::Quote);
    lex_join("<img src=\""@ + esc_attr(crate::html::safe_url_v(url)), "\" alt=\""@, Lex::Text, Lex::Quote, Lex::Quote);
    lex_join("<img src=\""@ + esc_attr(crate::html::safe_url_v(url)) + "\" alt=\""@, esc_attr(crate::prepass::text_inlines(alt)), Lex::Text, Lex::Quote, Lex::Quote);
    lex_join("<img src=\""@ + esc_attr(crate::html::safe_url_v(url)) + "\" alt=\""@ + esc_attr(crate::prepass::text_inlines(alt)), "\""@, Lex::Text, Lex::Quote, Lex::Tag);
    lex_join("<img src=\""@ + esc_attr(crate::html::safe_url_v(url)) + "\" alt=\""@ + esc_attr(crate::prepass::text_inlines(alt)) + "\""@, title_attr(title), Lex::Text, Lex::Tag, Lex::Tag);
    lex_join("<img src=\""@ + esc_attr(crate::html::safe_url_v(url)) + "\" alt=\""@ + esc_attr(crate::prepass::text_inlines(alt)) + "\""@ + title_attr(title), " />"@, Lex::Text, Lex::Tag, Lex::Text);
}

proof fn lex_footnote_ref(n: Seq<char>, cx: Ctx)
    ensures
        lex(r_inline(InlineV::FootnoteReference(n), cx), Lex::Text) == Some(Lex::Text),
{
    lemma_lex_esc(n);
    lit_sup_class_footnote_ref_a_href_fn_text_quote();
    lit_mark_quote_text();
    lit_a_sup_text_text();
    lex_join("<sup class=\"footnote-ref\"><a href=\"#fn-"@, esc_attr(n), Lex::Text, Lex::Quote, Lex::Quote);
    lex_join("<sup class=\"footnote-ref\"><a href=\"#fn-"@ + esc_attr(n), "\">"@, Lex::Text, Lex::Quote, Lex::Text);
    lex_join("<sup class=\"footnote-ref\"><a href=\"#fn-"@ + esc_attr(n) + "\">"@, esc(n), Lex::Text, Lex::Text, Lex::Text);
    lex_join("<sup class=\"footnote-ref\"><a href=\"#fn-"@ + esc_attr(n) + "\">"@ + esc(n), "</a></sup>"@, Lex::Text, Lex::Text, Lex::Text);
}

#[verifier::spinoff_prover]
#[verifier::rlimit(60)]
proof fn lex_inline(i: InlineV, cx: Ctx)
    requires
        inline_clean(i),
    ensures
        lex(r_inline(i, cx), Lex::Text) == Some(Lex::Text),
    decreases i, 1int,
{
    match i {
        InlineV::Text(t) => lemma_lex_esc(t),
        InlineV::Emphasis(c) => {
            lex_inlines(c, cx);
            lit_em_text_text();
            lit_em_text_text_2();
            lex_join("<em>"@, r_inlines(c, cx), Lex::Text, Lex::Text, Lex::Text);
            lex_join("<em>"@ + r_inlines(c, cx), "</em>"@, Lex::Text, Lex::Text, Lex::Text);
        },
        InlineV::Strong(c) => {
            lex_inlines(c, cx);
            lit_strong_text_text();
            lit_strong_text_text_2();
            lex_join("<strong>"@, r_inlines(c, cx), Lex::Text, Lex::Text, Lex::Text);
            lex_join("<strong>"@ + r_inlines(c, cx), "</strong>"@, Lex::Text, Lex::Text, Lex::Text);
        },
        InlineV::Strikethrough(c) => {
            lex_inlines(c, cx);
            lit_del_text_text();
            lit_del_text_text_2();
            lex_join("<del>"@, r_inlines(c, cx), Lex::Text, Lex::Text, Lex::Text);
            lex_join("<del>"@ + r_inlines(c, cx), "</del>"@, Lex::Text, Lex::Text, Lex::Text);
        },
        InlineV::CrossRef(t) => lex_xref(t, cx),
        InlineV::Citation(k) => lex_cite(k, cx),
        InlineV::FootnoteReference(n) => lex_footnote_ref(n, cx),
        InlineV::Code(t) => {
            lemma_lex_esc(t);
            lit_code_text_text();
            lit_code_text_text_2();
            lex_join("<code>"@, esc(t), Lex::Text, Lex::Text, Lex::Text);
            lex_join("<code>"@ + esc(t), "</code>"@, Lex::Text, Lex::Text, Lex::Text);
        },
        InlineV::Link { url, title, content } => lex_link(url, title, content, cx),
        InlineV::Image { url, title, alt } => lex_image(url, title, alt, cx),
        InlineV::SoftBreak => {
            lit_mark_text_text();
        },
        InlineV::HardBreak => {
            lit_br_text_text();
        },
        InlineV::HtmlInline(h) => {
            assert(lex(sanitize_v(h), Lex::Text) == Some(Lex::Text));
        },
    }
}

proof fn lex_align(aligns: Seq<crate::ast::Alignment>, col: int)
    ensures
        lex(align_style(aligns, col), Lex::Tag) == Some(Lex::Tag),
{
    lemma_lex_empty(Lex::Tag);
    lit_style_text_align_left_tag_tag();
    lit_style_text_align_center_tag_tag();
    lit_style_text_align_right_tag_tag();
}

proof fn lex_cells(cells: Seq<Seq<InlineV>>, aligns: Seq<crate::ast::Alignment>, th: bool, cx: Ctx)
    requires
        cells_clean(cells),
    ensures
        lex(cells_html(cells, aligns, th, cx), Lex::Text) == Some(Lex::Text),
    decreases cells.len(),
{
    lemma_lex_empty(Lex::Text);
    if cells.len() > 0 {
        let col = cells.len() - 1;
        lex_cells(cells.drop_last(), aligns, th, cx);
        lex_align(aligns, col);
        lex_inlines(cells.last(), cx);
        let x = if th {
            "<th"@ + align_style(aligns, col) + ">"@ + r_inlines(cells.last(), cx) + "</th>\n"@
        } else {
            "<td"@ + align_style(aligns, col) + ">"@ + r_inlines(cells.last(), cx) + "</td>\n"@
        };
        if th {
            lit_th_text_tag();
            lit_mark_tag_text();
            lit_th_text_text();
            lex_join("<th"@, align_style(aligns, col), Lex::Text, Lex::Tag, Lex::Tag);
            lex_join("<th"@ + align_style(aligns, col), ">"@, Lex::Text, Lex::Tag, Lex::Text);
            lex_join("<th"@ + align_style(aligns, col) + ">"@, r_inlines(cells.last(), cx), Lex::Text, Lex::Text, Lex::Text);
            lex_join("<th"@ + align_style(aligns, col) + ">"@ + r_inlines(cells.last(), cx), "</th>\n"@, Lex::Text, Lex::Text, Lex::Text);
        } else {
            lit_td_text_tag();
            lit_mark_tag_text();
            lit_td_text_text();
            lex_join("<td"@, align_style(aligns, col), Lex::Text, Lex::Tag, Lex::Tag);
            lex_join("<td"@ + align_style(aligns, col), ">"@, Lex::Text, Lex::Tag, Lex::Text);
            lex_join("<td"@ + align_style(aligns, col) + ">"@, r_inlines(cells.last(), cx), Lex::Text, Lex::Text, Lex::Text);
            lex_join("<td"@ + align_style(aligns, col) + ">"@ + r_inlines(cells.last(), cx), "</td>\n"@, Lex::Text, Lex::Text, Lex::Text);
        }
        lex_join(cells_html(cells.drop_last(), aligns, th, cx), x, Lex::Text, Lex::Text, Lex::Text);
    }
}

proof fn lex_rows(rows: Seq<Seq<Seq<InlineV>>>, aligns: Seq<crate::ast::Alignment>, cx: Ctx)
    requires
        rows_clean(rows),
    ensures
        lex(rows_html(rows, aligns, cx), Lex::Text) == Some(Lex::Text),
    decreases rows.len(),
{
    lemma_lex_empty(Lex::Text);
    if rows.len() > 0 {
        lex_rows(rows.drop_last(), aligns, cx);
        lex_cells(rows.last(), aligns, false, cx);
        lit_tr_text_text();
        lit_tr_text_text_2();
        lex_join(rows_html(rows.drop_last(), aligns, cx), "<tr>\n"@, Lex::Text, Lex::Text, Lex::Text);
        lex_join(rows_html(rows.drop_last(), aligns, cx) + "<tr>\n"@, cells_html(rows.last(), aligns, false, cx), Lex::Text, Lex::Text, Lex::Text);
        lex_join(rows_html(rows.drop_last(), aligns, cx) + "<tr>\n"@ + cells_html(rows.last(), aligns, false, cx), "</tr>\n"@, Lex::Text, Lex::Text, Lex::Text);
    }
}

proof fn lex_table(
    aligns: Seq<crate::ast::Alignment>,
    header: Seq<Seq<InlineV>>,
    rows: Seq<Seq<Seq<InlineV>>>,
    cx: Ctx,
)
    requires
        cells_clean(header),
        rows_clean(rows),
    ensures
        lex(table_html(aligns, header, rows, cx), Lex::Text) == Some(Lex::Text),
{
    lemma_lex_empty(Lex::Text);
    lex_cells(header, aligns, true, cx);
    lex_rows(rows, aligns, cx);
    let mid = if rows.len() > 0 {
        "<tbody>\n"@ + rows_html(rows, aligns, cx) + "</tbody>\n"@
    } else {
        Seq::empty()
    };
    if rows.len() > 0 {
        lit_tbody_text_text();
        lit_tbody_text_text_2();
        lex_join("<tbody>\n"@, rows_html(rows, aligns, cx), Lex::Text, Lex::Text, Lex::Text);
        lex_join("<tbody>\n"@ + rows_html(rows, aligns, cx), "</tbody>\n"@, Lex::Text, Lex::Text, Lex::Text);
    }
    lit_table_thead_tr_text_text();
    lit_tr_thead_text_text();
    lit_table_text_text_2();
    lex_join("<table>\n<thead>\n<tr>\n"@, cells_html(header, aligns, true, cx), Lex::Text, Lex::Text, Lex::Text);
    lex_join("<table>\n<thead>\n<tr>\n"@ + cells_html(header, aligns, true, cx), "</tr>\n</thead>\n"@, Lex::Text, Lex::Text, Lex::Text);
    lex_join("<table>\n<thead>\n<tr>\n"@ + cells_html(header, aligns, true, cx) + "</tr>\n</thead>\n"@, mid, Lex::Text, Lex::Text, Lex::Text);
    lex_join("<table>\n<thead>\n<tr>\n"@ + cells_html(header, aligns, true, cx) + "</tr>\n</thead>\n"@ + mid, "</table>\n"@, Lex::Text, Lex::Text, Lex::Text);
}

proof fn lex_code(info: Seq<char>, literal: Seq<char>)
    ensures
        lex(code_html(info, literal), Lex::Text) == Some(Lex::Text),
{
    let lang = crate::decode::first_word(info);
    lemma_lex_esc(lang);
    lemma_lex_esc(literal);
    let head = if lang.len() == 0 {
        "<pre><code>"@
    } else {
        "<pre><code class=\"language-"@ + esc_attr(lang) + "\">"@
    };
    lit_pre_code_text_text();
    if lang.len() > 0 {
        lit_pre_code_class_language_text_quote();
        lit_mark_quote_text();
        lex_join("<pre><code class=\"language-"@, esc_attr(lang), Lex::Text, Lex::Quote, Lex::Quote);
        lex_join("<pre><code class=\"language-"@ + esc_attr(lang), "\">"@, Lex::Text, Lex::Quote, Lex::Text);
    }
    lit_code_pre_text_text();
    lex_join(head, esc(literal), Lex::Text, Lex::Text, Lex::Text);
    lex_join(head + esc(literal), "</code></pre>\n"@, Lex::Text, Lex::Text, Lex::Text);
}

proof fn lex_id_attr(id: Option<Seq<char>>)
    ensures
        lex(id_attr(id), Lex::Tag) == Some(Lex::Tag),
{
    lemma_lex_empty(Lex::Tag);
    match id {
        Some(i) => {
            lemma_lex_esc(i);
            lit_id_tag_quote();
            lit_mark_quote_tag();
            lex_join(" id=\""@, esc_attr(i), Lex::Tag, Lex::Quote, Lex::Quote);
            lex_join(" id=\""@ + esc_attr(i), "\""@, Lex::Tag, Lex::Quote, Lex::Tag);
        },
        None => {},
    }
}

proof fn lex_pairs(ps: Seq<(Seq<char>, Seq<char>)>)
    ensures
        lex(pairs_html(ps), Lex::Tag) == Some(Lex::Tag),
    decreases ps.len(),
{
    lemma_lex_empty(Lex::Tag);
    if ps.len() > 0 {
        lex_pairs(ps.drop_last());
        let k = ps.last().0;
        let v = ps.last().1;
        let x = if safe_name(k) {
            " data-"@ + k + "=\""@ + esc_attr(v) + "\""@
        } else {
            Seq::empty()
        };
        if safe_name(k) {
            lemma_lex_safe_name(k);
            lemma_lex_esc(v);
            lit_data_tag_tag();
            lit_mark_tag_quote();
            lit_mark_quote_tag();
            lex_join(" data-"@, k, Lex::Tag, Lex::Tag, Lex::Tag);
            lex_join(" data-"@ + k, "=\""@, Lex::Tag, Lex::Tag, Lex::Quote);
            lex_join(" data-"@ + k + "=\""@, esc_attr(v), Lex::Tag, Lex::Quote, Lex::Quote);
            lex_join(" data-"@ + k + "=\""@ + esc_attr(v), "\""@, Lex::Tag, Lex::Quote, Lex::Tag);
        }
        lex_join(pairs_html(ps.drop_last()), x, Lex::Tag, Lex::Tag, Lex::Tag);
    }
}

proof fn lex_attrs(a: AttrsV)
    ensures
        lex(attrs_html(a), Lex::Tag) == Some(Lex::Tag),
{
    lemma_lex_empty(Lex::Tag);
    lex_id_attr(a.id);
    lex_pairs(a.pairs);
    let j = crate::render::join_sp(a.classes);
    lemma_lex_esc(j);
    let c = if a.classes.len() > 0 {
        " class=\""@ + esc_attr(j) + "\""@
    } else {
        Seq::empty()
    };
    if a.classes.len() > 0 {
        lit_class_tag_quote();
        lit_mark_quote_tag();
        lex_join(" class=\""@, esc_attr(j), Lex::Tag, Lex::Quote, Lex::Quote);
        lex_join(" class=\""@ + esc_attr(j), "\""@, Lex::Tag, Lex::Quote, Lex::Tag);
    }
    lex_join(id_attr(a.id), c, Lex::Tag, Lex::Tag, Lex::Tag);
    lex_join(id_attr(a.id) + c, pairs_html(a.pairs), Lex::Tag, Lex::Tag, Lex::Tag);
}

proof fn lex_csv_cells(cells: Seq<Seq<char>>, th: bool)
    ensures
        lex(csv_cells(cells, th), Lex::Text) == Some(Lex::Text),
    decreases cells.len(),
{
    lemma_lex_empty(Lex::Text);
    if cells.len() > 0 {
        lex_csv_cells(cells.drop_last(), th);
        let t = crate::text::trim(cells.last());
        lemma_lex_esc(t);
        if th {
            lit_th_text_text_2();
            lit_th_text_text_3();
            lex_join("<th>"@, esc(t), Lex::Text, Lex::Text, Lex::Text);
            lex_join("<th>"@ + esc(t), "</th>"@, Lex::Text, Lex::Text, Lex::Text);
        } else {
            lit_td_text_text_2();
            lit_td_text_text_3();
            lex_join("<td>"@, esc(t), Lex::Text, Lex::Text, Lex::Text);
            lex_join("<td>"@ + esc(t), "</td>"@, Lex::Text, Lex::Text, Lex::Text);
        }
        lex_join(csv_cells(cells.drop_last(), th), csv_cell(cells.last(), th), Lex::Text, Lex::Text, Lex::Text);
    }
}

proof fn lex_csv_rows(rows: Seq<Seq<char>>)
    ensures
        lex(csv_rows(rows), Lex::Text) == Some(Lex::Text),
    decreases rows.len(),
{
    lemma_lex_empty(Lex::Text);
    if rows.len() > 0 {
        lex_csv_rows(rows.drop_last());
        lex_csv_cells(crate::text::split_on(rows.last(), ','), false);
        lit_tr_text_text_3();
        lit_tr_text_text_4();
        lex_join(csv_rows(rows.drop_last()), "<tr>"@, Lex::Text, Lex::Text, Lex::Text);
        lex_join(csv_rows(rows.drop_last()) + "<tr>"@, csv_cells(crate::text::split_on(rows.last(), ','), false), Lex::Text, Lex::Text, Lex::Text);
        lex_join(csv_rows(rows.drop_last()) + "<tr>"@ + csv_cells(crate::text::split_on(rows.last(), ','), false), "</tr>"@, Lex::Text, Lex::Text, Lex::Text);
    }
}

proof fn lex_csv(raw: Seq<char>)
    ensures
        lex(csv_html(raw), Lex::Text) == Some(Lex::Text),
{
    lemma_lex_empty(Lex::Text);
    let rows = crate::render::nonblank(crate::text::lines(raw));
    let head = if rows.len() > 0 {
        "<thead><tr>"@ + csv_cells(split_on(rows[0], ','), true) + "</tr></thead>"@
    } else {
        Seq::empty()
    };
    let body = if rows.len() > 0 {
        csv_rows(rows.drop_first())
    } else {
        Seq::empty()
    };
    if rows.len() > 0 {
        lex_csv_cells(split_on(rows[0], ','), true);
        lex_csv_rows(rows.drop_first());
        lit_thead_tr_text_text();
        lit_tr_thead_text_text_2();
        lex_join("<thead><tr>"@, csv_cells(split_on(rows[0], ','), true), Lex::Text, Lex::Text, Lex::Text);
        lex_join("<thead><tr>"@ + csv_cells(split_on(rows[0], ','), true), "</tr></thead>"@, Lex::Text, Lex::Text, Lex::Text);
    }
    lit_table_text_text_3();
    lit_tbody_text_text_3();
    lit_tbody_table_text_text();
    lex_join("<table>"@, head, Lex::Text, Lex::Text, Lex::Text);
    lex_join("<table>"@ + head, "<tbody>"@, Lex::Text, Lex::Text, Lex::Text);
    lex_join("<table>"@ + head + "<tbody>"@, body, Lex::Text, Lex::Text, Lex::Text);
    lex_join("<table>"@ + head + "<tbody>"@ + body, "</tbody></table>"@, Lex::Text, Lex::Text, Lex::Text);
}

proof fn lex_toc_items(heads: Seq<HeadV>)
    ensures
        lex(toc_items(heads), Lex::Text) == Some(Lex::Text),
    decreases heads.len(),
{
    lemma_lex_empty(Lex::Text);
    if heads.len() > 0 {
        lex_toc_items(heads.drop_last());
        let h = heads.last();
        lemma_lex_dec(clamp_level(h.level) as nat);
        lemma_lex_esc(h.slug);
        lemma_lex_esc(h.text);
        lit_li_class_alt_toc_l_text_quote();
        lit_a_href_quote_quote();
        lit_mark_quote_text();
        lit_a_li_text_text();
        lex_join(toc_items(heads.drop_last()), "<li class=\"alt-toc-l"@, Lex::Text, Lex::Text, Lex::Quote);
        lex_join(toc_items(heads.drop_last()) + "<li class=\"alt-toc-l"@, dec(clamp_level(h.level) as nat), Lex::Text, Lex::Quote, Lex::Quote);
        lex_join(toc_items(heads.drop_last()) + "<li class=\"alt-toc-l"@ + dec(clamp_level(h.level) as nat), "\"><a href=\"#"@, Lex::Text, Lex::Quote, Lex::Quote);
        lex_join(toc_items(heads.drop_last()) + "<li class=\"alt-toc-l"@ + dec(clamp_level(h.level) as nat) + "\"><a href=\"#"@, esc_attr(h.slug), Lex::Text, Lex::Quote, Lex::Quote);
        lex_join(toc_items(heads.drop_last()) + "<li class=\"alt-toc-l"@ + dec(clamp_level(h.level) as nat) + "\"><a href=\"#"@ + esc_attr(h.slug), "\">"@, Lex::Text, Lex::Quote, Lex::Text);
        lex_join(toc_items(heads.drop_last()) + "<li class=\"alt-toc-l"@ + dec(clamp_level(h.level) as nat) + "\"><a href=\"#"@ + esc_attr(h.slug) + "\">"@, esc(h.text), Lex::Text, Lex::Text, Lex::Text);
        lex_join(toc_items(heads.drop_last()) + "<li class=\"alt-toc-l"@ + dec(clamp_level(h.level) as nat) + "\"><a href=\"#"@ + esc_attr(h.slug) + "\">"@ + esc(h.text), "</a></li>\n"@, Lex::Text, Lex::Text, Lex::Text);
    }
}

proof fn lex_toc(heads: Seq<HeadV>)
    ensures
        lex(toc_html(heads), Lex::Text) == Some(Lex::Text),
{
    lex_toc_items(heads);
    let tail = if heads.len() == 0 {
        "</nav>"@
    } else {
        "\n<ul>\n"@ + toc_items(heads) + "</ul>\n</nav>"@
    };
    lit_nav_text_text();
    if heads.len() > 0 {
        lit_ul_text_text_3();
        lit_ul_nav_text_text();
        lex_join("\n<ul>\n"@, toc_items(heads), Lex::Text, Lex::Text, Lex::Text);
        lex_join("\n<ul>\n"@ + toc_items(heads), "</ul>\n</nav>"@, Lex::Text, Lex::Text, Lex::Text);
    }
    lit_nav_class_alt_toc_aria_label_table_of_co_text_text();
    lex_join("<nav class=\"alt-toc\" aria-label=\"Table of contents\">"@, tail, Lex::Text, Lex::Text, Lex::Text);
}

proof fn lex_refs_items(keys: Seq<Seq<char>>, bib: Seq<(Seq<char>, Seq<char>)>)
    ensures
        lex(refs_items(keys, bib), Lex::Text) == Some(Lex::Text),
    decreases keys.len(),
{
    lemma_lex_empty(Lex::Text);
    if keys.len() > 0 {
        lex_refs_items(keys.drop_last(), bib);
        lemma_lex_esc(keys.last());
        lemma_lex_esc(crate::render::bib_text(bib, keys.last()));
        lit_li_id_ref_text_quote();
        lit_mark_quote_text();
        lit_li_text_text_2();
        lex_join(refs_items(keys.drop_last(), bib), "\n<li id=\"ref-"@, Lex::Text, Lex::Text, Lex::Quote);
        lex_join(refs_items(keys.drop_last(), bib) + "\n<li id=\"ref-"@, esc_attr(keys.last()), Lex::Text, Lex::Quote, Lex::Quote);
        lex_join(refs_items(keys.drop_last(), bib) + "\n<li id=\"ref-"@ + esc_attr(keys.last()), "\">"@, Lex::Text, Lex::Quote, Lex::Text);
        lex_join(refs_items(keys.drop_last(), bib) + "\n<li id=\"ref-"@ + esc_attr(keys.last()) + "\">"@, esc(crate::render::bib_text(bib, keys.last())), Lex::Text, Lex::Text, Lex::Text);
        lex_join(refs_items(keys.drop_last(), bib) + "\n<li id=\"ref-"@ + esc_attr(keys.last()) + "\">"@ + esc(crate::render::bib_text(bib, keys.last())), "</li>"@, Lex::Text, Lex::Text, Lex::Text);
    }
}

proof fn lex_refs(cx: Ctx)
    ensures
        lex(refs_html(cx), Lex::Text) == Some(Lex::Text),
{
    lex_refs_items(cx.cited, cx.bib);
    lit_ol_class_alt_references_text_text();
    lit_ol_text_text_3();
    lex_join("<ol class=\"alt-references\">"@, refs_items(cx.cited, cx.bib), Lex::Text, Lex::Text, Lex::Text);
    lex_join("<ol class=\"alt-references\">"@ + refs_items(cx.cited, cx.bib), "\n</ol>"@, Lex::Text, Lex::Text, Lex::Text);
}

proof fn lex_embed(src: Seq<char>)
    ensures
        lex(embed_html(src), Lex::Text) == Some(Lex::Text),
        lex(include_html(src), Lex::Text) == Some(Lex::Text),
{
    lemma_lex_empty(Lex::Text);
    lemma_lex_esc(src);
    lemma_lex_esc(crate::html::safe_url_v(src));
    if src.len() > 0 {
        lit_a_href_text_quote();
        lit_rel_noopener_noreferrer_quote_text();
        lit_a_text_text();
        lex_join("<a href=\""@, esc_attr(src), Lex::Text, Lex::Quote, Lex::Quote);
        lex_join("<a href=\""@ + esc_attr(src), "\" rel=\"noopener noreferrer\">"@, Lex::Text, Lex::Quote, Lex::Text);
        lex_join("<a href=\""@ + esc_attr(src) + "\" rel=\"noopener noreferrer\">"@, esc(src), Lex::Text, Lex::Text, Lex::Text);
        lex_join("<a href=\""@ + esc_attr(src) + "\" rel=\"noopener noreferrer\">"@ + esc(src), "</a>"@, Lex::Text, Lex::Text, Lex::Text);
        lit_a_class_alt_include_href_text_quote();
        lit_mark_quote_text();
        lit_a_text_text();
        lex_join("<a class=\"alt-include\" href=\""@, esc_attr(crate::html::safe_url_v(src)), Lex::Text, Lex::Quote, Lex::Quote);
        lex_join("<a class=\"alt-include\" href=\""@ + esc_attr(crate::html::safe_url_v(src)), "\">"@, Lex::Text, Lex::Quote, Lex::Text);
        lex_join("<a class=\"alt-include\" href=\""@ + esc_attr(crate::html::safe_url_v(src)) + "\">"@, esc(src), Lex::Text, Lex::Text, Lex::Text);
        lex_join("<a class=\"alt-include\" href=\""@ + esc_attr(crate::html::safe_url_v(src)) + "\">"@ + esc(src), "</a>"@, Lex::Text, Lex::Text, Lex::Text);
    }
}

proof fn lex_math(body: BodyV)
    ensures
        lex(math_html(body), Lex::Text) == Some(Lex::Text),
{
    lemma_lex_empty(Lex::Text);
    match body {
        BodyV::Raw(r) => {
            let t = crate::text::trim_end(r);
            lemma_lex_esc(t);
            lit_code_class_alt_math_text_text();
            lit_code_text_text_2();
            lex_join("<code class=\"alt-math\">"@, esc(t), Lex::Text, Lex::Text, Lex::Text);
            lex_join("<code class=\"alt-math\">"@ + esc(t), "</code>"@, Lex::Text, Lex::Text, Lex::Text);
        },
        BodyV::Children(_) => {},
    }
}

proof fn lex_list(ordered: bool, start: u32)
    ensures
        lex(list_open(ordered, start), Lex::Text) == Some(Lex::Text),
        lex(list_close(ordered), Lex::Text) == Some(Lex::Text),
{
    lemma_lex_dec(start as nat);
    lit_ol_start_text_quote();
    lit_mark_quote_text_3();
    lex_join("<ol start=\""@, dec(start as nat), Lex::Text, Lex::Quote, Lex::Quote);
    lex_join("<ol start=\""@ + dec(start as nat), "\">\n"@, Lex::Text, Lex::Quote, Lex::Text);
    lit_ol_text_text();
    lit_ul_text_text();
    lit_ol_text_text_2();
    lit_ul_text_text_2();
}

proof fn lex_item_open(task: Option<bool>)
    ensures
        lex(item_open(task), Lex::Text) == Some(Lex::Text),
{
    lit_li_class_task_list_item_text_text();
    lit_input_type_checkbox_checked_disabled_text_text();
    lex_join("<li class=\"task-list-item\">"@, "<input type=\"checkbox\" checked disabled /> "@, Lex::Text, Lex::Text, Lex::Text);
    lit_li_class_task_list_item_text_text();
    lit_input_type_checkbox_disabled_text_text();
    lex_join("<li class=\"task-list-item\">"@, "<input type=\"checkbox\" disabled /> "@, Lex::Text, Lex::Text, Lex::Text);
    lit_li_text_text();
}

proof fn lex_heading_open(l: u8, cx: Ctx, cursor: usize)
    ensures
        lex(heading_open(l, cx, cursor), Lex::Text) == Some(Lex::Text),
{
    lemma_lex_dec(l as nat);
    if cursor < cx.heads.len() {
        let slug = cx.heads[cursor as int].slug;
        lemma_lex_esc(slug);
        lit_h_text_tag();
        lit_id_tag_quote();
        lit_mark_quote_text();
        lex_join("<h"@, dec(l as nat), Lex::Text, Lex::Tag, Lex::Tag);
        lex_join("<h"@ + dec(l as nat), " id=\""@, Lex::Text, Lex::Tag, Lex::Quote);
        lex_join("<h"@ + dec(l as nat) + " id=\""@, esc_attr(slug), Lex::Text, Lex::Quote, Lex::Quote);
        lex_join("<h"@ + dec(l as nat) + " id=\""@ + esc_attr(slug), "\">"@, Lex::Text, Lex::Quote, Lex::Text);
    } else {
        lit_h_text_tag();
        lit_mark_tag_text();
        lex_join("<h"@, dec(l as nat), Lex::Text, Lex::Tag, Lex::Tag);
        lex_join("<h"@ + dec(l as nat), ">"@, Lex::Text, Lex::Tag, Lex::Text);
    }
}

proof fn lex_figure(attrs: AttrsV, k: FigKind, n: u64, kids: Seq<char>)
    requires
        lex(kids, Lex::Text) == Some(Lex::Text),
    ensures
        lex(figure_html(attrs, k, n, kids), Lex::Text) == Some(Lex::Text),
{
    lemma_lex_empty(Lex::Text);
    lex_id_attr(attrs.id);
    lemma_lex_dec(n as nat);
    lit_figure_text_text();
    lit_table_text_text();
    lit_listing_text_text();
    let cap = match first_value(attrs.pairs, "caption"@) {
        Some(c) => ": "@ + esc(c),
        None => Seq::empty(),
    };
    match first_value(attrs.pairs, "caption"@) {
        Some(c) => {
            lemma_lex_esc(c);
            lit_mark_text_text_5();
            lex_join(": "@, esc(c), Lex::Text, Lex::Text, Lex::Text);
        },
        None => {},
    }
    lit_figure_text_tag();
    lit_mark_tag_text_3();
    lit_figcaption_span_class_alt_figlabel_text_text();
    lit_mark_text_text_6();
    lit_span_text_text();
    lit_figcaption_figure_text_text();
    lex_join("<figure"@, id_attr(attrs.id), Lex::Text, Lex::Tag, Lex::Tag);
    lex_join("<figure"@ + id_attr(attrs.id), ">\n"@, Lex::Text, Lex::Tag, Lex::Text);
    lex_join("<figure"@ + id_attr(attrs.id) + ">\n"@, kids, Lex::Text, Lex::Text, Lex::Text);
    lex_join("<figure"@ + id_attr(attrs.id) + ">\n"@ + kids, "<figcaption><span class=\"alt-figlabel\">"@, Lex::Text, Lex::Text, Lex::Text);
    lex_join("<figure"@ + id_attr(attrs.id) + ">\n"@ + kids + "<figcaption><span class=\"alt-figlabel\">"@, fig_prefix(k), Lex::Text, Lex::Text, Lex::Text);
    lex_join("<figure"@ + id_attr(attrs.id) + ">\n"@ + kids + "<figcaption><span class=\"alt-figlabel\">"@ + fig_prefix(k), " "@, Lex::Text, Lex::Text, Lex::Text);
    lex_join("<figure"@ + id_attr(attrs.id) + ">\n"@ + kids + "<figcaption><span class=\"alt-figlabel\">"@ + fig_prefix(k) + " "@, dec(n as nat), Lex::Text, Lex::Text, Lex::Text);
    lex_join("<figure"@ + id_attr(attrs.id) + ">\n"@ + kids + "<figcaption><span class=\"alt-figlabel\">"@ + fig_prefix(k) + " "@ + dec(n as nat), "</span>"@, Lex::Text, Lex::Text, Lex::Text);
    lex_join("<figure"@ + id_attr(attrs.id) + ">\n"@ + kids + "<figcaption><span class=\"alt-figlabel\">"@ + fig_prefix(k) + " "@ + dec(n as nat) + "</span>"@, cap, Lex::Text, Lex::Text, Lex::Text);
    lex_join("<figure"@ + id_attr(attrs.id) + ">\n"@ + kids + "<figcaption><span class=\"alt-figlabel\">"@ + fig_prefix(k) + " "@ + dec(n as nat) + "</span>"@ + cap, "</figcaption>\n</figure>\n"@, Lex::Text, Lex::Text, Lex::Text);
}

proof fn lex_wrap(class: Seq<char>, kids: Seq<char>)
    requires
        lex(class, Lex::Quote) == Some(Lex::Quote),
        lex(kids, Lex::Text) == Some(Lex::Text),
    ensures
        lex(wrap_html(class, kids), Lex::Text) == Some(Lex::Text),
{
    lit_div_class_text_quote();
    lit_mark_quote_text_3();
    lit_div_text_text();
    lex_join("<div class=\""@, class, Lex::Text, Lex::Quote, Lex::Quote);
    lex_join("<div class=\""@ + class, "\">\n"@, Lex::Text, Lex::Quote, Lex::Text);
    lex_join("<div class=\""@ + class + "\">\n"@, kids, Lex::Text, Lex::Text, Lex::Text);
    lex_join("<div class=\""@ + class + "\">\n"@ + kids, "</div>"@, Lex::Text, Lex::Text, Lex::Text);
}

#[verifier::spinoff_prover]
#[verifier::rlimit(60)]
proof fn lex_fallback(name: Seq<char>, attrs: AttrsV, body: BodyV, cx: Ctx, kids: Seq<char>)
    requires
        shows_children(name) ==> lex(kids, Lex::Text) == Some(Lex::Text),
    ensures
        lex(fallback_html(name, attrs, body, cx, kids), Lex::Text) == Some(Lex::Text),
{
    lemma_lex_empty(Lex::Text);
    match fallback_of(name) {
        Fallback::Callout => {
            let c = class_suffix(crate::render::get_or(attrs, "type"@, "note"@));
            lemma_lex_class_suffix(crate::render::get_or(attrs, "type"@, "note"@));
            lit_aside_class_alt_callout_alt_callout_text_quote();
            lit_role_note_quote_text();
            lit_aside_text_text();
            lex_join("<aside class=\"alt-callout alt-callout-"@, c, Lex::Text, Lex::Quote, Lex::Quote);
            lex_join("<aside class=\"alt-callout alt-callout-"@ + c, "\" role=\"note\">\n"@, Lex::Text, Lex::Quote, Lex::Text);
            lex_join("<aside class=\"alt-callout alt-callout-"@ + c + "\" role=\"note\">\n"@, kids, Lex::Text, Lex::Text, Lex::Text);
            lex_join("<aside class=\"alt-callout alt-callout-"@ + c + "\" role=\"note\">\n"@ + kids, "</aside>"@, Lex::Text, Lex::Text, Lex::Text);
        },
        Fallback::Accordion => {
            let t = crate::render::get_or(attrs, "title"@, "Details"@);
            lemma_lex_esc(t);
            lit_details_summary_text_text();
            lit_summary_text_text();
            lit_details_text_text();
            lex_join("<details><summary>"@, esc(t), Lex::Text, Lex::Text, Lex::Text);
            lex_join("<details><summary>"@ + esc(t), "</summary>\n"@, Lex::Text, Lex::Text, Lex::Text);
            lex_join("<details><summary>"@ + esc(t) + "</summary>\n"@, kids, Lex::Text, Lex::Text, Lex::Text);
            lex_join("<details><summary>"@ + esc(t) + "</summary>\n"@ + kids, "</details>"@, Lex::Text, Lex::Text, Lex::Text);
        },
        Fallback::Tabs => {
            lit_alt_tabs_quote_quote();
            lex_wrap("alt-tabs"@, kids);
        },
        Fallback::Tab => {
            let t = crate::render::get_or(attrs, "title"@, "Tab"@);
            lemma_lex_esc(t);
            lit_section_class_alt_tab_h3_text_text();
            lit_h3_text_text();
            lit_section_text_text();
            lex_join("<section class=\"alt-tab\"><h3>"@, esc(t), Lex::Text, Lex::Text, Lex::Text);
            lex_join("<section class=\"alt-tab\"><h3>"@ + esc(t), "</h3>\n"@, Lex::Text, Lex::Text, Lex::Text);
            lex_join("<section class=\"alt-tab\"><h3>"@ + esc(t) + "</h3>\n"@, kids, Lex::Text, Lex::Text, Lex::Text);
            lex_join("<section class=\"alt-tab\"><h3>"@ + esc(t) + "</h3>\n"@ + kids, "</section>"@, Lex::Text, Lex::Text, Lex::Text);
        },
        Fallback::Stack => {
            lit_alt_stack_quote_quote();
            lex_wrap("alt-stack"@, kids);
        },
        Fallback::Data => match body {
            BodyV::Raw(r) => lex_csv(r),
            BodyV::Children(_) => {},
        },
        Fallback::Math => lex_math(body),
        Fallback::Embed => lex_embed(crate::html::safe_url_v(crate::render::get_or(attrs, "src"@, ""@))),
        Fallback::Toc => lex_toc(cx.heads),
        Fallback::References => lex_refs(cx),
        Fallback::Include => lex_embed(crate::render::get_or(attrs, "src"@, ""@)),
        Fallback::Plain => match body {
            BodyV::Children(_) => {
                lit_mark_text_text();
                lex_join("\n"@, kids, Lex::Text, Lex::Text, Lex::Text);
            },
            BodyV::Raw(r) => {
                lemma_lex_esc(r);
                lit_pre_text_text();
                lit_pre_text_text_2();
                lex_join("<pre>"@, esc(r), Lex::Text, Lex::Text, Lex::Text);
                lex_join("<pre>"@ + esc(r), "</pre>"@, Lex::Text, Lex::Text, Lex::Text);
            },
        },
    }
}

proof fn lex_blocks(bs: Seq<BlockV>, cx: Ctx, st: RenderState)
    requires
        blocks_clean(bs),
    ensures
        lex(r_blocks(bs, cx, st).0, Lex::Text) == Some(Lex::Text),
    decreases bs,
{
    lemma_lex_empty(Lex::Text);
    if bs.len() > 0 {
        lex_blocks(bs.drop_last(), cx, st);
        let s1 = r_blocks(bs.drop_last(), cx, st).1;
        lex_block(bs.last(), cx, s1);
        lex_join(r_blocks(bs.drop_last(), cx, st).0, r_block(bs.last(), cx, s1).0, Lex::Text, Lex::Text, Lex::Text);
    }
}

proof fn lex_item_blocks(bs: Seq<BlockV>, tight: bool, cx: Ctx, st: RenderState)
    requires
        blocks_clean(bs),
    ensures
        lex(r_item_blocks(bs, tight, cx, st).0, Lex::Text) == Some(Lex::Text),
    decreases bs,
{
    lemma_lex_empty(Lex::Text);
    if bs.len() > 0 {
        lex_item_blocks(bs.drop_last(), tight, cx, st);
        let a = r_item_blocks(bs.drop_last(), tight, cx, st).0;
        let s1 = r_item_blocks(bs.drop_last(), tight, cx, st).1;
        lex_block(bs.last(), cx, s1);
        lex_join(a, r_block(bs.last(), cx, s1).0, Lex::Text, Lex::Text, Lex::Text);
        match bs.last() {
            BlockV::Paragraph(c) => {
                assert(block_clean(bs.last()));
                lex_inlines(c, cx);
                lex_join(a, r_inlines(c, cx), Lex::Text, Lex::Text, Lex::Text);
            },
            _ => {},
        }
    }
}

proof fn lex_items(items: Seq<ItemV>, tight: bool, cx: Ctx, st: RenderState)
    requires
        items_clean(items),
    ensures
        lex(r_items(items, tight, cx, st).0, Lex::Text) == Some(Lex::Text),
    decreases items,
{
    lemma_lex_empty(Lex::Text);
    if items.len() > 0 {
        lex_items(items.drop_last(), tight, cx, st);
        let s1 = r_items(items.drop_last(), tight, cx, st).1;
        let b = r_item_blocks(items.last().blocks, tight, cx, s1).0;
        lex_item_blocks(items.last().blocks, tight, cx, s1);
        lex_item_open(items.last().task);
        lit_li_text_text_3();
        lex_join(r_items(items.drop_last(), tight, cx, st).0, item_open(items.last().task), Lex::Text, Lex::Text, Lex::Text);
        lex_join(r_items(items.drop_last(), tight, cx, st).0 + item_open(items.last().task), b, Lex::Text, Lex::Text, Lex::Text);
        lex_join(r_items(items.drop_last(), tight, cx, st).0 + item_open(items.last().task) + b, "</li>\n"@, Lex::Text, Lex::Text, Lex::Text);
    }
}

#[verifier::spinoff_prover]
#[verifier::rlimit(60)]
proof fn lex_block(b: BlockV, cx: Ctx, st: RenderState)
    requires
        block_clean(b),
    ensures
        lex(r_block(b, cx, st).0, Lex::Text) == Some(Lex::Text),
    decreases b,
{
    match b {
        BlockV::Heading { level, content } => {
            let l = clamp_level(level);
            lex_heading_open(l, cx, st.cursor);
            lex_inlines(content, cx);
            lemma_lex_dec(l as nat);
            lit_h_text_tag_2();
            lit_mark_tag_text_3();
            lex_join(heading_open(l, cx, st.cursor), r_inlines(content, cx), Lex::Text, Lex::Text, Lex::Text);
            lex_join(heading_open(l, cx, st.cursor) + r_inlines(content, cx), "</h"@, Lex::Text, Lex::Text, Lex::Tag);
            lex_join(heading_open(l, cx, st.cursor) + r_inlines(content, cx) + "</h"@, dec(l as nat), Lex::Text, Lex::Tag, Lex::Tag);
            lex_join(heading_open(l, cx, st.cursor) + r_inlines(content, cx) + "</h"@ + dec(l as nat), ">\n"@, Lex::Text, Lex::Tag, Lex::Text);
        },
        BlockV::Paragraph(c) => {
            lex_inlines(c, cx);
            lit_p_text_text();
            lit_p_text_text_2();
            lex_join("<p>"@, r_inlines(c, cx), Lex::Text, Lex::Text, Lex::Text);
            lex_join("<p>"@ + r_inlines(c, cx), "</p>\n"@, Lex::Text, Lex::Text, Lex::Text);
        },
        BlockV::BlockQuote(c) => {
            lex_blocks(c, cx, st);
            let o = r_blocks(c, cx, st).0;
            lit_blockquote_text_text();
            lit_blockquote_text_text_2();
            lex_join("<blockquote>\n"@, o, Lex::Text, Lex::Text, Lex::Text);
            lex_join("<blockquote>\n"@ + o, "</blockquote>\n"@, Lex::Text, Lex::Text, Lex::Text);
        },
        BlockV::List { ordered, start, tight, items } => {
            lex_items(items, tight, cx, st);
            lex_list(ordered, start);
            let o = r_items(items, tight, cx, st).0;
            lex_join(list_open(ordered, start), o, Lex::Text, Lex::Text, Lex::Text);
            lex_join(list_open(ordered, start) + o, list_close(ordered), Lex::Text, Lex::Text, Lex::Text);
        },
        BlockV::CodeBlock { info, literal } => lex_code(info, literal),
        BlockV::ThematicBreak => {
            lit_hr_text_text();
        },
        BlockV::Table { alignments, header, rows } => lex_table(alignments, header, rows, cx),
        BlockV::FootnoteDefinition { name, blocks } => {
            lex_blocks(blocks, cx, st);
            lemma_lex_esc(name);
            let o = r_blocks(blocks, cx, st).0;
            lit_section_class_footnote_id_fn_text_quote();
            lit_mark_quote_text_3();
            lit_section_text_text_2();
            lex_join("<section class=\"footnote\" id=\"fn-"@, esc_attr(name), Lex::Text, Lex::Quote, Lex::Quote);
            lex_join("<section class=\"footnote\" id=\"fn-"@ + esc_attr(name), "\">\n"@, Lex::Text, Lex::Quote, Lex::Text);
            lex_join("<section class=\"footnote\" id=\"fn-"@ + esc_attr(name) + "\">\n"@, o, Lex::Text, Lex::Text, Lex::Text);
            lex_join("<section class=\"footnote\" id=\"fn-"@ + esc_attr(name) + "\">\n"@ + o, "</section>\n"@, Lex::Text, Lex::Text, Lex::Text);
        },
        BlockV::HtmlBlock(h) => {
            assert(lex(sanitize_v(h), Lex::Text) == Some(Lex::Text));
        },
        BlockV::Component { name, attrs, body } => lex_component(name, attrs, body, cx, st),
    }
}

#[verifier::spinoff_prover]
#[verifier::rlimit(60)]
proof fn lex_component(name: Seq<char>, attrs: AttrsV, body: BodyV, cx: Ctx, st: RenderState)
    requires
        kids_clean(name, body),
    ensures
        lex(r_component(name, attrs, body, cx, st).0, Lex::Text) == Some(Lex::Text),
    decreases body,
{
    lemma_lex_empty(Lex::Text);
    reveal_strlit("figure");
    reveal_strlit("bib");
    reveal_strlit("ai-policy");
    if !safe_name(name) {
    } else if name == "figure"@ {
        let k = crate::prepass::fig_kind_v(attrs);
        let f = crate::prepass::fig_bump(st.figs, k);
        let s1 = RenderState { cursor: st.cursor, figs: f };
        match body {
            BodyV::Children(c) => {
                lex_blocks(c, cx, s1);
                lex_figure(attrs, k, crate::prepass::fig_count(f, k), r_blocks(c, cx, s1).0);
            },
            BodyV::Raw(_) => {
                lex_figure(attrs, k, crate::prepass::fig_count(f, k), Seq::empty());
            },
        }
    } else if name == "bib"@ || name == "ai-policy"@ {
    } else {
        let kids = match body {
            BodyV::Children(c) => r_blocks(c, cx, st).0,
            BodyV::Raw(_) => Seq::empty(),
        };
        match body {
            BodyV::Children(c) => if shows_children(name) {
                lex_blocks(c, cx, st);
            },
            BodyV::Raw(_) => {},
        }
        lemma_lex_safe_name(name);
        lex_attrs(attrs);
        lex_fallback(name, attrs, body, cx, kids);
        lit_alt_text_tag();
        lit_mark_tag_text();
        lit_alt_text_tag_2();
        lit_mark_tag_text_3();
        lex_join("<alt-"@, name, Lex::Text, Lex::Tag, Lex::Tag);
        lex_join("<alt-"@ + name, attrs_html(attrs), Lex::Text, Lex::Tag, Lex::Tag);
        lex_join("<alt-"@ + name + attrs_html(attrs), ">"@, Lex::Text, Lex::Tag, Lex::Text);
        lex_join("<alt-"@ + name + attrs_html(attrs) + ">"@, fallback_html(name, attrs, body, cx, kids), Lex::Text, Lex::Text, Lex::Text);
        lex_join("<alt-"@ + name + attrs_html(attrs) + ">"@ + fallback_html(name, attrs, body, cx, kids), "</alt-"@, Lex::Text, Lex::Text, Lex::Tag);
        lex_join("<alt-"@ + name + attrs_html(attrs) + ">"@ + fallback_html(name, attrs, body, cx, kids) + "</alt-"@, name, Lex::Text, Lex::Tag, Lex::Tag);
        lex_join("<alt-"@ + name + attrs_html(attrs) + ">"@ + fallback_html(name, attrs, body, cx, kids) + "</alt-"@ + name, ">\n"@, Lex::Text, Lex::Tag, Lex::Text);
    }
}

/// Read left to right, a rendered document never begins an attribute whose
/// name starts with `on` (an event handler) inside a tag, and ends outside any
/// tag, when the raw HTML it writes out is clean once sanitised (which
/// [`crate::render::render_document`] shows of every document): the renderer
/// writes only its own attribute names, `data-` before every author-chosen key,
/// and escaped, quoted values.
pub proof fn law_no_event_handlers(doc: Seq<BlockV>)
    requires
        blocks_clean(doc),
    ensures
        lex(render_v(doc), Lex::Text) == Some(Lex::Text),
{
    lex_blocks(
        doc,
        crate::render::ctx_of(crate::prepass::pre_blocks(doc, crate::prepass::pre_empty())),
        crate::render::start_state(),
    );
}

proof fn lit_default_quote_quote()
    ensures
        lex("default"@, Lex::Quote) == Some(Lex::Quote),
{
    reveal_strlit("default");
    reveal_with_fuel(lex_from, 9);
}

proof fn lit_mark_text_text()
    ensures
        lex("\n"@, Lex::Text) == Some(Lex::Text),
{
    reveal_strlit("\n");
    reveal_with_fuel(lex_from, 3);
}

proof fn lit_br_text_text()
    ensures
        lex("<br />\n"@, Lex::Text) == Some(Lex::Text),
{
    reveal_strlit("<br />\n");
    reveal_with_fuel(lex_from, 9);
}

proof fn lit_style_text_align_left_tag_tag()
    ensures
        lex(" style=\"text-align:left\""@, Lex::Tag) == Some(Lex::Tag),
{
    reveal_strlit(" style=\"text-align:left\"");
    reveal_with_fuel(lex_from, 26);
}

proof fn lit_style_text_align_center_tag_tag()
    ensures
        lex(" style=\"text-align:center\""@, Lex::Tag) == Some(Lex::Tag),
{
    reveal_strlit(" style=\"text-align:center\"");
    reveal_with_fuel(lex_from, 28);
}

proof fn lit_style_text_align_right_tag_tag()
    ensures
        lex(" style=\"text-align:right\""@, Lex::Tag) == Some(Lex::Tag),
{
    reveal_strlit(" style=\"text-align:right\"");
    reveal_with_fuel(lex_from, 27);
}

proof fn lit_pre_code_text_text()
    ensures
        lex("<pre><code>"@, Lex::Text) == Some(Lex::Text),
{
    reveal_strlit("<pre><code>");
    reveal_with_fuel(lex_from, 13);
}

proof fn lit_nav_text_text()
    ensures
        lex("</nav>"@, Lex::Text) == Some(Lex::Text),
{
    reveal_strlit("</nav>");
    reveal_with_fuel(lex_from, 8);
}

proof fn lit_ol_text_text()
    ensures
        lex("<ol>\n"@, Lex::Text) == Some(Lex::Text),
{
    reveal_strlit("<ol>\n");
    reveal_with_fuel(lex_from, 7);
}

proof fn lit_ul_text_text()
    ensures
        lex("<ul>\n"@, Lex::Text) == Some(Lex::Text),
{
    reveal_strlit("<ul>\n");
    reveal_with_fuel(lex_from, 7);
}

proof fn lit_ol_text_text_2()
    ensures
        lex("</ol>\n"@, Lex::Text) == Some(Lex::Text),
{
    reveal_strlit("</ol>\n");
    reveal_with_fuel(lex_from, 8);
}

proof fn lit_ul_text_text_2()
    ensures
        lex("</ul>\n"@, Lex::Text) == Some(Lex::Text),
{
    reveal_strlit("</ul>\n");
    reveal_with_fuel(lex_from, 8);
}

proof fn lit_li_text_text()
    ensures
        lex("<li>"@, Lex::Text) == Some(Lex::Text),
{
    reveal_strlit("<li>");
    reveal_with_fuel(lex_from, 6);
}

proof fn lit_figure_text_text()
    ensures
        lex("Figure"@, Lex::Text) == Some(Lex::Text),
{
    reveal_strlit("Figure");
    reveal_with_fuel(lex_from, 8);
}

proof fn lit_table_text_text()
    ensures
        lex("Table"@, Lex::Text) == Some(Lex::Text),
{
    reveal_strlit("Table");
    reveal_with_fuel(lex_from, 7);
}

proof fn lit_listing_text_text()
    ensures
        lex("Listing"@, Lex::Text) == Some(Lex::Text),
{
    reveal_strlit("Listing");
    reveal_with_fuel(lex_from, 9);
}

proof fn lit_alt_tabs_quote_quote()
    ensures
        lex("alt-tabs"@, Lex::Quote) == Some(Lex::Quote),
{
    reveal_strlit("alt-tabs");
    reveal_with_fuel(lex_from, 10);
}

proof fn lit_alt_stack_quote_quote()
    ensures
        lex("alt-stack"@, Lex::Quote) == Some(Lex::Quote),
{
    reveal_strlit("alt-stack");
    reveal_with_fuel(lex_from, 11);
}

proof fn lit_hr_text_text()
    ensures
        lex("<hr />\n"@, Lex::Text) == Some(Lex::Text),
{
    reveal_strlit("<hr />\n");
    reveal_with_fuel(lex_from, 9);
}

proof fn lit_title_tag_quote()
    ensures
        lex(" title=\""@, Lex::Tag) == Some(Lex::Quote),
{
    reveal_strlit(" title=\"");
    reveal_with_fuel(lex_from, 10);
}

proof fn lit_mark_quote_tag()
    ensures
        lex("\""@, Lex::Quote) == Some(Lex::Tag),
{
    reveal_strlit("\"");
    reveal_with_fuel(lex_from, 3);
}

proof fn lit_a_class_alt_xref_href_text_quote()
    ensures
        lex("<a class=\"alt-xref\" href=\"#"@, Lex::Text) == Some(Lex::Quote),
{
    reveal_strlit("<a class=\"alt-xref\" href=\"#");
    reveal_with_fuel(lex_from, 29);
}

proof fn lit_mark_quote_text()
    ensures
        lex("\">"@, Lex::Quote) == Some(Lex::Text),
{
    reveal_strlit("\">");
    reveal_with_fuel(lex_from, 4);
}

proof fn lit_a_text_text()
    ensures
        lex("</a>"@, Lex::Text) == Some(Lex::Text),
{
    reveal_strlit("</a>");
    reveal_with_fuel(lex_from, 6);
}

proof fn lit_mark_text_text_2()
    ensures
        lex("[#"@, Lex::Text) == Some(Lex::Text),
{
    reveal_strlit("[#");
    reveal_with_fuel(lex_from, 4);
}

proof fn lit_mark_text_text_3()
    ensures
        lex("]"@, Lex::Text) == Some(Lex::Text),
{
    reveal_strlit("]");
    reveal_with_fuel(lex_from, 3);
}

proof fn lit_a_class_alt_cite_href_ref_text_quote()
    ensures
        lex("<a class=\"alt-cite\" href=\"#ref-"@, Lex::Text) == Some(Lex::Quote),
{
    reveal_strlit("<a class=\"alt-cite\" href=\"#ref-");
    reveal_with_fuel(lex_from, 33);
}

proof fn lit_mark_quote_text_2()
    ensures
        lex("\">["@, Lex::Quote) == Some(Lex::Text),
{
    reveal_strlit("\">[");
    reveal_with_fuel(lex_from, 5);
}

proof fn lit_a_text_text_2()
    ensures
        lex("]</a>"@, Lex::Text) == Some(Lex::Text),
{
    reveal_strlit("]</a>");
    reveal_with_fuel(lex_from, 7);
}

proof fn lit_mark_text_text_4()
    ensures
        lex("[@"@, Lex::Text) == Some(Lex::Text),
{
    reveal_strlit("[@");
    reveal_with_fuel(lex_from, 4);
}

proof fn lit_a_href_text_quote()
    ensures
        lex("<a href=\""@, Lex::Text) == Some(Lex::Quote),
{
    reveal_strlit("<a href=\"");
    reveal_with_fuel(lex_from, 11);
}

proof fn lit_mark_tag_text()
    ensures
        lex(">"@, Lex::Tag) == Some(Lex::Text),
{
    reveal_strlit(">");
    reveal_with_fuel(lex_from, 3);
}

proof fn lit_img_src_text_quote()
    ensures
        lex("<img src=\""@, Lex::Text) == Some(Lex::Quote),
{
    reveal_strlit("<img src=\"");
    reveal_with_fuel(lex_from, 12);
}

proof fn lit_alt_quote_quote()
    ensures
        lex("\" alt=\""@, Lex::Quote) == Some(Lex::Quote),
{
    reveal_strlit("\" alt=\"");
    reveal_with_fuel(lex_from, 9);
}

proof fn lit_mark_tag_text_2()
    ensures
        lex(" />"@, Lex::Tag) == Some(Lex::Text),
{
    reveal_strlit(" />");
    reveal_with_fuel(lex_from, 5);
}

proof fn lit_sup_class_footnote_ref_a_href_fn_text_quote()
    ensures
        lex("<sup class=\"footnote-ref\"><a href=\"#fn-"@, Lex::Text) == Some(Lex::Quote),
{
    reveal_strlit("<sup class=\"footnote-ref\"><a href=\"#fn-");
    reveal_with_fuel(lex_from, 41);
}

proof fn lit_a_sup_text_text()
    ensures
        lex("</a></sup>"@, Lex::Text) == Some(Lex::Text),
{
    reveal_strlit("</a></sup>");
    reveal_with_fuel(lex_from, 12);
}

proof fn lit_em_text_text()
    ensures
        lex("<em>"@, Lex::Text) == Some(Lex::Text),
{
    reveal_strlit("<em>");
    reveal_with_fuel(lex_from, 6);
}

proof fn lit_em_text_text_2()
    ensures
        lex("</em>"@, Lex::Text) == Some(Lex::Text),
{
    reveal_strlit("</em>");
    reveal_with_fuel(lex_from, 7);
}

proof fn lit_strong_text_text()
    ensures
        lex("<strong>"@, Lex::Text) == Some(Lex::Text),
{
    reveal_strlit("<strong>");
    reveal_with_fuel(lex_from, 10);
}

proof fn lit_strong_text_text_2()
    ensures
        lex("</strong>"@, Lex::Text) == Some(Lex::Text),
{
    reveal_strlit("</strong>");
    reveal_with_fuel(lex_from, 11);
}

proof fn lit_del_text_text()
    ensures
        lex("<del>"@, Lex::Text) == Some(Lex::Text),
{
    reveal_strlit("<del>");
    reveal_with_fuel(lex_from, 7);
}

proof fn lit_del_text_text_2()
    ensures
        lex("</del>"@, Lex::Text) == Some(Lex::Text),
{
    reveal_strlit("</del>");
    reveal_with_fuel(lex_from, 8);
}

proof fn lit_code_text_text()
    ensures
        lex("<code>"@, Lex::Text) == Some(Lex::Text),
{
    reveal_strlit("<code>");
    reveal_with_fuel(lex_from, 8);
}

proof fn lit_code_text_text_2()
    ensures
        lex("</code>"@, Lex::Text) == Some(Lex::Text),
{
    reveal_strlit("</code>");
    reveal_with_fuel(lex_from, 9);
}

proof fn lit_th_text_tag()
    ensures
        lex("<th"@, Lex::Text) == Some(Lex::Tag),
{
    reveal_strlit("<th");
    reveal_with_fuel(lex_from, 5);
}

proof fn lit_th_text_text()
    ensures
        lex("</th>\n"@, Lex::Text) == Some(Lex::Text),
{
    reveal_strlit("</th>\n");
    reveal_with_fuel(lex_from, 8);
}

proof fn lit_td_text_tag()
    ensures
        lex("<td"@, Lex::Text) == Some(Lex::Tag),
{
    reveal_strlit("<td");
    reveal_with_fuel(lex_from, 5);
}

proof fn lit_td_text_text()
    ensures
        lex("</td>\n"@, Lex::Text) == Some(Lex::Text),
{
    reveal_strlit("</td>\n");
    reveal_with_fuel(lex_from, 8);
}

proof fn lit_tr_text_text()
    ensures
        lex("<tr>\n"@, Lex::Text) == Some(Lex::Text),
{
    reveal_strlit("<tr>\n");
    reveal_with_fuel(lex_from, 7);
}

proof fn lit_tr_text_text_2()
    ensures
        lex("</tr>\n"@, Lex::Text) == Some(Lex::Text),
{
    reveal_strlit("</tr>\n");
    reveal_with_fuel(lex_from, 8);
}

proof fn lit_tbody_text_text()
    ensures
        lex("<tbody>\n"@, Lex::Text) == Some(Lex::Text),
{
    reveal_strlit("<tbody>\n");
    reveal_with_fuel(lex_from, 10);
}

proof fn lit_tbody_text_text_2()
    ensures
        lex("</tbody>\n"@, Lex::Text) == Some(Lex::Text),
{
    reveal_strlit("</tbody>\n");
    reveal_with_fuel(lex_from, 11);
}

proof fn lit_table_thead_tr_text_text()
    ensures
        lex("<table>\n<thead>\n<tr>\n"@, Lex::Text) == Some(Lex::Text),
{
    reveal_strlit("<table>\n<thead>\n<tr>\n");
    reveal_with_fuel(lex_from, 23);
}

proof fn lit_tr_thead_text_text()
    ensures
        lex("</tr>\n</thead>\n"@, Lex::Text) == Some(Lex::Text),
{
    reveal_strlit("</tr>\n</thead>\n");
    reveal_with_fuel(lex_from, 17);
}

proof fn lit_table_text_text_2()
    ensures
        lex("</table>\n"@, Lex::Text) == Some(Lex::Text),
{
    reveal_strlit("</table>\n");
    reveal_with_fuel(lex_from, 11);
}

proof fn lit_pre_code_class_language_text_quote()
    ensures
        lex("<pre><code class=\"language-"@, Lex::Text) == Some(Lex::Quote),
{
    reveal_strlit("<pre><code class=\"language-");
    reveal_with_fuel(lex_from, 29);
}

proof fn lit_code_pre_text_text()
    ensures
        lex("</code></pre>\n"@, Lex::Text) == Some(Lex::Text),
{
    reveal_strlit("</code></pre>\n");
    reveal_with_fuel(lex_from, 16);
}

proof fn lit_id_tag_quote()
    ensures
        lex(" id=\""@, Lex::Tag) == Some(Lex::Quote),
{
    reveal_strlit(" id=\"");
    reveal_with_fuel(lex_from, 7);
}

proof fn lit_data_tag_tag()
    ensures
        lex(" data-"@, Lex::Tag) == Some(Lex::Tag),
{
    reveal_strlit(" data-");
    reveal_with_fuel(lex_from, 8);
}

proof fn lit_mark_tag_quote()
    ensures
        lex("=\""@, Lex::Tag) == Some(Lex::Quote),
{
    reveal_strlit("=\"");
    reveal_with_fuel(lex_from, 4);
}

proof fn lit_class_tag_quote()
    ensures
        lex(" class=\""@, Lex::Tag) == Some(Lex::Quote),
{
    reveal_strlit(" class=\"");
    reveal_with_fuel(lex_from, 10);
}

proof fn lit_th_text_text_2()
    ensures
        lex("<th>"@, Lex::Text) == Some(Lex::Text),
{
    reveal_strlit("<th>");
    reveal_with_fuel(lex_from, 6);
}

proof fn lit_th_text_text_3()
    ensures
        lex("</th>"@, Lex::Text) == Some(Lex::Text),
{
    reveal_strlit("</th>");
    reveal_with_fuel(lex_from, 7);
}

proof fn lit_td_text_text_2()
    ensures
        lex("<td>"@, Lex::Text) == Some(Lex::Text),
{
    reveal_strlit("<td>");
    reveal_with_fuel(lex_from, 6);
}

proof fn lit_td_text_text_3()
    ensures
        lex("</td>"@, Lex::Text) == Some(Lex::Text),
{
    reveal_strlit("</td>");
    reveal_with_fuel(lex_from, 7);
}

proof fn lit_tr_text_text_3()
    ensures
        lex("<tr>"@, Lex::Text) == Some(Lex::Text),
{
    reveal_strlit("<tr>");
    reveal_with_fuel(lex_from, 6);
}

proof fn lit_tr_text_text_4()
    ensures
        lex("</tr>"@, Lex::Text) == Some(Lex::Text),
{
    reveal_strlit("</tr>");
    reveal_with_fuel(lex_from, 7);
}

proof fn lit_thead_tr_text_text()
    ensures
        lex("<thead><tr>"@, Lex::Text) == Some(Lex::Text),
{
    reveal_strlit("<thead><tr>");
    reveal_with_fuel(lex_from, 13);
}

proof fn lit_tr_thead_text_text_2()
    ensures
        lex("</tr></thead>"@, Lex::Text) == Some(Lex::Text),
{
    reveal_strlit("</tr></thead>");
    reveal_with_fuel(lex_from, 15);
}

proof fn lit_table_text_text_3()
    ensures
        lex("<table>"@, Lex::Text) == Some(Lex::Text),
{
    reveal_strlit("<table>");
    reveal_with_fuel(lex_from, 9);
}

proof fn lit_tbody_text_text_3()
    ensures
        lex("<tbody>"@, Lex::Text) == Some(Lex::Text),
{
    reveal_strlit("<tbody>");
    reveal_with_fuel(lex_from, 9);
}

proof fn lit_tbody_table_text_text()
    ensures
        lex("</tbody></table>"@, Lex::Text) == Some(Lex::Text),
{
    reveal_strlit("</tbody></table>");
    reveal_with_fuel(lex_from, 18);
}

proof fn lit_li_class_alt_toc_l_text_quote()
    ensures
        lex("<li class=\"alt-toc-l"@, Lex::Text) == Some(Lex::Quote),
{
    reveal_strlit("<li class=\"alt-toc-l");
    reveal_with_fuel(lex_from, 22);
}

proof fn lit_a_href_quote_quote()
    ensures
        lex("\"><a href=\"#"@, Lex::Quote) == Some(Lex::Quote),
{
    reveal_strlit("\"><a href=\"#");
    reveal_with_fuel(lex_from, 14);
}

proof fn lit_a_li_text_text()
    ensures
        lex("</a></li>\n"@, Lex::Text) == Some(Lex::Text),
{
    reveal_strlit("</a></li>\n");
    reveal_with_fuel(lex_from, 12);
}

proof fn lit_ul_text_text_3()
    ensures
        lex("\n<ul>\n"@, Lex::Text) == Some(Lex::Text),
{
    reveal_strlit("\n<ul>\n");
    reveal_with_fuel(lex_from, 8);
}

proof fn lit_ul_nav_text_text()
    ensures
        lex("</ul>\n</nav>"@, Lex::Text) == Some(Lex::Text),
{
    reveal_strlit("</ul>\n</nav>");
    reveal_with_fuel(lex_from, 14);
}

proof fn lit_nav_class_alt_toc_aria_label_table_of_co_text_text()
    ensures
        lex("<nav class=\"alt-toc\" aria-label=\"Table of contents\">"@, Lex::Text) == Some(Lex::Text),
{
    reveal_strlit("<nav class=\"alt-toc\" aria-label=\"Table of contents\">");
    reveal_with_fuel(lex_from, 54);
}

proof fn lit_li_id_ref_text_quote()
    ensures
        lex("\n<li id=\"ref-"@, Lex::Text) == Some(Lex::Quote),
{
    reveal_strlit("\n<li id=\"ref-");
    reveal_with_fuel(lex_from, 15);
}

proof fn lit_li_text_text_2()
    ensures
        lex("</li>"@, Lex::Text) == Some(Lex::Text),
{
    reveal_strlit("</li>");
    reveal_with_fuel(lex_from, 7);
}

proof fn lit_ol_class_alt_references_text_text()
    ensures
        lex("<ol class=\"alt-references\">"@, Lex::Text) == Some(Lex::Text),
{
    reveal_strlit("<ol class=\"alt-references\">");
    reveal_with_fuel(lex_from, 29);
}

proof fn lit_ol_text_text_3()
    ensures
        lex("\n</ol>"@, Lex::Text) == Some(Lex::Text),
{
    reveal_strlit("\n</ol>");
    reveal_with_fuel(lex_from, 8);
}

proof fn lit_rel_noopener_noreferrer_quote_text()
    ensures
        lex("\" rel=\"noopener noreferrer\">"@, Lex::Quote) == Some(Lex::Text),
{
    reveal_strlit("\" rel=\"noopener noreferrer\">");
    reveal_with_fuel(lex_from, 30);
}

proof fn lit_a_class_alt_include_href_text_quote()
    ensures
        lex("<a class=\"alt-include\" href=\""@, Lex::Text) == Some(Lex::Quote),
{
    reveal_strlit("<a class=\"alt-include\" href=\"");
    reveal_with_fuel(lex_from, 31);
}

proof fn lit_code_class_alt_math_text_text()
    ensures
        lex("<code class=\"alt-math\">"@, Lex::Text) == Some(Lex::Text),
{
    reveal_strlit("<code class=\"alt-math\">");
    reveal_with_fuel(lex_from, 25);
}

proof fn lit_ol_start_text_quote()
    ensures
        lex("<ol start=\""@, Lex::Text) == Some(Lex::Quote),
{
    reveal_strlit("<ol start=\"");
    reveal_with_fuel(lex_from, 13);
}

proof fn lit_mark_quote_text_3()
    ensures
        lex("\">\n"@, Lex::Quote) == Some(Lex::Text),
{
    reveal_strlit("\">\n");
    reveal_with_fuel(lex_from, 5);
}

proof fn lit_li_class_task_list_item_text_text()
    ensures
        lex("<li class=\"task-list-item\">"@, Lex::Text) == Some(Lex::Text),
{
    reveal_strlit("<li class=\"task-list-item\">");
    reveal_with_fuel(lex_from, 29);
}

proof fn lit_input_type_checkbox_checked_disabled_text_text()
    ensures
        lex("<input type=\"checkbox\" checked disabled /> "@, Lex::Text) == Some(Lex::Text),
{
    reveal_strlit("<input type=\"checkbox\" checked disabled /> ");
    reveal_with_fuel(lex_from, 45);
}

proof fn lit_input_type_checkbox_disabled_text_text()
    ensures
        lex("<input type=\"checkbox\" disabled /> "@, Lex::Text) == Some(Lex::Text),
{
    reveal_strlit("<input type=\"checkbox\" disabled /> ");
    reveal_with_fuel(lex_from, 37);
}

proof fn lit_h_text_tag()
    ensures
        lex("<h"@, Lex::Text) == Some(Lex::Tag),
{
    reveal_strlit("<h");
    reveal_with_fuel(lex_from, 4);
}

proof fn lit_mark_text_text_5()
    ensures
        lex(": "@, Lex::Text) == Some(Lex::Text),
{
    reveal_strlit(": ");
    reveal_with_fuel(lex_from, 4);
}

proof fn lit_figure_text_tag()
    ensures
        lex("<figure"@, Lex::Text) == Some(Lex::Tag),
{
    reveal_strlit("<figure");
    reveal_with_fuel(lex_from, 9);
}

proof fn lit_mark_tag_text_3()
    ensures
        lex(">\n"@, Lex::Tag) == Some(Lex::Text),
{
    reveal_strlit(">\n");
    reveal_with_fuel(lex_from, 4);
}

proof fn lit_figcaption_span_class_alt_figlabel_text_text()
    ensures
        lex("<figcaption><span class=\"alt-figlabel\">"@, Lex::Text) == Some(Lex::Text),
{
    reveal_strlit("<figcaption><span class=\"alt-figlabel\">");
    reveal_with_fuel(lex_from, 41);
}

proof fn lit_mark_text_text_6()
    ensures
        lex(" "@, Lex::Text) == Some(Lex::Text),
{
    reveal_strlit(" ");
    reveal_with_fuel(lex_from, 3);
}

proof fn lit_span_text_text()
    ensures
        lex("</span>"@, Lex::Text) == Some(Lex::Text),
{
    reveal_strlit("</span>");
    reveal_with_fuel(lex_from, 9);
}

proof fn lit_figcaption_figure_text_text()
    ensures
        lex("</figcaption>\n</figure>\n"@, Lex::Text) == Some(Lex::Text),
{
    reveal_strlit("</figcaption>\n</figure>\n");
    reveal_with_fuel(lex_from, 26);
}

proof fn lit_div_class_text_quote()
    ensures
        lex("<div class=\""@, Lex::Text) == Some(Lex::Quote),
{
    reveal_strlit("<div class=\"");
    reveal_with_fuel(lex_from, 14);
}

proof fn lit_div_text_text()
    ensures
        lex("</div>"@, Lex::Text) == Some(Lex::Text),
{
    reveal_strlit("</div>");
    reveal_with_fuel(lex_from, 8);
}

proof fn lit_aside_class_alt_callout_alt_callout_text_quote()
    ensures
        lex("<aside class=\"alt-callout alt-callout-"@, Lex::Text) == Some(Lex::Quote),
{
    reveal_strlit("<aside class=\"alt-callout alt-callout-");
    reveal_with_fuel(lex_from, 40);
}

proof fn lit_role_note_quote_text()
    ensures
        lex("\" role=\"note\">\n"@, Lex::Quote) == Some(Lex::Text),
{
    reveal_strlit("\" role=\"note\">\n");
    reveal_with_fuel(lex_from, 17);
}

proof fn lit_aside_text_text()
    ensures
        lex("</aside>"@, Lex::Text) == Some(Lex::Text),
{
    reveal_strlit("</aside>");
    reveal_with_fuel(lex_from, 10);
}

proof fn lit_details_summary_text_text()
    ensures
        lex("<details><summary>"@, Lex::Text) == Some(Lex::Text),
{
    reveal_strlit("<details><summary>");
    reveal_with_fuel(lex_from, 20);
}

proof fn lit_summary_text_text()
    ensures
        lex("</summary>\n"@, Lex::Text) == Some(Lex::Text),
{
    reveal_strlit("</summary>\n");
    reveal_with_fuel(lex_from, 13);
}

proof fn lit_details_text_text()
    ensures
        lex("</details>"@, Lex::Text) == Some(Lex::Text),
{
    reveal_strlit("</details>");
    reveal_with_fuel(lex_from, 12);
}

proof fn lit_section_class_alt_tab_h3_text_text()
    ensures
        lex("<section class=\"alt-tab\"><h3>"@, Lex::Text) == Some(Lex::Text),
{
    reveal_strlit("<section class=\"alt-tab\"><h3>");
    reveal_with_fuel(lex_from, 31);
}

proof fn lit_h3_text_text()
    ensures
        lex("</h3>\n"@, Lex::Text) == Some(Lex::Text),
{
    reveal_strlit("</h3>\n");
    reveal_with_fuel(lex_from, 8);
}

proof fn lit_section_text_text()
    ensures
        lex("</section>"@, Lex::Text) == Some(Lex::Text),
{
    reveal_strlit("</section>");
    reveal_with_fuel(lex_from, 12);
}

proof fn lit_pre_text_text()
    ensures
        lex("<pre>"@, Lex::Text) == Some(Lex::Text),
{
    reveal_strlit("<pre>");
    reveal_with_fuel(lex_from, 7);
}

proof fn lit_pre_text_text_2()
    ensures
        lex("</pre>"@, Lex::Text) == Some(Lex::Text),
{
    reveal_strlit("</pre>");
    reveal_with_fuel(lex_from, 8);
}

proof fn lit_li_text_text_3()
    ensures
        lex("</li>\n"@, Lex::Text) == Some(Lex::Text),
{
    reveal_strlit("</li>\n");
    reveal_with_fuel(lex_from, 8);
}

proof fn lit_h_text_tag_2()
    ensures
        lex("</h"@, Lex::Text) == Some(Lex::Tag),
{
    reveal_strlit("</h");
    reveal_with_fuel(lex_from, 5);
}

proof fn lit_p_text_text()
    ensures
        lex("<p>"@, Lex::Text) == Some(Lex::Text),
{
    reveal_strlit("<p>");
    reveal_with_fuel(lex_from, 5);
}

proof fn lit_p_text_text_2()
    ensures
        lex("</p>\n"@, Lex::Text) == Some(Lex::Text),
{
    reveal_strlit("</p>\n");
    reveal_with_fuel(lex_from, 7);
}

proof fn lit_blockquote_text_text()
    ensures
        lex("<blockquote>\n"@, Lex::Text) == Some(Lex::Text),
{
    reveal_strlit("<blockquote>\n");
    reveal_with_fuel(lex_from, 15);
}

proof fn lit_blockquote_text_text_2()
    ensures
        lex("</blockquote>\n"@, Lex::Text) == Some(Lex::Text),
{
    reveal_strlit("</blockquote>\n");
    reveal_with_fuel(lex_from, 16);
}

proof fn lit_section_class_footnote_id_fn_text_quote()
    ensures
        lex("<section class=\"footnote\" id=\"fn-"@, Lex::Text) == Some(Lex::Quote),
{
    reveal_strlit("<section class=\"footnote\" id=\"fn-");
    reveal_with_fuel(lex_from, 35);
}

proof fn lit_section_text_text_2()
    ensures
        lex("</section>\n"@, Lex::Text) == Some(Lex::Text),
{
    reveal_strlit("</section>\n");
    reveal_with_fuel(lex_from, 13);
}

proof fn lit_alt_text_tag()
    ensures
        lex("<alt-"@, Lex::Text) == Some(Lex::Tag),
{
    reveal_strlit("<alt-");
    reveal_with_fuel(lex_from, 7);
}

proof fn lit_alt_text_tag_2()
    ensures
        lex("</alt-"@, Lex::Text) == Some(Lex::Tag),
{
    reveal_strlit("</alt-");
    reveal_with_fuel(lex_from, 8);
}

} // verus!
