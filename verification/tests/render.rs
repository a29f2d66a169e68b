use altmd::{render_document, CommonMarkParser, Parser};

fn render(source: &str) -> String {
    let doc = CommonMarkParser::new().parse(source).expect("parse");
    render_document(&doc)
}

#[test]
fn renders_basic_blocks() {
    let html = render("# Title\n\nsome **bold** text");
    assert!(html.contains("<h1 id=\"title\">Title</h1>"), "{html}");
    assert!(html.contains("<strong>bold</strong>"), "{html}");
}

#[test]
fn headings_get_unique_anchor_slugs() {
    let html = render("# Hello World\n\n## Hello World\n\n## A & B!");
    assert!(html.contains("<h1 id=\"hello-world\">"), "{html}");
    // A repeated heading is disambiguated, not duplicated.
    assert!(html.contains("<h2 id=\"hello-world-1\">"), "{html}");
    // Punctuation collapses to single hyphens, no leading/trailing hyphen.
    assert!(html.contains("<h2 id=\"a-b\">"), "{html}");
}

#[test]
fn toc_lists_every_heading_with_anchor_links() {
    let html = render(":::toc\n:::\n\n# First\n\n## Second\n\n### Third");
    assert!(html.contains("<alt-toc>"), "toc wrapper missing: {html}");
    assert!(html.contains("<nav class=\"alt-toc\""), "{html}");
    assert!(
        html.contains("<li class=\"alt-toc-l1\"><a href=\"#first\">First</a></li>"),
        "{html}"
    );
    assert!(
        html.contains("<li class=\"alt-toc-l2\"><a href=\"#second\">Second</a></li>"),
        "{html}"
    );
    assert!(
        html.contains("<li class=\"alt-toc-l3\"><a href=\"#third\">Third</a></li>"),
        "{html}"
    );
}

#[test]
fn toc_escapes_heading_text() {
    // A heading containing markup characters must not leak a tag into the nav.
    let html = render(":::toc\n:::\n\n# <script>alert(1)</script>");
    assert!(!html.contains("<script"), "toc leaked a tag: {html}");
}

#[test]
fn renders_directive_as_custom_element() {
    let html = render(":::callout{type=warning}\nHeads up.\n:::");
    assert!(
        html.contains("<alt-callout data-type=\"warning\">"),
        "{html}"
    );
    assert!(html.contains("Heads up."), "fallback missing: {html}");
    assert!(html.contains("</alt-callout>"), "{html}");
}

#[test]
fn chart_fallback_is_a_data_table() {
    let html = render("```chart kind=line\nmonth,value\njan,1\n```");
    assert!(html.contains("<alt-chart data-kind=\"line\">"), "{html}");
    assert!(html.contains("<th>month</th>"), "header missing: {html}");
    assert!(html.contains("<td>jan</td>"), "row missing: {html}");
}

#[test]
fn strips_raw_inline_script() {
    let html = render("a <script>alert(1)</script> b");
    assert!(!html.contains("<script"), "script survived: {html}");
}

#[test]
fn escapes_literal_special_characters() {
    let html = render("1 < 2 & 3");
    assert!(html.contains("&lt;"), "lt not escaped: {html}");
    assert!(html.contains("&amp;"), "amp not escaped: {html}");
}

#[test]
fn filters_javascript_urls() {
    let html = render("[x](javascript:alert(1))");
    assert!(!html.contains("javascript:"), "js url survived: {html}");
    assert!(html.contains("<a href=\"\">x</a>"), "{html}");
}

#[test]
fn renders_gfm_table_with_alignment() {
    let html = render("| a | b |\n|:--|--:|\n| 1 | 2 |");
    assert!(html.contains("<table>"), "{html}");
    assert!(
        html.contains("<th style=\"text-align:left\">a</th>"),
        "{html}"
    );
    assert!(
        html.contains("<th style=\"text-align:right\">b</th>"),
        "{html}"
    );
    assert!(
        html.contains("<td style=\"text-align:left\">1</td>"),
        "{html}"
    );
}

#[test]
fn renders_gfm_task_list_checkboxes() {
    let html = render("- [x] done\n- [ ] todo");
    assert!(
        html.contains("<input type=\"checkbox\" checked disabled /> done</li>"),
        "checked box not inline with text: {html}"
    );
    assert!(
        html.contains("<input type=\"checkbox\" disabled /> todo</li>"),
        "unchecked box not inline with text: {html}"
    );
}

#[test]
fn tight_lists_drop_the_paragraph_wrapper() {
    // A tight list item must not wrap its text in <p>, so a checkbox or
    // bullet sits on the same line as the text.
    let html = render("- one\n- two");
    assert!(
        html.contains("<li>one</li>"),
        "tight item wrapped in <p>: {html}"
    );
}

#[test]
fn loose_lists_keep_the_paragraph_wrapper() {
    let html = render("- one\n\n- two");
    assert!(
        html.contains("<li><p>one</p>"),
        "loose item lost its <p>: {html}"
    );
}

#[test]
fn renders_gfm_strikethrough_and_autolink() {
    let html = render("~~gone~~ and https://example.com");
    assert!(html.contains("<del>gone</del>"), "{html}");
    assert!(
        html.contains("<a href=\"https://example.com\">https://example.com</a>"),
        "{html}"
    );
}

#[test]
fn renders_gfm_footnotes() {
    let html = render("text[^a]\n\n[^a]: note");
    assert!(
        html.contains("<sup class=\"footnote-ref\"><a href=\"#fn-a\">a</a></sup>"),
        "ref missing: {html}"
    );
    assert!(
        html.contains("<section class=\"footnote\" id=\"fn-a\">"),
        "definition missing: {html}"
    );
}

#[test]
fn footnote_resolves_across_a_directive() {
    // A reference whose definition sits past a directive (a different parse
    // run) must still become a link, not leak as literal text.
    let html = render("text[^a]\n\n:::callout\nbox\n:::\n\nmore[^b]\n\n[^a]: one\n[^b]: two");
    assert!(
        html.contains("<a href=\"#fn-a\">a</a>") && html.contains("<a href=\"#fn-b\">b</a>"),
        "refs not resolved: {html}"
    );
    assert!(
        html.contains("id=\"fn-a\"") && html.contains("id=\"fn-b\""),
        "definitions missing: {html}"
    );
    assert!(!html.contains("[^a]"), "ref leaked as text: {html}");
}

#[test]
fn strips_bidi_override_controls() {
    // A right-to-left override in text must not survive: it is the Trojan
    // Source spoofing vector and could reorder surrounding characters.
    let html = render("before \u{202E}reversed\u{202C} after");
    assert!(!html.contains('\u{202E}'), "RLO survived: {html:?}");
    assert!(!html.contains('\u{202C}'), "PDF survived: {html:?}");
    assert!(
        html.contains("reversed") && html.contains("after"),
        "content lost: {html}"
    );
}

#[test]
fn keeps_zero_width_joiner_for_emoji() {
    // The ZWJ that builds a family emoji must be preserved, not stripped.
    let html = render("\u{1F468}\u{200D}\u{1F469}");
    assert!(html.contains('\u{200D}'), "ZWJ stripped, emoji broken: {html:?}");
}

#[test]
fn non_english_heading_gets_a_real_anchor() {
    // A heading with no ASCII letters still gets a meaningful, unique slug.
    let html = render("# 日本語\n\n## café");
    assert!(html.contains("id=\"日本語\""), "{html}");
    assert!(html.contains("id=\"café\""), "{html}");
}

#[test]
fn cross_reference_to_a_heading_resolves() {
    let html = render("# Introduction\n\nback to [#introduction] please");
    assert!(
        html.contains("<a class=\"alt-xref\" href=\"#introduction\">Introduction</a>"),
        "{html}"
    );
}

#[test]
fn cross_reference_resolves_forward() {
    // A reference before its target still resolves, because the label table
    // is built in a pre-pass over the whole document.
    let html = render("jump to [#target] first\n\n# Target");
    assert!(
        html.contains("<a class=\"alt-xref\" href=\"#target\">Target</a>"),
        "{html}"
    );
}

#[test]
fn unresolved_cross_reference_stays_literal_text() {
    // An unknown target renders as the literal text it was written as, so
    // plain CommonMark output is unchanged and nothing is silently dropped.
    let html = render("see [#nope] here");
    assert!(html.contains("[#nope]"), "literal text lost: {html}");
    assert!(!html.contains("alt-xref"), "should not be a link: {html}");
}

#[test]
fn figure_renders_a_native_numbered_caption() {
    let html = render(":::figure{#fig:one caption=\"First plot\"}\n![](a.png)\n:::");
    assert!(html.contains("<figure id=\"fig:one\">"), "{html}");
    assert!(
        html.contains(
            "<figcaption><span class=\"alt-figlabel\">Figure 1</span>: First plot</figcaption>"
        ),
        "{html}"
    );
    // A figure is native semantic HTML, not an upgradeable custom element.
    assert!(!html.contains("<alt-figure"), "{html}");
}

#[test]
fn figures_and_tables_number_independently() {
    let src = ":::figure{caption=\"a\"}\nx\n:::\n\n:::figure{kind=table caption=\"t\"}\ny\n:::\n\n:::figure{caption=\"b\"}\nz\n:::";
    let html = render(src);
    assert!(html.contains("Figure 1</span>: a"), "{html}");
    assert!(html.contains("Table 1</span>: t"), "{html}");
    assert!(html.contains("Figure 2</span>: b"), "{html}");
}

#[test]
fn cross_reference_to_a_figure_shows_its_number() {
    // Forward reference to a figure resolves to its auto-number.
    let html = render("see [#fig:plot]\n\n:::figure{#fig:plot caption=\"P\"}\nx\n:::");
    assert!(
        html.contains("<a class=\"alt-xref\" href=\"#fig:plot\">Figure 1</a>"),
        "{html}"
    );
}

#[test]
fn citations_number_in_order_and_list_only_cited_entries() {
    let src = "First [@b], then [@a], then [@b] again.\n\n```bib\na: Author A. Title A. 2020.\nb: Author B. Title B. 2021.\nc: Author C. Never cited. 2022.\n```\n\n:::references\n:::";
    let html = render(src);
    // Numbered by first appearance: b is 1, a is 2; the repeat of b stays 1.
    assert!(
        html.contains("<a class=\"alt-cite\" href=\"#ref-b\">[1]</a>"),
        "{html}"
    );
    assert!(
        html.contains("<a class=\"alt-cite\" href=\"#ref-a\">[2]</a>"),
        "{html}"
    );
    // The bibliography lists only cited entries, in citation order.
    assert!(html.contains("<li id=\"ref-b\">Author B. Title B. 2021.</li>"), "{html}");
    assert!(html.contains("<li id=\"ref-a\">Author A. Title A. 2020.</li>"), "{html}");
    assert!(!html.contains("Never cited"), "uncited entry leaked: {html}");
    let b_pos = html.find("ref-b\">Author B").expect("b in list");
    let a_pos = html.find("ref-a\">Author A").expect("a in list");
    assert!(b_pos < a_pos, "references not in citation order: {html}");
}

#[test]
fn undefined_citation_stays_literal_text() {
    let html = render("a stray [@nobody] citation");
    assert!(html.contains("[@nobody]"), "literal text lost: {html}");
    assert!(!html.contains("alt-cite"), "should not be a link: {html}");
}

#[test]
fn bib_fence_has_no_visible_output() {
    let html = render("```bib\na: Author A. Title. 2020.\n```");
    assert!(!html.contains("alt-bib"), "bib rendered an element: {html}");
    assert!(!html.contains("Author A"), "bib source leaked: {html}");
}

#[test]
fn table_cells_neutralise_hostile_content() {
    // Raw HTML in a cell is sanitised (the script tag is stripped, not
    // executed); a literal `<` typed as text is escaped. Either way no live
    // script tag can reach the output.
    let html = render("| h | k |\n|---|---|\n| <script>alert(1)</script> | 1 < 2 |\n");
    assert!(
        !html.contains("<script"),
        "script leaked from table cell: {html}"
    );
    assert!(html.contains("&lt; 2"), "literal lt not escaped: {html}");
}

#[test]
fn neutralises_hostile_content_inside_components() {
    // Hostile payloads inside component fences and bodies must not produce a
    // live tag or event handler: a raw component body is escaped, a markdown
    // body is sanitised, and a component attribute is escaped.
    let cases = [
        "```chart\nm,<script>alert(1)</script>\n```",
        ":::callout\n<img src=x onerror=alert(1)>\n:::",
        "::::tabs\n:::tab{title=\"x\\\"><script>alert(1)</script>\"}\nhi\n:::\n::::",
        "```diagram\n<script>alert(1)</script>\n```",
    ];
    for case in cases {
        let html = render(case);
        assert!(
            !html.contains("<script"),
            "script leaked from: {case}\n{html}"
        );
        let handler = regex_lite_event_handler(&html);
        assert!(!handler, "event handler leaked from: {case}\n{html}");
    }
}

/// True if the HTML contains an inline event handler (`<tag ... on*=`).
/// A small hand-rolled check to avoid pulling in a regex dependency.
fn regex_lite_event_handler(html: &str) -> bool {
    let lower = html.to_ascii_lowercase();
    let mut in_tag = false;
    let bytes = lower.as_bytes();
    for (i, &b) in bytes.iter().enumerate() {
        match b {
            b'<' => in_tag = true,
            b'>' => in_tag = false,
            b'o' if in_tag => {
                let rest = &lower[i..];
                if rest.starts_with("on")
                    && rest[2..]
                        .find('=')
                        .map(|eq| {
                            lower[i + 2..i + 2 + eq]
                                .chars()
                                .all(|c| c.is_ascii_alphabetic())
                        })
                        .unwrap_or(false)
                {
                    return true;
                }
            }
            _ => {}
        }
    }
    false
}

#[test]
fn sanitises_raw_html_blocks() {
    let html = render("<div onclick=\"steal()\">hi</div>");
    assert!(!html.to_lowercase().contains("onclick"), "{html}");
}

#[test]
fn callout_fallback_is_an_aside() {
    let html = render(":::callout{type=warning}\nx\n:::");
    assert!(
        html.contains("<aside class=\"alt-callout alt-callout-warning\" role=\"note\">"),
        "{html}"
    );
}

#[test]
fn accordion_fallback_is_native_details() {
    let html = render(":::accordion{title=\"More\"}\nbody\n:::");
    assert!(html.contains("<details><summary>More</summary>"), "{html}");
    assert!(html.contains("body"), "{html}");
}

#[test]
fn tabs_fallback_is_headed_sections() {
    let html = render("::::tabs\n:::tab{title=\"A\"}\nalpha\n:::\n::::");
    assert!(
        html.contains("<section class=\"alt-tab\"><h3>A</h3>"),
        "{html}"
    );
    assert!(html.contains("alpha"), "{html}");
}

#[test]
fn math_fallback_is_code() {
    let html = render("```math\nE=mc^2\n```");
    assert!(
        html.contains("<code class=\"alt-math\">E=mc^2</code>"),
        "{html}"
    );
}

#[test]
fn embed_fallback_is_a_link() {
    let html = render(":::embed{src=\"https://example.com/v\"}\n:::");
    assert!(html.contains("<a href=\"https://example.com/v\""), "{html}");
}
