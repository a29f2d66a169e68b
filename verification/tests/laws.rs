use altmd::directive::split_directives;
use altmd::html::safe_url;
use altmd::segment::Segment;
use altmd::serializer::serialize_attrs;
use altmd::{parse_attrs, render, slugify, Attrs};

fn attrs(id: Option<&str>, classes: &[&str], pairs: &[(&str, &str)]) -> Attrs {
    Attrs {
        id: id.map(|s| s.to_string()),
        classes: classes.iter().map(|s| s.to_string()).collect(),
        pairs: pairs.iter().map(|(k, v)| (k.to_string(), v.to_string())).collect(),
    }
}

#[test]
fn serialised_attributes_read_back_the_same() {
    let a = attrs(Some("fig:1"), &["wide", "dark"], &[("k", "v w"), ("e", ""), ("x", "a=b")]);
    let src = serialize_attrs(&a);
    assert_eq!(src, "{#fig:1 .wide .dark k=\"v w\" e=\"\" x=a=b}");
    assert_eq!(parse_attrs(&src), a);
    let empty = attrs(None, &[], &[]);
    assert_eq!(serialize_attrs(&empty), "");
    assert_eq!(parse_attrs(&serialize_attrs(&empty)), empty);
}

#[test]
fn slugs_collapse_separators_and_fall_back() {
    assert_eq!(slugify("--Hello,  World!--"), "hello-world");
    assert_eq!(slugify("A & B!"), "a-b");
    assert_eq!(slugify("!!!"), "section");
    assert_eq!(slugify(""), "section");
    assert_eq!(slugify("日本語"), "日本語");
    for text in ["x", " a b ", "--", "1.2.3", "é-é"] {
        let s = slugify(text);
        assert!(!s.is_empty() && !s.starts_with('-') && !s.ends_with('-') && !s.contains("--"), "{s}");
    }
}

#[test]
fn repeated_headings_get_distinct_anchors() {
    let html = render("# A\n\n# A\n\n## A").expect("render");
    assert!(html.contains("<h1 id=\"a\">"), "{html}");
    assert!(html.contains("<h1 id=\"a-1\">"), "{html}");
    assert!(html.contains("<h2 id=\"a-2\">"), "{html}");
}

#[test]
fn dangerous_schemes_never_survive() {
    assert_eq!(safe_url("  JavaScript:alert(1)"), "");
    assert_eq!(safe_url("vbscript:x"), "");
    assert_eq!(safe_url("DATA:text/html,x"), "");
    assert_eq!(safe_url("data:image/png;base64,AA"), "data:image/png;base64,AA");
    assert_eq!(safe_url("https://e.com/a"), "https://e.com/a");
    assert_eq!(safe_url("java"), "java");
}

#[test]
fn figure_numbers_match_their_cross_references_at_any_depth() {
    let src = "[#b] and [#a]\n\n::::callout\n:::figure{#a caption=\"one\"}\nx\n:::\n::::\n\n:::figure{#b kind=table}\ny\n:::\n\n:::figure{#c}\nz\n:::";
    let html = render(src).expect("render");
    assert!(html.contains("<a class=\"alt-xref\" href=\"#b\">Table 1</a>"), "{html}");
    assert!(html.contains("<a class=\"alt-xref\" href=\"#a\">Figure 1</a>"), "{html}");
    assert!(html.contains("<span class=\"alt-figlabel\">Figure 1</span>: one</figcaption>"), "{html}");
    assert!(html.contains("<span class=\"alt-figlabel\">Table 1</span></figcaption>"), "{html}");
    assert!(html.contains("<span class=\"alt-figlabel\">Figure 2</span></figcaption>"), "{html}");
}

#[test]
fn text_is_escaped_and_bidi_controls_dropped() {
    let html = render("a < b > & \"c\" \u{202E}d\u{2066}").expect("render");
    assert_eq!(html, "<p>a &lt; b &gt; &amp; \"c\" d</p>\n");
}

#[test]
fn citation_numbers_follow_first_appearance() {
    let src = "[@z] [@y] [@z] [@missing]\n\n```bib\ny: Why.\nz: Zed.\nz: Ignored.\n```\n\n:::references\n:::";
    let html = render(src).expect("render");
    assert!(html.contains("<a class=\"alt-cite\" href=\"#ref-z\">[1]</a>"), "{html}");
    assert!(html.contains("<a class=\"alt-cite\" href=\"#ref-y\">[2]</a>"), "{html}");
    assert!(html.contains("[@missing]"), "{html}");
    assert!(html.contains("<ol class=\"alt-references\">\n<li id=\"ref-z\">Zed.</li>\n<li id=\"ref-y\">Why.</li>\n</ol>"), "{html}");
}

#[test]
fn fallbacks_and_attributes_render_exactly() {
    let html = render(":::callout{#n .a .b Bad=1 good=\"x y\"}\nHi\n:::").expect("render");
    assert!(html.starts_with("<alt-callout id=\"n\" class=\"a b\" data-good=\"x y\">"), "{html}");
    let toc = render(":::toc\n:::").expect("render");
    assert_eq!(toc, "<alt-toc><nav class=\"alt-toc\" aria-label=\"Table of contents\"></nav></alt-toc>\n");
    let csv = render("```table\n a , b \n\n1,2,3\n```").expect("render");
    assert!(csv.contains("<table><thead><tr><th>a</th><th>b</th></tr></thead><tbody><tr><td>1</td><td>2</td><td>3</td></tr></tbody></table>"), "{csv}");
    let list = render("3. a\n4. b").expect("render");
    assert!(list.starts_with("<ol start=\"3\">\n<li>a</li>\n<li>b</li>\n</ol>"), "{list}");
    let code = render("```a\"b c\nx < y\n```").expect("render");
    assert_eq!(code, "<pre><code class=\"language-a&quot;b\">x &lt; y\n</code></pre>\n");
    let inc = render(":::include{src=\"javascript:x\"}\n:::").expect("render");
    assert_eq!(inc, "<alt-include data-src=\"javascript:x\"><a class=\"alt-include\" href=\"\">javascript:x</a></alt-include>\n");
    let bib_only = render(":::ai-policy\n- a: edit\n:::").expect("render");
    assert_eq!(bib_only, "");
}

#[test]
fn anchors_stay_unique_when_a_base_looks_suffixed() {
    // The third heading's own slug is `a-1`, already issued to the second.
    let html = render("# A\n\n# A\n\n# A 1").expect("render");
    assert!(html.contains("<h1 id=\"a\">"), "{html}");
    assert!(html.contains("<h1 id=\"a-1\">"), "{html}");
    assert!(html.contains("<h1 id=\"a-1-1\">"), "{html}");
}

#[test]
fn slugs_lowercase_beyond_ascii() {
    assert_eq!(slugify("ÉTÉ"), "été");
    assert_eq!(slugify("Ωmega Straße"), "ωmega-straße");
    assert_eq!(slugify("Hello"), "hello");
}

#[test]
fn hidden_component_headings_do_not_shift_anchors() {
    let html = render(":::toc\n# Hidden\n:::\n\n# Shown").expect("render");
    assert!(html.contains("<h1 id=\"shown\">Shown</h1>"), "{html}");
    assert!(!html.contains("id=\"hidden\""), "{html}");
    assert!(!html.contains("#hidden"), "{html}");
}

#[test]
fn rendered_output_opens_no_script_or_frame() {
    let html = render(
        "# T\n\n<SCRIPT>alert(1)</SCRIPT>\n\n<iframe src=x></iframe> and <b>bold</b>\n\n\
         :::callout{type=warning onclick=x}\nbody <ScRiPt>\n:::\n\n```chart\na,b\n<script>,1\n```",
    )
    .expect("render");
    let lower = html.to_ascii_lowercase();
    assert!(!lower.contains("<script"), "{html}");
    assert!(!lower.contains("<iframe"), "{html}");
    assert!(html.contains("<b>bold</b>"), "{html}");
}

#[test]
fn rendered_output_starts_no_event_handler() {
    let html = render(
        "<img src=x onerror=alert(1)>\n\n:::callout{onclick=x title=\"a onclick=b\"}\nbody\n:::\n\n\
         [link](https://e.com \"t onmouseover=1\")",
    )
    .expect("render");
    let lower = html.to_ascii_lowercase();
    assert!(!lower.contains(" onerror"), "{html}");
    assert!(!lower.contains(" onclick=x"), "{html}");
    assert!(lower.contains("data-onclick=\"x\""), "{html}");
}

#[test]
fn a_serialised_directive_reads_back_as_one_directive() {
    let doc = altmd::parse(":::callout{.wide type=warning}\nHeads up.\n\nSecond.\n:::").expect("parse");
    let src = altmd::to_source(&doc);
    let segs = split_directives(&src).expect("split");
    assert_eq!(segs.len(), 1, "{segs:?}");
    match &segs[0] {
        Segment::Directive { name, attrs, children } => {
            assert_eq!(name, "callout");
            assert_eq!(attrs, &attrs_of_callout());
            assert_eq!(children, &vec![Segment::Text("Heads up.\n\nSecond.".to_string())]);
        },
        other => panic!("unexpected segment {other:?}"),
    }
}

fn attrs_of_callout() -> Attrs {
    attrs(None, &["wide"], &[("type", "warning")])
}

#[test]
fn ascii_letters_lowercase_in_slugs() {
    assert_eq!(slugify("A"), "a");
    assert_eq!(slugify("Hello World"), "hello-world");
}
