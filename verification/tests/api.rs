use altmd::{normalise, parse, render, render_html, to_source, CoreError, ParseError};

#[test]
fn facade_parses() {
    let doc = parse("# Title").expect("parse");
    assert_eq!(doc.blocks.len(), 1);
}

#[test]
fn renders_basic_markdown() {
    let html = render_html("# Hi\n\nsome **bold** text");
    assert!(html.contains("<h1>"), "expected a heading: {html}");
    assert!(
        html.contains("<strong>bold</strong>"),
        "expected bold: {html}"
    );
}

#[test]
fn suppresses_raw_html_by_default() {
    let html = render_html("<script>alert(1)</script>");
    assert!(
        !html.contains("<script>"),
        "raw script must not pass: {html}"
    );
}

#[test]
fn render_html_is_plain_commonmark() {
    // No GFM extension: a strikethrough stays literal text.
    assert_eq!(render_html("~~x~~"), "<p>~~x~~</p>\n");
}

#[test]
fn render_gives_component_html() {
    let html = render(":::callout{type=tip}\nHi\n:::").expect("render");
    assert_eq!(
        html,
        "<alt-callout data-type=\"tip\"><aside class=\"alt-callout alt-callout-tip\" role=\"note\">\n<p>Hi</p>\n</aside></alt-callout>\n"
    );
}

#[test]
fn render_reports_a_parse_error() {
    let err = render(":::nosuch\nx\n:::").expect_err("unknown directive");
    let CoreError::Parse(ParseError::Ast(_)) = &err;
    assert!(err.message().starts_with("AST construction failed: malformed AST node: "));
}

#[test]
fn normalise_writes_canonical_source() {
    assert_eq!(normalise("#   Title\n\n*a* b").expect("normalise"), "# Title\n\n*a* b\n");
    assert!(normalise(":::nosuch\nx\n:::").is_err());
}

#[test]
fn to_source_of_a_parsed_document() {
    let doc = parse("- a\n- b\n\n> q").expect("parse");
    assert_eq!(to_source(&doc), "- a\n- b\n\n> q\n");
}
