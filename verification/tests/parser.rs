use altmd::{
    Attrs, Block, CommonMarkParser, Component, ComponentBody, Document, Inline, List, ListItem,
    Parser, MAX_NESTING_DEPTH, parse_attrs, parse_commonmark_blocks,
};

fn parse(source: &str) -> Document {
    CommonMarkParser::new().parse(source).expect("parse")
}

#[test]
fn maps_heading_paragraph_emphasis_and_code() {
    let doc = parse("# Title\n\nsome *emph* and `code`");
    assert_eq!(
        doc.blocks,
        vec![
            Block::Heading {
                level: 1,
                content: vec![Inline::Text("Title".into())],
            },
            Block::Paragraph(vec![
                Inline::Text("some ".into()),
                Inline::Emphasis(vec![Inline::Text("emph".into())]),
                Inline::Text(" and ".into()),
                Inline::Code("code".into()),
            ]),
        ]
    );
}

#[test]
fn maps_bullet_list() {
    let doc = parse("- a\n- b");
    assert_eq!(
        doc.blocks,
        vec![Block::List(List {
            ordered: false,
            start: 1,
            tight: true,
            items: vec![
                ListItem::new(vec![Block::Paragraph(vec![Inline::Text("a".into())])]),
                ListItem::new(vec![Block::Paragraph(vec![Inline::Text("b".into())])]),
            ],
        })]
    );
}

#[test]
fn maps_ordered_list_start() {
    let doc = parse("3. c\n4. d");
    let Some(Block::List(list)) = doc.blocks.first() else {
        unreachable!("expected a list")
    };
    assert!(list.ordered);
    assert_eq!(list.start, 3);
    assert_eq!(list.items.len(), 2);
}

#[test]
fn maps_blockquote_and_link() {
    let doc = parse("> see [here](https://example.com \"t\")");
    assert_eq!(
        doc.blocks,
        vec![Block::BlockQuote(vec![Block::Paragraph(vec![
            Inline::Text("see ".into()),
            Inline::Link {
                url: "https://example.com".into(),
                title: "t".into(),
                content: vec![Inline::Text("here".into())],
            },
        ])])]
    );
}

#[test]
fn maps_fenced_code_block() {
    let doc = parse("```rust\nfn main() {}\n```");
    assert_eq!(
        doc.blocks,
        vec![Block::CodeBlock {
            info: "rust".into(),
            literal: "fn main() {}\n".into(),
        }]
    );
}

#[test]
fn maps_fence_component() {
    let doc = parse("```chart kind=line\njan,1\nfeb,2\n```");
    assert_eq!(
        doc.blocks,
        vec![Block::Component(Component {
            name: "chart".into(),
            attrs: Attrs {
                id: None,
                classes: vec![],
                pairs: vec![("kind".into(), "line".into())],
            },
            body: ComponentBody::Raw("jan,1\nfeb,2\n".into()),
        })]
    );
}

#[test]
fn unregistered_fence_stays_code_block() {
    let doc = parse("```python\nprint(1)\n```");
    assert!(matches!(doc.blocks.first(), Some(Block::CodeBlock { .. })));
}

#[test]
fn parses_attributes() {
    let attrs = parse_attrs("{#hero .a .b title=\"a b\" kind=line}");
    assert_eq!(attrs.id.as_deref(), Some("hero"));
    assert_eq!(attrs.classes, vec!["a".to_string(), "b".to_string()]);
    assert_eq!(attrs.get("title"), Some("a b"));
    assert_eq!(attrs.get("kind"), Some("line"));
}

#[test]
fn maps_callout_directive() {
    let doc = parse(":::callout{type=warning}\nHeads up.\n:::");
    assert_eq!(
        doc.blocks,
        vec![Block::Component(Component {
            name: "callout".into(),
            attrs: Attrs {
                id: None,
                classes: vec![],
                pairs: vec![("type".into(), "warning".into())],
            },
            body: ComponentBody::Children(vec![Block::Paragraph(vec![Inline::Text(
                "Heads up.".into()
            )])]),
        })]
    );
}

#[test]
fn nests_directives() {
    let doc = parse(":::tabs\n:::callout\nhi\n:::\n:::");
    let Some(Block::Component(tabs)) = doc.blocks.first() else {
        unreachable!("expected a tabs component")
    };
    assert_eq!(tabs.name, "tabs");
    let ComponentBody::Children(children) = &tabs.body else {
        unreachable!("expected children")
    };
    assert!(matches!(children.first(), Some(Block::Component(c)) if c.name == "callout"));
}

#[test]
fn orders_text_around_directives() {
    let doc = parse("before\n\n:::callout\nin\n:::\n\nafter");
    assert_eq!(doc.blocks.len(), 3);
    assert!(matches!(doc.blocks[0], Block::Paragraph(_)));
    assert!(matches!(doc.blocks[1], Block::Component(_)));
    assert!(matches!(doc.blocks[2], Block::Paragraph(_)));
}

#[test]
fn unknown_directive_is_an_error() {
    assert!(CommonMarkParser::new().parse(":::bogus\nx\n:::").is_err());
}

#[test]
fn fence_name_used_as_directive_is_an_error() {
    assert!(CommonMarkParser::new().parse(":::chart\nx\n:::").is_err());
}

#[test]
fn unclosed_directive_is_an_error() {
    assert!(CommonMarkParser::new().parse(":::callout\nx").is_err());
}

#[test]
fn deeply_nested_directives_error_not_crash() {
    let depth = MAX_NESTING_DEPTH + 50;
    let src = ":::callout\n".repeat(depth) + "x\n" + &":::\n".repeat(depth);
    let err = CommonMarkParser::new()
        .parse(&src)
        .expect_err("deep nesting must be a defined error");
    assert!(err.message().contains("depth"), "{}", err.message());
}

#[test]
fn deeply_nested_blockquotes_error_not_crash() {
    let src = "> ".repeat(MAX_NESTING_DEPTH + 50) + "x\n";
    assert!(CommonMarkParser::new().parse(&src).is_err());
}

#[test]
fn deeply_nested_emphasis_errors_not_crash() {
    let n = MAX_NESTING_DEPTH + 50;
    let src = "*".repeat(n) + "x" + &"*".repeat(n);
    let _ = CommonMarkParser::new().parse(&src);
}

#[test]
fn nesting_within_the_limit_is_accepted() {
    let depth = 40;
    let src = ":::callout\n".repeat(depth) + "x\n" + &":::\n".repeat(depth);
    let doc = CommonMarkParser::new().parse(&src).expect("parse");
    assert_eq!(doc.blocks.len(), 1);
}

#[test]
fn plain_markdown_is_unchanged_by_the_splitter() {
    let src = "# H\n\npara with *em*\n\n- a\n- b";
    let direct = parse_commonmark_blocks(src).expect("direct parse");
    assert_eq!(parse(src).blocks, direct);
}

#[test]
fn cross_references_and_citations_are_read_from_text() {
    let doc = parse("see [#intro] and [@key] here");
    assert_eq!(
        doc.blocks,
        vec![Block::Paragraph(vec![
            Inline::Text("see ".into()),
            Inline::CrossRef { target: "intro".into() },
            Inline::Text(" and ".into()),
            Inline::Citation { key: "key".into() },
            Inline::Text(" here".into()),
        ])]
    );
}

#[test]
fn footnote_reference_resolves_across_a_directive() {
    let doc = parse("text[^a]\n\n:::callout\nbox\n:::\n\n[^a]: one");
    let Some(Block::Paragraph(p)) = doc.blocks.first() else {
        unreachable!("expected a paragraph")
    };
    assert_eq!(
        p,
        &vec![
            Inline::Text("text".into()),
            Inline::FootnoteReference { name: "a".into() }
        ]
    );
}
