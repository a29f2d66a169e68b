use altmd::{CommonMarkParser, MarkdownSerializer, Parser, Serializer};

/// A representative document exercising every block and inline kind, including
/// the GFM extensions and both component syntaxes.
const KITCHEN_SINK: &str = "# Heading *one*\n\n\
Paragraph with **bold**, *em*, ~~strike~~, `code`, a [link](https://example.com \"t\"), and text[^n].\n\n\
> a block quote\n> over two lines\n\n\
- bullet a\n- bullet b\n\n\
1. first\n2. second\n\n\
- [x] done\n- [ ] todo\n\n\
| Feature | Status |\n|:---|---:|\n| Tables | yes |\n\n\
```rust\nfn main() {}\n```\n\n\
:::callout{type=warning}\nHeads up.\n:::\n\n\
::::tabs\n:::tab{title=Overview}\nFirst.\n:::\n::::\n\n\
```chart kind=bar\nmonth,sales\njan,10\n```\n\n\
[^n]: the footnote body.\n";


/// Deterministic strong round-trip: serialise a parsed document, re-parse, and
/// assert the AST is unchanged. Used for realistic documents already in normal
/// form. Panics if either parse fails or the tree changes.
fn assert_round_trips(source: &str) {
    let parser = CommonMarkParser::new();
    let serializer = MarkdownSerializer::new();
    let first = parser.parse(source).expect("parse");
    let reserialised = serializer.to_source(&first);
    let second = parser.parse(&reserialised).expect("re-parse");
    assert_eq!(
        first, second,
        "round-trip changed the AST\n--- original ---\n{source}\n--- reserialised ---\n{reserialised}"
    );
}

#[test]
fn kitchen_sink_round_trips() {
    assert_round_trips(KITCHEN_SINK)
}

#[test]
fn each_feature_round_trips() {
    let cases = [
        "# h",
        "plain para",
        "a *b* **c** ~~d~~ `e`",
        "1 < 2 & 3 > 0 with a # hash and * star",
        "> quote",
        "- a\n- b",
        "3. c\n4. d",
        "- [x] yes\n- [ ] no",
        "| a | b |\n|---|---|\n| 1 | 2 |",
        "```\ncode\n```",
        "---",
        ":::callout\nhi\n:::",
        ":::tabs\n:::tab{title=X}\ny\n:::\n:::",
        "```chart kind=line\nm,v\n```",
        "text[^1]\n\n[^1]: note",
        "[a](http://e.com) and ![img](http://e.com/i.png)",
    ];
    for case in cases {
        assert_round_trips(case);
    }
}

#[test]
fn cross_references_and_citations_round_trip() {
    assert_round_trips("see [#intro] and [@key] here");
}

#[test]
fn serialises_the_syntax_tree_exactly() {
    let parser = CommonMarkParser::new();
    let doc = parser
        .parse("# A *b*\n\n1 < 2 & [x]\n\n3. c\n4. d\n\n```rust\nfn f() {}\n```\n\n:::callout{type=warning}\nHi.\n:::")
        .expect("parse");
    assert_eq!(
        MarkdownSerializer::new().to_source(&doc),
        "# A *b*\n\n1 \\< 2 & \\[x\\]\n\n3. c\n4. d\n\n```rust\nfn f() {}\n```\n\n:::callout{type=warning}\nHi.\n:::\n"
    );
}

#[test]
fn loose_lists_keep_their_blank_lines() {
    let parser = CommonMarkParser::new();
    let serializer = MarkdownSerializer::new();
    let loose = parser.parse("- a\n\n- b\n").expect("parse");
    let tight = parser.parse("- a\n- b\n").expect("parse");
    let loose_src = serializer.to_source(&loose);
    let tight_src = serializer.to_source(&tight);
    assert_ne!(loose_src, tight_src);
    assert_eq!(parser.parse(&loose_src).expect("re-parse"), loose);
    assert_eq!(parser.parse(&tight_src).expect("re-parse"), tight);
}

#[test]
fn a_digit_run_and_dot_at_line_start_is_escaped() {
    let parser = CommonMarkParser::new();
    let serializer = MarkdownSerializer::new();
    let doc = parser.parse("1\\. x\n\n12\\) y\n").expect("parse");
    let src = serializer.to_source(&doc);
    assert!(src.contains("1\\. x"), "{src}");
    assert!(src.contains("12\\) y"), "{src}");
    assert_eq!(parser.parse(&src).expect("re-parse"), doc);
}

#[test]
fn normal_form_is_a_fixpoint() {
    let sources = [
        KITCHEN_SINK,
        "- a\n- b\n\n* c\n",
        "text[^a]\n\n[^a]: one\n\n[^b]: unused\n",
        "1\\. x\n\n> quote\n> - item\n",
        ":::callout{type=note .wide}\n# Inside\n\n::::tabs\n:::tab{title=One}\nbody\n:::\n::::\n:::\n",
        "| a | b |\n|---|:-:|\n| `x` | **y** |\n",
    ];
    for source in sources {
        let once = altmd::normalise(source).expect("normalise");
        let twice = altmd::normalise(&once).expect("normalise again");
        let thrice = altmd::normalise(&twice).expect("normalise a third time");
        assert_eq!(twice, thrice, "normal form is not a fixpoint for {source:?}");
    }
}
