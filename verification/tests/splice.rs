use altmd::{
    check_request, check_target, include_sources, parse, splice_includes, Block, IncludeError,
    Inline, MAX_INCLUDE_DEPTH,
};

fn comps(v: &[&str]) -> Vec<String> {
    v.iter().map(|s| s.to_string()).collect()
}

#[test]
fn include_sources_lists_includes_in_order() {
    let doc = parse(":::include{src=\"a.alt\"}\n:::\n\n::::callout\n:::include{src=b.alt}\n:::\n::::\n\n:::include\n:::\n").expect("parse");
    let mut srcs = Vec::new();
    include_sources(&doc.blocks, &mut srcs);
    assert_eq!(srcs, vec![Some("a.alt".to_string()), Some("b.alt".to_string()), None]);
}

#[test]
fn splice_replaces_each_include_in_place() {
    let doc = parse("# A\n\n:::include{src=x}\n:::\n\n::::callout\n:::include{src=y}\n:::\n::::").expect("parse");
    let x = parse("x1\n\nx2").expect("parse").blocks;
    let y = parse("## Y").expect("parse").blocks;
    let out = splice_includes(doc.blocks, vec![x, y]);
    assert_eq!(out.len(), 4);
    assert_eq!(out[1], Block::Paragraph(vec![Inline::Text("x1".into())]));
    assert_eq!(out[2], Block::Paragraph(vec![Inline::Text("x2".into())]));
    match &out[3] {
        Block::Component(c) => match &c.body {
            altmd::ComponentBody::Children(k) => assert_eq!(
                k,
                &vec![Block::Heading { level: 2, content: vec![Inline::Text("Y".into())] }]
            ),
            other => panic!("unexpected body {other:?}"),
        },
        other => panic!("unexpected block {other:?}"),
    }
}

#[test]
fn requests_are_refused_too_deep_then_absolute() {
    assert_eq!(check_request("a.alt", false, 0), Ok(()));
    assert_eq!(check_request("a.alt", false, MAX_INCLUDE_DEPTH - 1), Ok(()));
    let deep = check_request("/etc/x", true, MAX_INCLUDE_DEPTH).unwrap_err();
    assert_eq!(deep, IncludeError::TooDeep("/etc/x".into()));
    assert_eq!(
        deep.message(),
        "include nesting exceeds the maximum depth of 16: /etc/x"
    );
    let abs = check_request("/etc/x", true, 3).unwrap_err();
    assert_eq!(abs.message(), "include path must be relative, not absolute: /etc/x");
}

#[test]
fn targets_are_confined_and_acyclic() {
    let jail = comps(&["/", "docs"]);
    let inside = comps(&["/", "docs", "ch1.alt"]);
    let outside = comps(&["/", "etc", "passwd"]);
    let lookalike = comps(&["/", "docs2", "x.alt"]);
    assert_eq!(check_target("ch1.alt", &inside, &jail, &vec![], "/docs/ch1.alt", "/docs"), Ok(()));
    let esc = check_target("../etc/passwd", &outside, &jail, &vec![], "/etc/passwd", "/docs").unwrap_err();
    assert_eq!(esc.message(), "include escapes the document directory (/docs): ../etc/passwd");
    assert!(check_target("x", &lookalike, &jail, &vec![], "/docs2/x.alt", "/docs").is_err());
    let cyc = check_target("ch1.alt", &inside, &jail, &vec![inside.clone()], "/docs/ch1.alt", "/docs")
        .unwrap_err();
    assert_eq!(cyc, IncludeError::Cycle("/docs/ch1.alt".into()));
    assert_eq!(cyc.message(), "include cycle detected at /docs/ch1.alt");
    assert_eq!(IncludeError::MissingSrc.message(), "an :::include needs a src attribute");
}

#[test]
fn includes_inside_footnotes_are_listed_and_spliced() {
    let inc = parse(":::include{src=f.alt}\n:::").expect("parse").blocks;
    let blocks = vec![Block::FootnoteDefinition { name: "n".to_string(), blocks: inc }];
    let mut srcs = Vec::new();
    include_sources(&blocks, &mut srcs);
    assert_eq!(srcs, vec![Some("f.alt".to_string())]);
    let part = parse("inside").expect("parse").blocks;
    let out = splice_includes(blocks, vec![part]);
    assert_eq!(
        out,
        vec![Block::FootnoteDefinition {
            name: "n".to_string(),
            blocks: vec![Block::Paragraph(vec![Inline::Text("inside".into())])],
        }]
    );
}
