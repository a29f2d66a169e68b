use altmd::{extract_policy, AiPolicy, CommonMarkParser, Parser, Permission};

fn policy(source: &str) -> AiPolicy {
    let doc = CommonMarkParser::new().parse(source).expect("parse");
    extract_policy(&doc).expect("a policy")
}

#[test]
fn parses_sections_and_default() {
    let p = policy(
        ":::ai-policy{model=any}\n- Introduction: read-only\n- Draft notes: editable\n- Changelog: append-only\n:::",
    );
    assert_eq!(p.model.as_deref(), Some("any"));
    // Default is editable: a section the policy does not name may be edited.
    assert!(p.can_edit("anything-unlisted"));
    // Keys are slugified, so heading text resolves to the heading's anchor.
    assert_eq!(p.permission("introduction"), Permission::ReadOnly);
    assert_eq!(p.permission("draft-notes"), Permission::Editable);
    assert_eq!(p.permission("changelog"), Permission::AppendOnly);
    assert!(!p.can_edit("introduction"));
    assert!(p.can_edit("draft-notes"));
    assert!(p.can_edit("changelog"));
}

#[test]
fn unknown_permission_word_locks_the_section() {
    // A typo must fail safe: lock the section, not unlock it.
    let p = policy(":::ai-policy\n- Secrets: editaable\n:::");
    assert_eq!(p.permission("secrets"), Permission::ReadOnly);
}

#[test]
fn explicit_default_applies_to_unlisted_sections() {
    let p = policy(":::ai-policy{default=read-only}\n- Notes: editable\n:::");
    assert!(!p.can_edit("anything-else"));
    assert!(p.can_edit("notes"));
}

#[test]
fn no_policy_block_yields_none() {
    let doc = CommonMarkParser::new().parse("# Just a heading\n").expect("parse");
    assert!(extract_policy(&doc).is_none());
}

#[test]
fn permission_words_are_normalised() {
    assert_eq!(Permission::parse("  EDIT "), Permission::Editable);
    assert_eq!(Permission::parse("rw"), Permission::Editable);
    assert_eq!(Permission::parse("Write"), Permission::Editable);
    assert_eq!(Permission::parse("append_only"), Permission::AppendOnly);
    assert_eq!(Permission::parse("append"), Permission::AppendOnly);
    assert_eq!(Permission::parse("read-only"), Permission::ReadOnly);
    assert_eq!(Permission::parse(""), Permission::ReadOnly);
    assert!(Permission::Editable.is_writable());
    assert!(Permission::AppendOnly.is_writable());
    assert!(!Permission::ReadOnly.is_writable());
}

#[test]
fn a_later_entry_for_a_section_wins_and_keys_stay_unique() {
    let p = policy(":::ai-policy\n- Notes: read-only\n- notes: editable\n- Other: append\n:::");
    assert_eq!(p.sections.len(), 2);
    assert_eq!(p.permission("notes"), Permission::Editable);
    assert_eq!(p.permission("other"), Permission::AppendOnly);
}

#[test]
fn plain_lines_and_nested_policies_are_read() {
    // A policy inside another component is found; paragraph lines are entries too.
    let p = policy("::::callout\n:::ai-policy{default=append}\nAlpha Beta: edit\n:::\n::::\n");
    assert_eq!(p.default, Permission::AppendOnly);
    assert_eq!(p.permission("alpha-beta"), Permission::Editable);
    assert_eq!(p.model, None);
}

#[test]
fn policy_inside_a_list_item_is_found() {
    let doc = CommonMarkParser::new().parse("- an item\n").expect("parse");
    let mut inner = CommonMarkParser::new()
        .parse(":::ai-policy{default=read-only}\n- Notes: editable\n:::")
        .expect("parse");
    let policy_block = inner.blocks.remove(0);
    let mut doc = doc;
    match &mut doc.blocks[0] {
        altmd::Block::List(l) => l.items[0].blocks.push(policy_block),
        other => panic!("unexpected block {other:?}"),
    }
    let p = extract_policy(&doc).expect("a policy in a list item");
    assert!(!p.can_edit("anything-else"));
    assert!(p.can_edit("notes"));
}

#[test]
fn sections_come_in_slug_order_once_each() {
    let p = policy(":::ai-policy\n- Zeta: editable\n- Alpha: read-only\n- Mid: append-only\n- Zeta: read-only\n:::");
    let keys: Vec<&str> = p.sections.iter().map(|(k, _)| k.as_str()).collect();
    assert_eq!(keys, vec!["alpha", "mid", "zeta"]);
    assert_eq!(p.permission("zeta"), Permission::ReadOnly);
}
