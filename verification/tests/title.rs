use altmd::{document_title, escape_title};

#[test]
fn title_is_the_first_level_one_heading() {
    assert_eq!(document_title("intro\n\n  # My Spec ##\n# Other"), "My Spec");
    assert_eq!(document_title("## Not this\n#NoSpace\n# \n# Yes"), "Yes");
    assert_eq!(document_title("no heading"), "alt-markdown document");
    assert_eq!(document_title(""), "alt-markdown document");
}

#[test]
fn title_escapes_markup() {
    assert_eq!(escape_title("a < b & c > \"d\""), "a &lt; b &amp; c &gt; \"d\"");
}
