use altmd::sanitize;

#[test]
fn strips_script_tags() {
    let out = sanitize("<p>ok</p><script>alert(1)</script>");
    assert!(!out.contains("<script"), "script survived: {out}");
    assert!(out.contains("ok"), "safe content dropped: {out}");
}

#[test]
fn strips_event_handlers() {
    let out = sanitize(r#"<img src="x" onerror="alert(1)">"#);
    assert!(
        !out.to_lowercase().contains("onerror"),
        "handler survived: {out}"
    );
}

#[test]
fn strips_javascript_urls() {
    let out = sanitize(r#"<a href="javascript:alert(1)">x</a>"#);
    assert!(!out.contains("javascript:"), "js url survived: {out}");
}

#[test]
fn strips_svg_onload_payload() {
    let out = sanitize(r#"<svg><script>alert(1)</script></svg><img src=x onerror=alert(2)>"#);
    assert!(!out.contains("<script"), "script survived: {out}");
    assert!(
        !out.to_lowercase().contains("onerror"),
        "handler survived: {out}"
    );
}

#[test]
fn is_idempotent_on_bom_and_nul() {
    // A NUL followed by a BOM once left a stray BOM that a second clean
    // removed, so the sanitiser was not idempotent on this input.
    let once = sanitize("\u{0}\u{feff}");
    assert_eq!(sanitize(&once), once, "not idempotent: {once:?}");
    assert_eq!(once, "", "NUL and BOM should both be removed");
}

#[test]
fn keeps_safe_formatting() {
    let out = sanitize("<p><strong>bold</strong> and <em>italic</em></p>");
    assert!(out.contains("<strong>bold</strong>"), "lost strong: {out}");
    assert!(out.contains("<em>italic</em>"), "lost em: {out}");
}

#[test]
fn sanitising_is_stable_on_its_output_for_a_corpus() {
    let corpus = [
        "<p>a</p>",
        "<div onclick=\"x()\">b</div>",
        "x\u{0}y\u{feff}z",
        "<a href=\"javascript:alert(1)\">l</a><iframe src=x></iframe>",
        "<object data=x></object><embed src=y>",
    ];
    for input in corpus {
        let out = sanitize(input);
        assert_eq!(sanitize(&out), out, "not stable on {input:?}");
        for tag in ["<script", "<iframe", "<object", "<embed"] {
            assert!(!out.contains(tag), "{tag} survived from {input:?}: {out}");
        }
        assert!(!out.contains('\u{0}') && !out.contains('\u{feff}'));
    }
}

#[test]
fn sanitize_error_describes_itself() {
    let e = altmd::SanitizeError::Invalid("bad".into());
    assert_eq!(e.message(), "could not sanitise input: bad");
}
