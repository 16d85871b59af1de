use codeatlas::share::{classification_for, field_action, inline_js, redaction_policy, Classification, FieldAction};

#[test]
fn inline_js_escapes_script_close_sequences() {
    let js = inline_js("assets/app.js", "const s = \"</script>\";").unwrap();
    assert_eq!(js, "const s = \"<\\/script>\";");
    assert!(!js.contains("</script"));
}

#[test]
fn inline_js_refuses_bundles_containing_html_comment_openers() {
    let err = inline_js("assets/app.js", "let x = 1; <!-- lurking").unwrap_err();
    assert!(err.contains("assets/app.js"), "names the asset: {err}");
    assert!(err.contains("<!--"), "names the hazard: {err}");
}

#[test]
fn the_allowlist_classifies_prose_and_structure_apart() {
    assert_eq!(classification_for("Node.summary"), Some(Classification::RedactedWhenLlm));
    assert_eq!(classification_for("Node.path"), Some(Classification::ShareSafe));
    assert_eq!(classification_for("Node.secret"), None);
    assert!(redaction_policy().contains(&"Node.summary"));
    assert!(!redaction_policy().contains(&"Node.path"));
}

#[test]
fn model_prose_is_redacted_and_an_unknown_field_is_dropped() {
    assert_eq!(field_action("Node", "summary", false), FieldAction::Redact);
    assert_eq!(field_action("Node", "summary", true), FieldAction::Keep);
    assert_eq!(field_action("Node", "path", false), FieldAction::Descend);
    assert_eq!(field_action("Node", "invented", true), FieldAction::Drop);
}
