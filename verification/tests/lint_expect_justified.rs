use skills::lints::expect_justified::{
    expect_call_is_flagged, expect_method_line_from_snippet, has_justification_comment,
    has_source_justification, message_is_self_justifying, preceding_line_has_justification,
};

#[test]
fn safety_comment_is_justification() {
    assert!(has_justification_comment(
        "// SAFETY: fixed literal is non-empty"
    ));
}

#[test]
fn invariant_comment_is_justification() {
    assert!(has_justification_comment(
        "    // INVARIANT: counter starts below the limit"
    ));
}

#[test]
fn reason_comment_is_justification() {
    assert!(has_justification_comment("// reason: test fixture is valid"));
}

#[test]
fn proof_comment_is_justification() {
    assert!(has_justification_comment(
        "// PROOF: constructor already narrowed input"
    ));
}

#[test]
fn lowercase_safety_comment_is_not_justification() {
    assert!(!has_justification_comment("// safety: case-sensitive prefix"));
}

#[test]
fn single_line_expect_method_line_is_snippet_start_line() {
    assert_eq!(
        expect_method_line_from_snippet("value.expect(\"present\")", 8),
        Some(8)
    );
}

#[test]
fn multiline_expect_method_line_tracks_expect_line() {
    let snippet = "value\n    .map(identity)\n    .expect(\"present\")";
    assert_eq!(expect_method_line_from_snippet(snippet, 8), Some(10));
}

#[test]
fn macro_expansion_without_source_expect_has_no_method_line() {
    assert_eq!(
        expect_method_line_from_snippet("assert_eq!(left, right)", 8),
        None
    );
}

#[test]
fn expect_err_is_not_expect_method_line() {
    assert_eq!(
        expect_method_line_from_snippet("value.expect_err(\"error\")", 8),
        None
    );
}

#[test]
fn preceding_method_line_comment_justifies_expect() {
    let source =
        "let value = Some(1)\n    // SAFETY: fixed option is Some\n    .expect(\"some\");\n";
    assert!(has_source_justification(source, 3, 1));
}

#[test]
fn preceding_boundary_line_comment_justifies_expect() {
    let source = "// INVARIANT: the fixture vector is non-empty\nlet value = values.first().expect(\"first\");\n";
    assert!(has_source_justification(source, 2, 2));
}

#[test]
fn missing_preceding_comment_is_unjustified() {
    let source = "let value = values.first().expect(\"first\");\n";
    assert!(!has_source_justification(source, 1, 1));
}

#[test]
fn separated_comment_is_unjustified() {
    let source = "// SAFETY: too far away\n\nlet value = values.first().expect(\"first\");\n";
    assert!(!has_source_justification(source, 3, 3));
}

#[test]
fn expect_method_line_overflow_is_none() {
    assert_eq!(expect_method_line_from_snippet("a\n.expect(x)", usize::MAX), None);
    assert_eq!(expect_method_line_from_snippet("a.expect(x)", usize::MAX), Some(usize::MAX));
}

#[test]
fn first_line_has_no_preceding_line() {
    assert!(!preceding_line_has_justification("// SAFETY: x\n", 1));
    assert!(!preceding_line_has_justification("// SAFETY: x\n", 0));
    assert!(preceding_line_has_justification("// SAFETY: x\nlet a = b;\n", 2));
    assert!(!preceding_line_has_justification("// SAFETY: x\n", 5));
}

#[test]
fn message_literals_justify_unless_blank() {
    assert!(message_is_self_justifying(Some("usize fits in u64")));
    assert!(!message_is_self_justifying(Some("  \t ")));
    assert!(!message_is_self_justifying(Some("")));
    assert!(message_is_self_justifying(None));
}

#[test]
fn expect_decision_combines_every_condition() {
    assert!(expect_call_is_flagged(false, true, true, "expect", 1, true, Some(""), Some(3), false));
    assert!(!expect_call_is_flagged(false, true, true, "expect", 1, true, Some("why"), Some(3), false));
    assert!(!expect_call_is_flagged(false, true, true, "expect", 1, true, Some(""), Some(3), true));
    assert!(!expect_call_is_flagged(false, true, true, "expect", 1, true, Some(""), None, false));
    assert!(!expect_call_is_flagged(false, true, true, "expect", 1, false, Some(""), Some(3), false));
    assert!(!expect_call_is_flagged(false, true, true, "expect_err", 1, true, Some(""), Some(3), false));
    assert!(!expect_call_is_flagged(false, true, true, "expect", 2, true, Some(""), Some(3), false));
    assert!(!expect_call_is_flagged(true, true, true, "expect", 1, true, Some(""), Some(3), false));
    assert!(!expect_call_is_flagged(false, false, true, "expect", 1, true, Some(""), Some(3), false));
    assert!(!expect_call_is_flagged(false, true, false, "expect", 1, true, Some(""), Some(3), false));
}
