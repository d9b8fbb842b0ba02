use skills::lints::unwrap_or_else::{
    fallback_masks_missing_data, fallback_snippet_masks_missing_data, is_error_tunnel_fallback,
    is_poison_recovery_fallback, is_unwrap_or_else_method, unwrap_or_else_call_is_flagged,
};

#[test]
fn unwrap_or_else_method_is_linted() {
    assert!(is_unwrap_or_else_method("unwrap_or_else", 1));
}

#[test]
fn unwrap_or_else_method_without_argument_is_skipped() {
    assert!(!is_unwrap_or_else_method("unwrap_or_else", 0));
}

#[test]
fn unwrap_or_method_is_skipped() {
    assert!(!is_unwrap_or_else_method("unwrap_or", 1));
}

#[test]
fn aborting_fallback_is_skipped() {
    assert!(!fallback_snippet_masks_missing_data(
        r#"|err| {
            eprintln!("FATAL: {err}");
            process::abort();
        }"#
    ));
}

#[test]
fn startup_exit_fallback_is_skipped() {
    assert!(!fallback_snippet_masks_missing_data(
        "|message| exit_with_startup_ingress_error(message.as_str())"
    ));
}

#[test]
fn poison_error_recovery_is_skipped() {
    assert!(!fallback_snippet_masks_missing_data("PoisonError::into_inner"));
}

#[test]
fn computed_fallback_is_linted() {
    assert!(fallback_snippet_masks_missing_data(
        r#"|| non_empty_string!("fallback")"#
    ));
}

#[test]
fn fallback_kinds_are_recognised_by_their_text() {
    assert!(is_error_tunnel_fallback("|e| process::abort()"));
    assert!(!is_error_tunnel_fallback("|e| default()"));
    assert!(is_poison_recovery_fallback("  PoisonError::into_inner "));
    assert!(!is_poison_recovery_fallback("|e| e.into_inner()"));
    assert!(fallback_masks_missing_data(None));
}

#[test]
fn unwrap_or_else_decision_skips_diverging_fallbacks() {
    assert!(unwrap_or_else_call_is_flagged("unwrap_or_else", 1, false, Some("|| 0")));
    assert!(!unwrap_or_else_call_is_flagged("unwrap_or_else", 1, true, Some("|| 0")));
    assert!(unwrap_or_else_call_is_flagged("unwrap_or_else", 1, false, None));
    assert!(!unwrap_or_else_call_is_flagged(
        "unwrap_or_else",
        1,
        false,
        Some("PoisonError::into_inner")
    ));
}
