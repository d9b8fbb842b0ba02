use skills::lints::fuzzy_matcher_assertion::{
    FuzzyMatcherAssertionHit, WaiverStatus, assertion_condition_prefix_is_linted,
    assertion_macros, expression_is_flagged, is_inside_any_target_macro_invocation_at,
    next_non_ws_byte, partial_matches_source_is_linted, payload_blind_method_is_linted,
    previous_non_ws_byte, source_contains_partial_pattern, stale_waivers, waiver_status,
};

const ASSERTION_MACROS: &[&str] = &[
    "assert",
    "assert_eq",
    "assert_ne",
    "debug_assert",
    "debug_assert_eq",
    "debug_assert_ne",
    "prop_assert",
    "prop_assert_eq",
    "prop_assert_ne",
];

#[test]
fn direct_assertion_condition_prefix_is_linted() {
    assert!(assertion_condition_prefix_is_linted(""));
}

#[test]
fn negated_assertion_condition_prefix_is_linted() {
    assert!(assertion_condition_prefix_is_linted("!"));
}

#[test]
fn compound_assertion_condition_prefix_is_skipped() {
    assert!(!assertion_condition_prefix_is_linted("other &&"));
}

#[test]
fn is_ok_assertion_is_payload_blind() {
    assert!(payload_blind_method_is_linted("is_ok", 0));
}

#[test]
fn is_some_assertion_is_payload_blind() {
    assert!(payload_blind_method_is_linted("is_some", 0));
}

#[test]
fn is_none_assertion_is_payload_blind() {
    assert!(payload_blind_method_is_linted("is_none", 0));
}

#[test]
fn is_err_assertion_is_payload_blind() {
    assert!(payload_blind_method_is_linted("is_err", 0));
}

#[test]
fn lib_exact_excluded_surface_waiver_is_suppressed() {
    let hit = FuzzyMatcherAssertionHit::new(
        "crates/symbiote-tool-bash/src/adapter.rs",
        839,
        "output.next().await",
        "is_none",
        "output.next().await.is_none()",
    );

    assert_eq!(waiver_status(&hit), WaiverStatus::Suppressed);
}

#[test]
fn changed_excluded_surface_line_is_not_waived() {
    let hit = FuzzyMatcherAssertionHit::new(
        "crates/symbiote-tool-bash/src/adapter.rs",
        840,
        "output.next().await",
        "is_none",
        "output.next().await.is_none()",
    );

    assert_eq!(waiver_status(&hit), WaiverStatus::Unwaived);
}

#[test]
fn existing_excluded_surface_is_err_hit_is_suppressed() {
    let hit = FuzzyMatcherAssertionHit::new(
        "crates/symbiote-tool-bash/src/adapter.rs",
        1413,
        "terminal_before_second",
        "is_err",
        "terminal_before_second.is_err()",
    );

    assert_eq!(waiver_status(&hit), WaiverStatus::Suppressed);
}

#[test]
fn lib_stale_waiver_is_reported() {
    let hits = [FuzzyMatcherAssertionHit::new(
        "crates/symbiote-tool-bash/src/adapter.rs",
        839,
        "output.next().await",
        "is_none",
        "output.next().await.is_none()",
    )];

    assert_eq!(stale_waivers("symbiote_tool_bash", &hits).len(), 8,);
}

#[test]
fn partial_matches_placeholder_is_linted() {
    assert!(partial_matches_source_is_linted(
        "matches!(result, Err(AcpProtocolError::InvalidRequestIdCharacter { .. }))",
    ));
}

#[test]
fn exact_matches_pattern_is_skipped() {
    assert!(!partial_matches_source_is_linted(
        "matches!(result, Err(AcpProtocolError::EmptyRequestId))",
    ));
}

#[test]
fn matches_range_pattern_is_skipped() {
    assert!(!partial_matches_source_is_linted("matches!(value, 0..=10)",));
}

#[test]
fn partial_placeholder_inside_string_is_skipped() {
    assert!(!partial_matches_source_is_linted(
        r#"matches!(value, Pattern { field: ".." })"#,
    ));
}

#[test]
fn direct_assert_is_linted() {
    let source = "assert!(result.is_ok());";
    let byte_index = source.find("result.is_ok").unwrap();

    assert!(is_inside_any_target_macro_invocation_at(
        source,
        byte_index,
        ASSERTION_MACROS
    ));
}

#[test]
fn direct_assert_eq_is_linted() {
    let source = "assert_eq!(result.is_ok(), true);";
    let byte_index = source.find("result.is_ok").unwrap();

    assert!(is_inside_any_target_macro_invocation_at(
        source,
        byte_index,
        ASSERTION_MACROS
    ));
}

#[test]
fn direct_assert_ne_is_linted() {
    let source = "assert_ne!(result.is_some(), false);";
    let byte_index = source.find("result.is_some").unwrap();

    assert!(is_inside_any_target_macro_invocation_at(
        source,
        byte_index,
        ASSERTION_MACROS
    ));
}

#[test]
fn direct_prop_assert_is_linted() {
    let source = "prop_assert!(result.is_ok());";
    let byte_index = source.find("result.is_ok").unwrap();

    assert!(is_inside_any_target_macro_invocation_at(
        source,
        byte_index,
        ASSERTION_MACROS
    ));
}

#[test]
fn direct_prop_assert_eq_is_linted() {
    let source = "prop_assert_eq!(result.is_ok(), true);";
    let byte_index = source.find("result.is_ok").unwrap();

    assert!(is_inside_any_target_macro_invocation_at(
        source,
        byte_index,
        ASSERTION_MACROS
    ));
}

#[test]
fn direct_prop_assert_ne_is_linted() {
    let source = "prop_assert_ne!(result.is_some(), false);";
    let byte_index = source.find("result.is_some").unwrap();

    assert!(is_inside_any_target_macro_invocation_at(
        source,
        byte_index,
        ASSERTION_MACROS
    ));
}

#[test]
fn direct_debug_assert_is_linted() {
    let source = "debug_assert!(matches!(value, Pattern { .. }));";
    let byte_index = source.find("matches!").unwrap();

    assert!(is_inside_any_target_macro_invocation_at(
        source,
        byte_index,
        ASSERTION_MACROS
    ));
}

#[test]
fn direct_debug_assert_eq_is_linted() {
    let source = "debug_assert_eq!(result.is_ok(), true);";
    let byte_index = source.find("result.is_ok").unwrap();

    assert!(is_inside_any_target_macro_invocation_at(
        source,
        byte_index,
        ASSERTION_MACROS
    ));
}

#[test]
fn direct_debug_assert_ne_is_linted() {
    let source = "debug_assert_ne!(result.is_some(), false);";
    let byte_index = source.find("result.is_some").unwrap();

    assert!(is_inside_any_target_macro_invocation_at(
        source,
        byte_index,
        ASSERTION_MACROS
    ));
}

#[test]
fn negated_assert_is_linted() {
    let source = "assert!(!result.is_ok());";
    let byte_index = source.find("result.is_ok").unwrap();

    assert!(is_inside_any_target_macro_invocation_at(
        source,
        byte_index,
        ASSERTION_MACROS
    ));
}

#[test]
fn assertion_macro_list_matches_the_lint() {
    assert_eq!(assertion_macros(), ASSERTION_MACROS.to_vec());
}

#[test]
fn other_tag_methods_are_not_payload_blind() {
    assert!(!payload_blind_method_is_linted("is_ok", 1));
    assert!(!payload_blind_method_is_linted("is_empty", 0));
}

#[test]
fn bare_condition_prefix_allows_only_whitespace_and_one_negation() {
    assert!(assertion_condition_prefix_is_linted("  ! "));
    assert!(!assertion_condition_prefix_is_linted("!!"));
    assert!(!assertion_condition_prefix_is_linted("x"));
}

#[test]
fn neighbouring_non_whitespace_bytes_are_found() {
    let bytes = b"a ..  b";
    assert_eq!(previous_non_ws_byte(bytes, 2), Some(b'a'));
    assert_eq!(next_non_ws_byte(bytes, 4), Some(b'b'));
    assert_eq!(previous_non_ws_byte(bytes, 0), None);
    assert_eq!(next_non_ws_byte(b"x  ", 1), None);
}

#[test]
fn partial_pattern_needs_braces_or_commas_around_the_dots() {
    assert!(source_contains_partial_pattern("Pattern { .. }"));
    assert!(source_contains_partial_pattern("Tuple(a, ..)"));
    assert!(!source_contains_partial_pattern("0..10"));
    assert!(!source_contains_partial_pattern("// Pattern { .. }"));
    assert!(!partial_matches_source_is_linted("other!(value, Pattern { .. })"));
}

#[test]
fn expression_decision_needs_a_partial_matches_inside_an_assertion() {
    assert!(expression_is_flagged(Some("matches!(v, P { .. })"), true));
    assert!(!expression_is_flagged(Some("matches!(v, P { .. })"), false));
    assert!(!expression_is_flagged(Some("matches!(v, P)"), true));
    assert!(!expression_is_flagged(None, true));
}

#[test]
fn tag_call_outside_assertion_is_not_inside() {
    let source = "let ok = result.is_ok(); assert!(ok);";
    let byte_index = source.find("result.is_ok").unwrap();
    assert!(!is_inside_any_target_macro_invocation_at(
        source,
        byte_index,
        ASSERTION_MACROS
    ));
}
