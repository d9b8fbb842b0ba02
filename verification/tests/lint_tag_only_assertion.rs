use skills::lints::tag_only_assertion::{
    TagOnlyAssertionHit, TagOnlyVerdict, bool_comparison_macros,
    is_direct_bool_literal_assertion_macro_argument_at, is_inside_target_macro_invocation_at,
    is_tag_only_method_shape, method_call_verdict, normalized_snippet,
    repository_relative_path, stale_waivers, tag_only_assertion_hit, tag_only_assertion_waivers,
};
use skills::macro_args::target_macro_content_range;
use skills::waivers::{WaiverStatus, waiver_status};

#[test]
fn changed_excluded_surface_code_is_reported() {
    let hit = TagOnlyAssertionHit::new(
        "crates/symbiote-tool-bash/src/adapter.rs",
        839,
        "output.next().await",
        "is_none",
        "output.next() . await . is_none()",
    );

    assert_eq!(waiver_status(&hit), WaiverStatus::Unwaived);
}

#[test]
fn new_excluded_surface_hit_is_reported() {
    let hit = TagOnlyAssertionHit::new(
        "crates/symbiote-tool-bash/src/adapter.rs",
        840,
        "output.next().await",
        "is_none",
        "output.next().await.is_none()",
    );

    assert_eq!(waiver_status(&hit), WaiverStatus::Unwaived);
}

#[test]
fn result_ok_tag_check_is_linted() {
    assert!(is_tag_only_method_shape("is_ok", 0));
}

#[test]
fn result_err_tag_check_is_linted() {
    assert!(is_tag_only_method_shape("is_err", 0));
}

#[test]
fn option_some_tag_check_is_linted() {
    assert!(is_tag_only_method_shape("is_some", 0));
}

#[test]
fn option_none_tag_check_is_linted() {
    assert!(is_tag_only_method_shape("is_none", 0));
}

#[test]
fn worker_liveness_tag_check_is_linted() {
    assert!(is_tag_only_method_shape("alive", 0));
}

#[test]
fn worker_termination_tag_check_is_linted() {
    assert!(is_tag_only_method_shape("termination_requested", 0));
}

#[test]
fn other_predicate_is_skipped() {
    assert!(!is_tag_only_method_shape("is_empty", 0));
}

#[test]
fn method_with_arguments_is_skipped() {
    assert!(!is_tag_only_method_shape("is_ok", 1));
}

#[test]
fn tag_check_call_is_inside_assert_macro_invocation() {
    let source = "assert!(result.is_ok());";
    let byte_index = source.find("result.is_ok").unwrap();

    assert!(is_inside_target_macro_invocation_at(
        source, byte_index, "assert"
    ));
}

#[test]
fn tag_check_call_with_message_is_inside_assert_macro_invocation() {
    let source = "assert!(result.is_ok(), \"result should pass\");";
    let byte_index = source.find("result.is_ok").unwrap();

    assert!(is_inside_target_macro_invocation_at(
        source, byte_index, "assert"
    ));
}

#[test]
fn negated_tag_check_is_not_direct_assert_macro_condition() {
    let source = "assert!(!result.is_ok());";
    let byte_index = source.find("result.is_ok").unwrap();

    assert!(!is_inside_target_macro_invocation_at(
        source, byte_index, "assert"
    ));
}

#[test]
fn nested_tag_check_is_not_direct_assert_macro_condition() {
    let source = "assert!(matches!(result, Ok(value) if value.is_some()));";
    let byte_index = source.find("value.is_some").unwrap();

    assert!(!is_inside_target_macro_invocation_at(
        source, byte_index, "assert"
    ));
}

#[test]
fn tag_check_outside_assert_macro_invocation_is_skipped() {
    let source = "let passed = result.is_ok();";
    let byte_index = source.find("result.is_ok").unwrap();

    assert!(!is_inside_target_macro_invocation_at(
        source, byte_index, "assert"
    ));
}

#[test]
fn tag_check_inside_debug_assert_macro_invocation_is_skipped() {
    let source = "debug_assert!(result.is_ok());";
    let byte_index = source.find("result.is_ok").unwrap();

    assert!(!is_inside_target_macro_invocation_at(
        source, byte_index, "assert"
    ));
}

#[test]
fn assert_eq_bool_literal_argument_is_linted() {
    let source = "assert_eq!(transport.is_write_vectored(), true);";
    let byte_index = source.find("true").unwrap();

    assert!(is_direct_bool_literal_assertion_macro_argument_at(
        source, byte_index
    ));
}

#[test]
fn prop_assert_ne_bool_literal_argument_is_linted() {
    let source = "prop_assert_ne!(false, scenario.completed_successfully());";
    let byte_index = source.find("false").unwrap();

    assert!(is_direct_bool_literal_assertion_macro_argument_at(
        source, byte_index
    ));
}

#[test]
fn nested_bool_literal_argument_is_skipped() {
    let source = "assert_eq!(predicate(true), expected);";
    let byte_index = source.find("true").unwrap();

    assert!(!is_direct_bool_literal_assertion_macro_argument_at(
        source, byte_index
    ));
}

#[test]
fn bool_literal_inside_expected_array_is_skipped() {
    let source = "assert_eq!(observed, [true, false]);";
    let byte_index = source.find("true").unwrap();

    assert!(!is_direct_bool_literal_assertion_macro_argument_at(
        source, byte_index
    ));
}

#[test]
fn non_assertion_bool_literal_argument_is_skipped() {
    let source = "assert!(transport.is_write_vectored() == true);";
    let byte_index = source.find("true").unwrap();

    assert!(!is_direct_bool_literal_assertion_macro_argument_at(
        source, byte_index
    ));
}

#[test]
fn stale_waivers_without_hits_are_every_waiver_of_the_crate() {
    let hits: [TagOnlyAssertionHit; 0] = [];
    assert_eq!(
        stale_waivers("symbiote_tool_bash", &hits),
        tag_only_assertion_waivers()
    );
    assert_eq!(tag_only_assertion_waivers().len(), 9);
    assert!(stale_waivers("other_crate", &hits).is_empty());
}

#[test]
fn bool_comparison_macro_list_is_exact() {
    assert_eq!(
        bool_comparison_macros(),
        vec![
            "assert_eq",
            "assert_ne",
            "prop_assert_eq",
            "prop_assert_ne",
            "debug_assert_eq",
            "debug_assert_ne",
        ]
    );
}

#[test]
fn absolute_paths_are_made_repository_relative() {
    assert_eq!(
        repository_relative_path("/home/ci/repo/crates/symbiote-tool-bash/src/adapter.rs"),
        "crates/symbiote-tool-bash/src/adapter.rs"
    );
    assert_eq!(
        repository_relative_path("/a/crates/x/crates/y.rs"),
        "crates/x/crates/y.rs"
    );
    assert_eq!(repository_relative_path("crates/x.rs"), "crates/x.rs");
    assert_eq!(normalized_snippet("  a.is_ok()\n"), "a.is_ok()");
}

#[test]
fn built_hit_matches_the_recorded_waiver() {
    let hit = tag_only_assertion_hit(
        "/repo/crates/symbiote-tool-bash/src/adapter.rs",
        1413,
        " terminal_before_second ",
        "is_err",
        "terminal_before_second.is_err()\n",
    );
    assert_eq!(
        hit,
        TagOnlyAssertionHit::new(
            "crates/symbiote-tool-bash/src/adapter.rs",
            1413,
            "terminal_before_second",
            "is_err",
            "terminal_before_second.is_err()",
        )
    );
    assert_eq!(waiver_status(&hit), WaiverStatus::Suppressed);
}

#[test]
fn verdict_reports_unwaived_tag_assertions() {
    let waived = TagOnlyAssertionHit::new(
        "crates/symbiote-tool-bash/src/adapter.rs",
        1448,
        "output.next().await",
        "is_none",
        "output.next().await.is_none()",
    );
    let other = TagOnlyAssertionHit::new("crates/x/src/lib.rs", 3, "r", "is_ok", "r.is_ok()");
    assert_eq!(
        method_call_verdict("is_none", 0, true, Some(waived.clone())),
        TagOnlyVerdict::Waived(waived)
    );
    assert_eq!(
        method_call_verdict("is_ok", 0, true, Some(other.clone())),
        TagOnlyVerdict::Report
    );
    assert_eq!(method_call_verdict("is_ok", 0, true, None), TagOnlyVerdict::Report);
    assert_eq!(
        method_call_verdict("is_ok", 0, false, Some(other)),
        TagOnlyVerdict::Ignore
    );
    assert_eq!(method_call_verdict("is_empty", 0, true, None), TagOnlyVerdict::Ignore);
}

#[test]
fn content_range_is_that_of_the_innermost_target_invocation() {
    let source = b"assert_eq!(assert_eq!(true, a), b);";
    assert_eq!(
        target_macro_content_range(source, 22, &["assert_eq"]),
        Some((22, 29))
    );
    assert_eq!(
        target_macro_content_range(source, 11, &["assert_eq"]),
        Some((11, 33))
    );
    assert_eq!(target_macro_content_range(source, 2, &["assert_eq"]), None);
}
