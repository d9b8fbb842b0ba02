use skills::lints::assert_contains::{
    assertion_macros, contains_call_is_flagged, is_contains_method,
    is_inside_any_target_macro_invocation_at, is_inside_target_macro_invocation_at,
    receiver_is_format_macro, receiver_name_is_source_like,
};

fn is_method_shape_linted(
    method_name: &str,
    receiver: &str,
    has_literal_argument: bool,
    argument_count: usize,
) -> bool {
    is_contains_method(method_name, argument_count, has_literal_argument, receiver)
}

#[test]
fn assert_contains_method_shape_is_linted() {
    assert!(is_method_shape_linted("contains", "value", true, 1));
}

#[test]
fn assert_contains_method_without_literal_argument_is_linted() {
    assert!(is_method_shape_linted("contains", "source", false, 1));
}

#[test]
fn collection_contains_method_without_literal_argument_is_skipped() {
    assert!(!is_method_shape_linted("contains", "FLAGGED_METHODS", false, 1));
}

#[test]
fn assert_contains_method_with_chained_receiver_is_linted() {
    assert!(is_method_shape_linted("contains", "dockerfile", true, 1));
}

#[test]
fn starts_with_method_is_skipped() {
    assert!(!is_method_shape_linted("starts_with", "source", true, 1));
}

#[test]
fn production_source_name_is_source_like() {
    assert!(receiver_name_is_source_like("production_source"));
    assert!(receiver_name_is_source_like("included_source"));
    assert!(!receiver_name_is_source_like("FLAGGED_METHODS"));
}

#[test]
fn assert_contains_call_is_inside_assert_macro_invocation() {
    let source = "assert!(dockerfile.contains(\"git config\"));";
    let byte_index = source.find("dockerfile.contains").unwrap();

    assert!(is_inside_target_macro_invocation_at(source, byte_index, "assert"));
}

#[test]
fn assert_contains_call_with_message_is_inside_assert_macro_invocation() {
    let source = "assert!(dockerfile.contains(\"git config\"), \"missing git config\");";
    let byte_index = source.find("dockerfile.contains").unwrap();

    assert!(is_inside_target_macro_invocation_at(source, byte_index, "assert"));
}

#[test]
fn negated_contains_call_is_direct_assert_macro_condition() {
    let source = "assert!(!cache.contains(&key));";
    let byte_index = source.find("cache.contains").unwrap();

    assert!(is_inside_target_macro_invocation_at(source, byte_index, "assert"));
}

#[test]
fn nested_contains_call_is_not_direct_assert_macro_condition() {
    let source =
        "assert!(matches!(action, UsageError { message } if message.contains(\"--bogus\")));";
    let byte_index = source.find("message.contains").unwrap();

    assert!(!is_inside_target_macro_invocation_at(source, byte_index, "assert"));
}

#[test]
fn contains_call_outside_assert_macro_invocation_is_skipped() {
    let source = "let configured = dockerfile.contains(\"git config\");";
    let byte_index = source.find("dockerfile.contains").unwrap();

    assert!(!is_inside_target_macro_invocation_at(source, byte_index, "assert"));
}

#[test]
fn source_like_contains_call_outside_assert_macro_is_linted() {
    assert!(is_method_shape_linted("contains", "source", false, 1));
    assert!(receiver_name_is_source_like("source"));
}

#[test]
fn source_like_literal_contains_call_outside_assert_macro_is_skipped() {
    assert!(is_method_shape_linted("contains", "source", true, 1));
    assert!(receiver_name_is_source_like("source"));
}

#[test]
fn non_source_like_contains_call_outside_assert_macro_is_skipped() {
    assert!(!receiver_name_is_source_like("raw_output"));
}

#[test]
fn contains_call_inside_debug_assert_macro_invocation_is_skipped() {
    let source = "debug_assert!(dockerfile.contains(\"git config\"));";
    let byte_index = source.find("dockerfile.contains").unwrap();

    assert!(!is_inside_target_macro_invocation_at(source, byte_index, "assert"));
}

#[test]
fn contains_call_inside_assert_eq_macro_invocation_is_linted() {
    let source = "assert_eq!(source.contains(fragment.as_str()), true);";
    let byte_index = source.find("source.contains").unwrap();

    assert!(is_inside_any_target_macro_invocation_at(
        source,
        byte_index,
        &["assert", "assert_eq"]
    ));
}

#[test]
fn assert_like_text_inside_string_is_skipped() {
    let source = "let text = \"assert!(dockerfile.contains(\\\"git config\\\"))\";\nlet configured = dockerfile.contains(\"git config\");";
    let byte_index = source.rfind("dockerfile.contains").unwrap();

    assert!(!is_inside_target_macro_invocation_at(source, byte_index, "assert"));
}

#[test]
fn assertion_macro_list_is_exact() {
    assert_eq!(
        assertion_macros(),
        vec!["assert", "assert_eq", "debug_assert", "debug_assert_eq", "prop_assert", "prop_assert_eq"]
    );
}

#[test]
fn comments_and_raw_strings_do_not_open_assertions() {
    let source = "// assert!(\nlet s = r#\"assert!(\"#; /* assert!( /* nested */ */ x.contains(\"a\")";
    let byte_index = source.find("x.contains").unwrap();

    assert!(!is_inside_target_macro_invocation_at(source, byte_index, "assert"));
}

#[test]
fn assertion_with_space_before_delimiter_is_recognised() {
    let source = "assert ! ( value.contains('x'));";
    let byte_index = source.find("value.contains").unwrap();

    assert!(is_inside_target_macro_invocation_at(source, byte_index, "assert"));
}

#[test]
fn rendered_receivers_are_not_flagged() {
    assert!(receiver_is_format_macro("format!(\"{x:?}\")"));
    assert!(receiver_is_format_macro("error.to_string()"));
    assert!(receiver_is_format_macro("String::from_utf8_lossy(&bytes)"));
    assert!(receiver_is_format_macro(" stdout "));
    assert!(receiver_is_format_macro("rendered_debug"));
    assert!(!receiver_is_format_macro("value"));
    assert!(!receiver_is_format_macro("value.items"));
}

#[test]
fn contains_call_decision_combines_shape_and_position() {
    assert!(contains_call_is_flagged("contains", 1, Some(true), "value", "value", true));
    assert!(!contains_call_is_flagged("contains", 1, Some(true), "value", "value", false));
    assert!(contains_call_is_flagged("contains", 1, Some(false), "source", "source", false));
    assert!(!contains_call_is_flagged("contains", 1, Some(true), "debug", "debug", true));
}
