use skills::lints::assert_starts_with::{
    argument_is_path_prefix, is_inside_target_macro_invocation_at, is_starts_with_method,
    starts_with_call_is_flagged,
};

#[test]
fn starts_with_method_is_linted() {
    assert!(is_starts_with_method("starts_with", 1));
}

#[test]
fn starts_with_method_without_argument_is_skipped() {
    assert!(!is_starts_with_method("starts_with", 0));
}

#[test]
fn ends_with_method_is_skipped() {
    assert!(!is_starts_with_method("ends_with", 1));
}

#[test]
fn direct_starts_with_call_is_inside_assert_macro_invocation() {
    let source = "assert!(output.starts_with(\"prefix\"));";
    let byte_index = source.find("output.starts_with").expect("call exists");

    assert!(is_inside_target_macro_invocation_at(source, byte_index, "assert"));
}

#[test]
fn direct_starts_with_call_with_message_is_inside_assert_macro_invocation() {
    let source = "assert!(output.starts_with(\"prefix\"), \"bad prefix\");";
    let byte_index = source.find("output.starts_with").expect("call exists");

    assert!(is_inside_target_macro_invocation_at(source, byte_index, "assert"));
}

#[test]
fn negated_starts_with_call_is_not_direct_assert_macro_condition() {
    let source = "assert!(!output.starts_with(\"prefix\"));";
    let byte_index = source.find("output.starts_with").expect("call exists");

    assert!(!is_inside_target_macro_invocation_at(source, byte_index, "assert"));
}

#[test]
fn nested_starts_with_call_is_not_direct_assert_macro_condition() {
    let source =
        "assert!(matches!(action, UsageError { message } if message.starts_with(\"--\")));";
    let byte_index = source.find("message.starts_with").expect("call exists");

    assert!(!is_inside_target_macro_invocation_at(source, byte_index, "assert"));
}

#[test]
fn starts_with_call_outside_assert_macro_invocation_is_skipped() {
    let source = "let configured = output.starts_with(\"prefix\");";
    let byte_index = source.find("output.starts_with").expect("call exists");

    assert!(!is_inside_target_macro_invocation_at(source, byte_index, "assert"));
}

#[test]
fn path_and_url_prefix_arguments_are_exempt() {
    assert!(argument_is_path_prefix(Some("/usr/bin")));
    assert!(argument_is_path_prefix(Some("https://example.invalid")));
    assert!(!argument_is_path_prefix(Some("prefix")));
    assert!(!argument_is_path_prefix(None));
    assert!(!starts_with_call_is_flagged("starts_with", 1, Some("/tmp"), true));
    assert!(starts_with_call_is_flagged("starts_with", 1, Some("prefix"), true));
    assert!(!starts_with_call_is_flagged("starts_with", 1, Some("prefix"), false));
}
