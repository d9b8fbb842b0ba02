use skills::lints::get_or_insert::{is_get_or_insert_method, should_lint_target_source};

#[test]
fn get_or_insert_method_is_linted() {
    assert!(is_get_or_insert_method("get_or_insert", 1));
}

#[test]
fn get_or_insert_with_method_is_linted() {
    assert!(is_get_or_insert_method("get_or_insert_with", 1));
}

#[test]
fn get_or_insert_method_without_argument_is_skipped() {
    assert!(!is_get_or_insert_method("get_or_insert", 0));
}

#[test]
fn get_or_insert_default_method_is_skipped() {
    assert!(!is_get_or_insert_method("get_or_insert_default", 0));
}

#[test]
fn only_test_harness_builds_are_checked_for_fallback_accessors() {
    assert!(should_lint_target_source(true));
    assert!(!should_lint_target_source(false));
    assert!(!is_get_or_insert_method("get_or_insert_with", 2));
}
