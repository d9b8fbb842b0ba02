use skills::lints::inline_attr::{
    InlineAttr, function_is_flagged, has_no_explicit_pub_prefix, has_no_explicit_visibility,
    is_inline_attr, method_is_flagged,
};

#[test]
fn parsed_inline_attribute_is_linted() {
    assert!(is_inline_attr(InlineAttr::Hint));
}

#[test]
fn missing_inline_attribute_is_skipped() {
    assert!(!is_inline_attr(InlineAttr::Absent));
}

#[test]
fn empty_visibility_snippet_is_private_syntax() {
    assert!(has_no_explicit_pub_prefix(""));
}

#[test]
fn inherited_visibility_snippet_is_private_syntax() {
    assert!(has_no_explicit_pub_prefix("fn helper() {}"));
}

#[test]
fn public_visibility_snippet_is_skipped() {
    assert!(!has_no_explicit_pub_prefix("pub(crate) fn helper() {}"));
}

#[test]
fn every_inline_variant_counts() {
    assert!(is_inline_attr(InlineAttr::Always));
    assert!(is_inline_attr(InlineAttr::Never));
    assert!(is_inline_attr(InlineAttr::Force));
}

#[test]
fn unknown_visibility_text_is_not_private() {
    assert!(!has_no_explicit_visibility(None));
    assert!(has_no_explicit_visibility(Some("  ")));
    assert!(!has_no_explicit_visibility(Some("  pub fn f() {}")));
}

#[test]
fn private_inline_functions_and_methods_are_flagged() {
    assert!(function_is_flagged(Some(""), InlineAttr::Hint));
    assert!(!function_is_flagged(Some("pub"), InlineAttr::Hint));
    assert!(!function_is_flagged(Some(""), InlineAttr::Absent));
    assert!(method_is_flagged(Some(""), Some(""), InlineAttr::Always));
    assert!(!method_is_flagged(Some(""), Some("pub"), InlineAttr::Always));
    assert!(!method_is_flagged(Some(""), None, InlineAttr::Always));
}
