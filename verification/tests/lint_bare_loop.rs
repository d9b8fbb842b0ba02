use skills::lints::bare_loop::{
    is_identifier_continue, is_literal_loop_text, labelled_loop_body, loop_expression_is_flagged,
    starts_with_loop_keyword,
};

fn chars(text: &str) -> Vec<char> {
    text.chars().collect()
}

#[test]
fn literal_loop_text_is_linted() {
    assert!(is_literal_loop_text("loop { work(); }"));
}

#[test]
fn labelled_loop_text_is_linted() {
    assert!(is_literal_loop_text("'scan: loop { work(); }"));
}

#[test]
fn while_loop_text_is_skipped() {
    assert!(!is_literal_loop_text("while index < len { index += 1; }"));
}

#[test]
fn for_loop_text_is_skipped() {
    assert!(!is_literal_loop_text("for item in items { drop(item); }"));
}

#[test]
fn await_text_is_skipped() {
    assert!(!is_literal_loop_text(".await"));
}

#[test]
fn loop_prefixed_identifier_is_skipped() {
    assert!(!is_literal_loop_text("loopy()"));
}

#[test]
fn leading_whitespace_before_loop_is_ignored() {
    assert!(is_literal_loop_text("  \n loop {}"));
    assert!(!is_literal_loop_text("loop"));
    assert!(!is_literal_loop_text(""));
}

#[test]
fn loop_keyword_needs_a_non_identifier_after_it() {
    assert!(starts_with_loop_keyword(&chars("loop{")));
    assert!(!starts_with_loop_keyword(&chars("loop_x {")));
    assert!(!starts_with_loop_keyword(&chars("loopé {")));
    assert!(is_identifier_continue('_'));
    assert!(is_identifier_continue('é'));
    assert!(!is_identifier_continue(' '));
}

#[test]
fn label_body_is_the_trimmed_text_after_the_colon() {
    assert_eq!(labelled_loop_body(&chars("'a:   loop {}")), Some(chars("loop {}")));
    assert_eq!(labelled_loop_body(&chars("'a loop {}")), None);
    assert_eq!(labelled_loop_body(&chars("loop {}")), None);
}

#[test]
fn loop_decision_skips_expansions_and_returning_bodies() {
    assert!(loop_expression_is_flagged(false, Some("loop { work(); }"), false));
    assert!(!loop_expression_is_flagged(true, Some("loop { work(); }"), false));
    assert!(!loop_expression_is_flagged(false, Some("loop { return; }"), true));
    assert!(!loop_expression_is_flagged(false, None, false));
    assert!(!loop_expression_is_flagged(false, Some("while x {}"), false));
}
