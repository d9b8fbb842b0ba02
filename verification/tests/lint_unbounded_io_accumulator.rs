use skills::lints::unbounded_io_accumulator::{
    flagged_methods, is_flagged_method, read_call_is_flagged, receiver_is_take_capped,
    snippet_contains_take_call,
};

#[test]
fn flagged_methods_cover_async_read_family() {
    assert_eq!(
        flagged_methods(),
        vec!["read_until", "read_to_end", "read_to_string"]
    );
}

#[test]
fn snippet_with_take_is_treated_as_capped() {
    assert!(snippet_contains_take_call("reader.take(MAX + 1)"));
}

#[test]
fn snippet_without_take_is_treated_as_uncapped() {
    assert!(!snippet_contains_take_call("reader"));
}

#[test]
fn snippet_with_take_in_identifier_is_treated_as_uncapped() {
    assert!(!snippet_contains_take_call("reader.intake(MAX + 1)"));
}

#[test]
fn other_read_methods_are_not_accumulators() {
    assert!(is_flagged_method("read_to_string"));
    assert!(!is_flagged_method("read_exact"));
    assert!(!is_flagged_method("read"));
}

#[test]
fn take_receiver_or_take_text_caps_the_reader() {
    assert!(receiver_is_take_capped(Some("take"), true, None));
    assert!(receiver_is_take_capped(None, false, Some("stdin.take(10)")));
    assert!(!receiver_is_take_capped(None, true, Some("stdin.take(10)")));
    assert!(!receiver_is_take_capped(Some("lock"), false, None));
}

#[test]
fn uncapped_accumulating_read_is_flagged() {
    assert!(read_call_is_flagged("read_to_end", Some("lock"), false, Some("stdin.lock()")));
    assert!(!read_call_is_flagged("read_to_end", Some("take"), false, None));
    assert!(!read_call_is_flagged("read_line", None, false, None));
}
