use skills::git_review::message::{
    MessageArgs, Verb, has_atomic_subject, has_valid_action_lines, has_valid_format, render,
};

#[test]
fn renders_each_canonical_verb() {
    let actual = [
        Verb::Remove,
        Verb::Fix,
        Verb::Move,
        Verb::Rename,
        Verb::Refactor,
        Verb::Change,
        Verb::Add,
        Verb::Upgrade,
        Verb::Downgrade,
    ]
    .map(Verb::as_str);

    assert_eq!(
        actual,
        [
            "Remove",
            "Fix",
            "Move",
            "Rename",
            "Refactor",
            "Change",
            "Add",
            "Upgrade",
            "Downgrade",
        ]
    );
}

#[test]
fn renders_subject_only() {
    let args = MessageArgs {
        verb: Verb::Add,
        summary: "message composer".to_owned(),
        body: None,
        action: Vec::new(),
    };

    assert_eq!(
        render(&args).unwrap(),
        "Add message composer"
    );
}

#[test]
fn tests_renders_action_lines() {
    let args = MessageArgs {
        verb: Verb::Fix,
        summary: "message validation".to_owned(),
        body: None,
        action: vec![
            "Fix reject compound subjects".to_owned(),
            "Fix enforce line wrapping.".to_owned(),
        ],
    };

    assert_eq!(
        render(&args).unwrap(),
        "Fix message validation\n\n- Fix reject compound subjects.\n- Fix enforce line wrapping."
    );
}

#[test]
fn tests_renders_prose_body() {
    let args = MessageArgs {
        verb: Verb::Fix,
        summary: "message validation".to_owned(),
        body: Some("Explain why this commit exists.".to_owned()),
        action: Vec::new(),
    };

    assert_eq!(
        render(&args).unwrap(),
        "Fix message validation\n\nExplain why this commit exists."
    );
}

#[test]
fn rejects_compound_subjects() {
    let args = MessageArgs {
        verb: Verb::Add,
        summary: "composer and validator".to_owned(),
        body: None,
        action: Vec::new(),
    };

    assert_eq!(
        render(&args)
            .unwrap_err()
            .render(),
        "invalid input: message violates the Atomic Changes form"
    );
}

#[test]
fn rejects_invalid_action_lines() {
    let args = MessageArgs {
        verb: Verb::Fix,
        summary: "message validation".to_owned(),
        body: None,
        action: vec!["Create the capability".to_owned()],
    };

    assert_eq!(
        render(&args)
            .unwrap_err()
            .render(),
        "invalid input: message violates the Atomic Changes form"
    );
}

#[test]
fn rejects_overlong_lines() {
    let args = MessageArgs {
        verb: Verb::Add,
        summary: "x".repeat(70),
        body: None,
        action: Vec::new(),
    };

    assert_eq!(
        render(&args)
            .unwrap_err()
            .render(),
        "invalid input: message violates the Atomic Changes form"
    );
}

#[test]
fn rejects_subject_without_summary() {
    assert!(!has_atomic_subject("Add"));
}

#[test]
fn rejects_labeled_body_line() {
    assert!(!has_valid_action_lines(
        "Fix message validation\n\nWhat: explain the change"
    ));
}

#[test]
fn accepts_non_action_body_line() {
    assert!(has_valid_action_lines(
        "Fix message validation\n\nExplain the change."
    ));
}

#[test]
fn rejects_empty_action_line() {
    assert!(!has_valid_action_lines("Fix message validation\n\n-"));
}

#[test]
fn rejects_action_without_marker_space() {
    assert!(!has_valid_action_lines(
        "Fix message validation\n\n-Fix explain the change."
    ));
}

#[test]
fn rejects_empty_message() {
    assert!(!has_valid_format(""));
}

#[test]
fn subject_needs_a_canonical_verb_and_one_simple_summary() {
    assert!(has_atomic_subject("Fix message validation"));
    assert!(!has_atomic_subject("fix message validation"));
    assert!(!has_atomic_subject("Fix message validation."));
    assert!(!has_atomic_subject("Fix   "));
    assert!(!has_atomic_subject("Fix parser, or lexer"));
    assert!(!has_atomic_subject("Fix parser (AND) lexer"));
    assert!(has_atomic_subject("Fix android build"));
    assert!(has_atomic_subject("Fix brand-new order"));
}

#[test]
fn action_lines_need_a_verb_a_space_and_a_final_dot() {
    assert!(has_valid_action_lines("S\n\n* Add the thing."));
    assert!(!has_valid_action_lines("S\n\n- Add the thing"));
    assert!(!has_valid_action_lines("S\n\n- Adds the thing."));
    assert!(!has_valid_action_lines("S\n\n  Why: because"));
    assert!(has_valid_action_lines("What: the subject and separator are not checked"));
}

#[test]
fn format_counts_bytes_and_rejects_trailing_whitespace() {
    let seventy_two = "x".repeat(72);
    assert!(has_valid_format(&seventy_two));
    assert!(!has_valid_format(&"x".repeat(73)));
    assert!(!has_valid_format(&"é".repeat(37)));
    assert!(has_valid_format(&"é".repeat(36)));
    assert!(!has_valid_format("Subject \n"));
    assert!(!has_valid_format("Subject\nbody"));
    assert!(has_valid_format("Subject\n\nbody"));
    assert!(!has_valid_format("\nbody"));
}

#[test]
fn body_takes_precedence_over_actions() {
    let args = MessageArgs {
        verb: Verb::Remove,
        summary: "  dead code  ".to_owned(),
        body: Some("  Nothing calls it.  ".to_owned()),
        action: vec!["Remove the helper".to_owned()],
    };

    assert_eq!(
        render(&args).unwrap(),
        "Remove dead code\n\nNothing calls it."
    );
}

#[test]
fn action_trailing_dots_are_collapsed_to_one() {
    let args = MessageArgs {
        verb: Verb::Change,
        summary: "retry policy".to_owned(),
        body: None,
        action: vec![" Change the delay...  ".to_owned()],
    };

    assert_eq!(
        render(&args).unwrap(),
        "Change retry policy\n\n- Change the delay."
    );
}

#[test]
fn blank_summary_is_rejected_with_the_form_error() {
    let args = MessageArgs {
        verb: Verb::Move,
        summary: "   ".to_owned(),
        body: None,
        action: Vec::new(),
    };
    let error = render(&args).unwrap_err();

    assert_eq!(
        error.render(),
        "invalid input: message violates the Atomic Changes form"
    );
    assert_eq!(error.exit_code(), 4);
}
