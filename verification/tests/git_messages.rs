use skills::git_review::messages::{
    CheckMessagesArgs, commit_is_checked, invalid_commit_line, message_is_valid,
    message_show_args, message_verdict,
    messages_outcome, parse_message, revisions,
};

fn args(root: bool, base_ref: Option<&str>, branch_ref: &str) -> CheckMessagesArgs {
    CheckMessagesArgs {
        root,
        base_ref: base_ref.map(ToOwned::to_owned),
        branch_ref: branch_ref.to_owned(),
        commits_file: None,
        repo: ".".to_owned(),
    }
}

#[test]
fn root_mode_rejects_two_positional_refs() {
    let args = args(true, Some("main"), "HEAD~1");

    assert_eq!(
        revisions(&args).unwrap_err().render(),
        "invalid input: when --root is set, provide at most one ref (for example, --root HEAD)"
    );
}

#[test]
fn range_mode_requires_base_ref() {
    let args = args(false, None, "HEAD");

    assert_eq!(
        revisions(&args).unwrap_err().render(),
        "invalid input: BASE_REF is required unless --root is provided"
    );
}

#[test]
fn parse_message_rejects_missing_separator() {
    assert_eq!(
        parse_message("Add message checker").unwrap_err().render(),
        "invalid input: Git returned a message without a subject separator"
    );
}

#[test]
fn revision_is_the_root_ref_or_the_range() {
    assert_eq!(revisions(&args(true, Some("HEAD"), "HEAD")).unwrap(), "HEAD");
    assert_eq!(revisions(&args(true, Some("v1"), "HEAD")).unwrap(), "v1");
    assert_eq!(revisions(&args(true, None, "topic")).unwrap(), "topic");
    assert_eq!(revisions(&args(false, Some("main"), "HEAD")).unwrap(), "main..HEAD");
}

#[test]
fn message_splits_at_the_first_nul() {
    assert_eq!(
        parse_message("Add checker\0Add checker\n\n- Add tests.\0x").unwrap(),
        (
            "Add checker".to_owned(),
            "Add checker\n\n- Add tests.\0x".to_owned()
        )
    );
}

#[test]
fn messages_are_judged_on_subject_lines_and_format() {
    assert!(message_is_valid(
        "Add message checker",
        "Add message checker\n\n- Add direct validation tests.\n"
    ));
    assert!(!message_is_valid(
        "feat: add conventional subject",
        "feat: add conventional subject\n"
    ));
    assert!(!message_is_valid("Add checker", "Add checker\nbody\n"));
}

#[test]
fn selection_restricts_the_checked_commits() {
    let selected = vec!["abc".to_owned()];
    assert!(commit_is_checked(None, "def"));
    assert!(commit_is_checked(Some(&selected), "abc"));
    assert!(!commit_is_checked(Some(&selected), "def"));
}

#[test]
fn report_names_each_invalid_commit() {
    assert_eq!(invalid_commit_line("abc", "feat: x"), "abc feat: x\n");
    assert!(messages_outcome(0).is_ok());
    assert_eq!(
        messages_outcome(2).unwrap_err().render(),
        "invalid input: found commit messages that violate the Atomic Changes form"
    );
}

#[test]
fn message_verdicts_report_only_broken_messages() {
    assert_eq!(message_show_args("abc"), ["show", "-s", "--format=%s%x00%B", "abc"]);
    let good = "Fix message validation\0Fix message validation\n";
    assert_eq!(message_verdict("abc", good).unwrap(), None);
    let bad = "fixed stuff and more\0fixed stuff and more\n";
    assert_eq!(
        message_verdict("abc", bad).unwrap(),
        Some("abc fixed stuff and more\n".to_owned())
    );
    assert_eq!(
        message_verdict("abc", "no separator").unwrap_err().render(),
        "invalid input: Git returned a message without a subject separator"
    );
}
