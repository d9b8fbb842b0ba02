use skills::error::{CommandOutcome, SkillError, outcome};
use skills::git_review::git::{command_failure, command_output, decode_stdout};

#[test]
fn tests_decode_stdout_rejects_invalid_utf8() {
    let error = decode_stdout(vec![0xff]).unwrap_err();
    assert_eq!(error.exit_code(), 3);
}

#[test]
fn outcome_preserves_process_state() {
    let exit_code: i32 = 7;
    assert_eq!(
        [outcome(Some(exit_code)), outcome(None)],
        [CommandOutcome::Exited(7), CommandOutcome::Signaled]
    );
}

#[test]
fn decode_error_reports_what_std_reports() {
    let expected = String::from_utf8(vec![b'a', 0xff]).unwrap_err().to_string();
    assert_eq!(
        decode_stdout(vec![b'a', 0xff]).unwrap_err().render(),
        format!("IO error: {expected}")
    );
    assert_eq!(decode_stdout("héllo".as_bytes().to_vec()).unwrap(), "héllo");
}

#[test]
fn command_output_drops_trailing_whitespace_only() {
    assert_eq!(command_output(b"  abc\n\n".to_vec()).unwrap(), "  abc");
    assert_eq!(command_output(Vec::new()).unwrap(), "");
}

#[test]
fn failure_names_the_command_and_its_stderr() {
    let error = command_failure(
        "git",
        &["rev-parse", "--verify", "missing"],
        b"fatal: Needed a single revision\n",
        Some(128),
    );
    let actual = match &error {
        SkillError::Command { command, outcome } => Some((command.clone(), *outcome)),
        _ => None,
    };
    assert_eq!(
        actual,
        Some((
            "git rev-parse --verify missing: fatal: Needed a single revision".to_owned(),
            CommandOutcome::Exited(128)
        ))
    );
    assert_eq!(error.exit_code(), 1);
}

#[test]
fn failure_without_stderr_displays_the_exit_code() {
    let error = command_failure(
        "git",
        &["diff", "--no-index", "/dev/null", "untracked"],
        b"  \n",
        Some(1),
    );
    assert_eq!(
        error.render(),
        "command `git diff --no-index /dev/null untracked` exited with code 1"
    );
    let signaled = command_failure("gh", &[], &[0xff], None);
    assert_eq!(
        signaled.render(),
        "command `gh : \u{fffd}` terminated by signal"
    );
}
