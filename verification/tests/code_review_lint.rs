use skills::code_review::{failure_outcome, report, require_runner, runner_path};
use skills::error::{CommandOutcome, SkillError};

#[test]
fn require_runner_missing_returns_missing_file_error() {
    let result = require_runner("/nonexistent-xyz", false);

    assert!(matches!(result, Err(SkillError::MissingFile { .. })));
}

#[test]
fn require_runner_finds_bundled_runner() {
    let runner = require_runner("/skills/code-review/lints", true);

    assert_eq!(
        runner.ok(),
        Some("/skills/code-review/lints/run-dylint".to_owned())
    );
}

#[test]
fn runner_is_joined_like_a_path() {
    assert_eq!(runner_path("lints/"), "lints/run-dylint");
    assert_eq!(runner_path(""), "run-dylint");
    match require_runner("/nonexistent-xyz", false) {
        Err(SkillError::MissingFile { path }) => assert_eq!(path, "/nonexistent-xyz/run-dylint"),
        other => panic!("unexpected {other:?}"),
    }
}

#[test]
fn failure_outcome_some_is_exited() {
    let code: i32 = 1;
    let outcome = failure_outcome(Some(code));

    assert_eq!(outcome, CommandOutcome::Exited(code));
}

#[test]
fn failure_outcome_none_is_signaled() {
    let outcome = failure_outcome(None);

    assert_eq!(outcome, CommandOutcome::Signaled);
}

#[test]
fn report_success_returns_unit() {
    let result = report(true, Some(0), "/tmp");

    assert_eq!(
        result.ok(),
        Some("code-review lint: bundled dylint checks passed, no findings in /tmp".to_owned())
    );
}

#[test]
fn report_nonzero_exit_returns_command_error() {
    let code: i32 = 1;
    let result = report(false, Some(1), "/tmp");

    assert!(matches!(
        result,
        Err(SkillError::Command {
            outcome: CommandOutcome::Exited(c),
            ..
        }) if c == code
    ));
}

#[test]
fn report_signal_returns_command_error() {
    let result = report(false, None, "/tmp");

    assert!(matches!(
        result,
        Err(SkillError::Command {
            outcome: CommandOutcome::Signaled,
            ..
        })
    ));
    assert_eq!(
        report(false, None, "/tmp").unwrap_err().render(),
        "command `code-review lint` terminated by signal"
    );
}
