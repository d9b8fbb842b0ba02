use skills::error::{CommandOutcome, SkillError, invalid, outcome};

fn io_error(message: &str) -> SkillError {
    SkillError::Io {
        message: message.to_owned(),
    }
}

#[test]
fn command_outcome_exited_displays_code() {
    let outcome = CommandOutcome::Exited(2);

    let rendered = outcome.render();

    assert_eq!(rendered, "exited with code 2");
}

#[test]
fn command_outcome_signaled_displays_signal_message() {
    let outcome = CommandOutcome::Signaled;

    let rendered = outcome.render();

    assert_eq!(rendered, "terminated by signal");
}

#[test]
fn skill_error_io_displays_wrapped_error() {
    let error = io_error("boom");

    let rendered = error.render();

    assert_eq!(rendered, "IO error: boom");
}

#[test]
fn skill_error_invalid_input_displays_reason() {
    let error = SkillError::InvalidInput {
        message: "BASE_REF is required".to_owned(),
    };

    let rendered = error.render();

    assert_eq!(rendered, "invalid input: BASE_REF is required");
}

#[test]
fn skill_error_missing_file_displays_path() {
    let error = SkillError::MissingFile {
        path: "/tmp/run-dylint".to_owned(),
    };

    let rendered = error.render();

    assert_eq!(rendered, "required file not found: /tmp/run-dylint");
}

#[test]
fn skill_error_command_displays_command_and_outcome() {
    let error = SkillError::Command {
        command: "code-review lint".to_owned(),
        outcome: CommandOutcome::Exited(2),
    };

    let rendered = error.render();

    assert_eq!(rendered, "command `code-review lint` exited with code 2");
}

#[test]
fn exit_code_is_distinct_per_error_class() {
    let io = io_error("x");
    let missing = SkillError::MissingFile {
        path: "/x".to_owned(),
    };
    let command = SkillError::Command {
        command: "c".to_owned(),
        outcome: CommandOutcome::Exited(1),
    };
    let invalid = SkillError::InvalidInput {
        message: "x".to_owned(),
    };

    let codes = (
        io.exit_code(),
        missing.exit_code(),
        command.exit_code(),
        invalid.exit_code(),
    );

    assert_eq!(codes, (3, 2, 1, 4));
}

#[test]
fn negative_and_extreme_exit_codes_are_displayed_in_full() {
    assert_eq!(CommandOutcome::Exited(-1).render(), "exited with code -1");
    assert_eq!(
        CommandOutcome::Exited(i32::MIN).render(),
        "exited with code -2147483648"
    );
    assert_eq!(outcome(Some(0)), CommandOutcome::Exited(0));
}

#[test]
fn invalid_builds_an_invalid_input_error() {
    let error = invalid("bad ref");
    assert_eq!(error.render(), "invalid input: bad ref");
    assert_eq!(error.exit_code(), 4);
}
