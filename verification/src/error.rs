//! The error type shared by every command, and how a failed command ended.
use vstd::prelude::*;

use crate::text::{chars_of, string_of};

verus! {

/// The decimal digit character for `d` (0 to 9).
pub open spec fn digit_char(d: int) -> char {
    (48 + d) as char
}

/// The decimal text of a natural number.
pub open spec fn decimal_nat(n: nat) -> Seq<char>
    decreases n,
{
    if n < 10 {
        seq![digit_char(n as int)]
    } else {
        decimal_nat(n / 10).push(digit_char((n % 10) as int))
    }
}

/// The decimal text of an integer, with a leading `-` when negative.
pub open spec fn decimal(i: int) -> Seq<char> {
    if i < 0 {
        seq!['-'] + decimal_nat((-i) as nat)
    } else {
        decimal_nat(i as nat)
    }
}

/// Appends the decimal digits of `n`.
pub fn push_decimal(out: &mut Vec<char>, n: u64)
    ensures
        final(out)@ == old(out)@ + decimal_nat(n as nat),
    decreases n,
{
    if n >= 10 {
        push_decimal(out, n / 10);
    }
    let d = (n % 10) as u8;
    let c = (48u8 + d) as char;
    assert(c == digit_char((n % 10) as int));
    out.push(c);
    proof {
        if n >= 10 {
            assert(old(out)@ + decimal_nat((n / 10) as nat) + seq![c] =~= old(out)@ + decimal_nat(
                n as nat,
            ));
        } else {
            assert(old(out)@ + seq![c] =~= old(out)@ + decimal_nat(n as nat));
        }
    }
}

/// Appends the decimal text of `i`.
pub fn push_decimal_i64(out: &mut Vec<char>, i: i64)
    ensures
        final(out)@ == old(out)@ + decimal(i as int),
{
    if i < 0 {
        out.push('-');
        let magnitude: u64 = if i == i64::MIN {
            9223372036854775808u64
        } else {
            (-i) as u64
        };
        push_decimal(out, magnitude);
        assert(final(out)@ =~= old(out)@ + decimal(i as int)) by {
            assert(old(out)@.push('-') + decimal_nat(magnitude as nat) =~= old(out)@ + (seq!['-']
                + decimal_nat(magnitude as nat)));
        };
    } else {
        push_decimal(out, i as u64);
    }
}

/// Appends the characters of `s`.
pub fn push_text(out: &mut Vec<char>, s: &str)
    ensures
        final(out)@ == old(out)@ + s@,
{
    let c = chars_of(s);
    let mut k: usize = 0;
    let ghost start = out@;
    while k < c.len()
        invariant
            k <= c@.len(),
            out@ == start + c@.subrange(0, k as int),
        decreases c@.len() - k,
    {
        out.push(c[k]);
        assert(start + c@.subrange(0, k + 1) =~= (start + c@.subrange(0, k as int)).push(
            c@[k as int],
        ));
        k = k + 1;
    }
    assert(c@.subrange(0, c@.len() as int) =~= c@);
}

/// How a spawned command terminated when it did not succeed.
#[derive(Clone, Copy, Debug, PartialEq, Eq)]
pub enum CommandOutcome {
    /// Exited with a non-zero status code.
    Exited(i32),
    /// Terminated by a signal, with no exit code.
    Signaled,
}

/// The message describing a command outcome.
pub open spec fn outcome_text(outcome: CommandOutcome) -> Seq<char> {
    match outcome {
        CommandOutcome::Exited(code) => "exited with code "@ + decimal(code as int),
        CommandOutcome::Signaled => "terminated by signal"@,
    }
}

impl CommandOutcome {
    /// Renders the outcome: `exited with code N` or `terminated by signal`.
    pub fn render(&self) -> (r: String)
        ensures
            r@ == outcome_text(*self),
    {
        let mut out: Vec<char> = Vec::new();
        match *self {
            CommandOutcome::Exited(code) => {
                push_text(&mut out, "exited with code ");
                push_decimal_i64(&mut out, code as i64);
            },
            CommandOutcome::Signaled => {
                push_text(&mut out, "terminated by signal");
            },
        }
        string_of(out.as_slice())
    }
}

/// Outcome messages tell outcomes apart: two exit codes render the same
/// message exactly when they are equal, and no exit renders like a
/// signal.
pub proof fn outcome_text_is_faithful(c1: i32, c2: i32)
    ensures
        (outcome_text(CommandOutcome::Exited(c1)) == outcome_text(CommandOutcome::Exited(c2)))
            <==> c1 == c2,
        outcome_text(CommandOutcome::Exited(c1)) != outcome_text(CommandOutcome::Signaled),
{
    reveal_strlit("exited with code ");
    reveal_strlit("terminated by signal");
    let prefix = "exited with code "@;
    let t1 = outcome_text(CommandOutcome::Exited(c1));
    let t2 = outcome_text(CommandOutcome::Exited(c2));
    if t1 == t2 {
        assert(t1.subrange(17, t1.len() as int) =~= decimal(c1 as int));
        assert(t2.subrange(17, t2.len() as int) =~= decimal(c2 as int));
        crate::git_review::dates::decimal_text_parses_back(c1 as i64);
        crate::git_review::dates::decimal_text_parses_back(c2 as i64);
    }
    assert(t1[0] == prefix[0]);
    assert(t1[0] != "terminated by signal"@[0]);
}

/// The outcome of a failed process from its exit code, which is absent
/// when a signal ended it.
pub fn outcome(code: Option<i32>) -> (r: CommandOutcome)
    ensures
        r == match code {
            Some(c) => CommandOutcome::Exited(c),
            None => CommandOutcome::Signaled,
        },
{
    match code {
        Some(c) => CommandOutcome::Exited(c),
        None => CommandOutcome::Signaled,
    }
}

/// Shared error type for all skills.
#[derive(Debug)]
pub enum SkillError {
    /// IO operation failed; the message describes the underlying error.
    Io { message: String },
    /// A required bundled file was not present on disk.
    MissingFile { path: String },
    /// A spawned command did not exit successfully.
    Command { command: String, outcome: CommandOutcome },
    /// Caller input was rejected.
    InvalidInput { message: String },
}

/// The message a `SkillError` displays.
pub open spec fn error_text(e: SkillError) -> Seq<char> {
    match e {
        SkillError::Io { message } => "IO error: "@ + message@,
        SkillError::MissingFile { path } => "required file not found: "@ + path@,
        SkillError::Command { command, outcome } => "command `"@ + command@ + "` "@ + outcome_text(
            outcome,
        ),
        SkillError::InvalidInput { message } => "invalid input: "@ + message@,
    }
}

/// The exit code of each error class.
pub open spec fn exit_code_of(e: SkillError) -> u8 {
    match e {
        SkillError::Command { .. } => 1,
        SkillError::MissingFile { .. } => 2,
        SkillError::Io { .. } => 3,
        SkillError::InvalidInput { .. } => 4,
    }
}

/// Two errors are of the same class.
pub open spec fn same_class(a: SkillError, b: SkillError) -> bool {
    match (a, b) {
        (SkillError::Command { .. }, SkillError::Command { .. }) => true,
        (SkillError::MissingFile { .. }, SkillError::MissingFile { .. }) => true,
        (SkillError::Io { .. }, SkillError::Io { .. }) => true,
        (SkillError::InvalidInput { .. }, SkillError::InvalidInput { .. }) => true,
        _ => false,
    }
}

impl SkillError {
    /// Exit code for this error, distinct per class so an embedding script
    /// can branch on the failure mode.
    pub fn exit_code(&self) -> (r: u8)
        ensures
            r == exit_code_of(*self),
    {
        match self {
            SkillError::Command { .. } => 1,
            SkillError::MissingFile { .. } => 2,
            SkillError::Io { .. } => 3,
            SkillError::InvalidInput { .. } => 4,
        }
    }

    /// The error's display text.
    pub fn render(&self) -> (r: String)
        ensures
            r@ == error_text(*self),
    {
        let mut out: Vec<char> = Vec::new();
        match self {
            SkillError::Io { message } => {
                push_text(&mut out, "IO error: ");
                push_text(&mut out, message.as_str());
            },
            SkillError::MissingFile { path } => {
                push_text(&mut out, "required file not found: ");
                push_text(&mut out, path.as_str());
            },
            SkillError::Command { command, outcome } => {
                push_text(&mut out, "command `");
                push_text(&mut out, command.as_str());
                push_text(&mut out, "` ");
                let o = outcome.render();
                push_text(&mut out, o.as_str());
            },
            SkillError::InvalidInput { message } => {
                push_text(&mut out, "invalid input: ");
                push_text(&mut out, message.as_str());
            },
        }
        string_of(out.as_slice())
    }
}

/// Exit codes tell the error classes apart: two errors share an exit code
/// exactly when they are of the same class.
pub proof fn exit_code_distinct_per_class(a: SkillError, b: SkillError)
    ensures
        (exit_code_of(a) == exit_code_of(b)) <==> same_class(a, b),
{
}

/// `e` is an invalid-input error whose reason is `message`.
pub open spec fn is_invalid_input(e: SkillError, message: Seq<char>) -> bool {
    e matches SkillError::InvalidInput { message: m } && m@ == message
}

/// Builds an invalid-input error with the given reason.
pub fn invalid(message: &str) -> (r: SkillError)
    ensures
        is_invalid_input(r, message@),
{
    SkillError::InvalidInput { message: message.to_owned() }
}

} // verus!
