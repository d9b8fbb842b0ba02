//! The `code-review lint` command's decisions: where the bundled runner
//! lives, whether it may be run, and what its exit status means.
use vstd::prelude::*;

use crate::error::{CommandOutcome, SkillError, outcome, push_text};
use crate::text::{chars_of, string_of};

verus! {

/// `dir` joined with `name` as `Path::join` joins a relative file name:
/// a `/` is put between them unless `dir` is empty or already ends in `/`.
pub open spec fn joined_path(dir: Seq<char>, name: Seq<char>) -> Seq<char> {
    if dir.len() == 0 || dir.last() == '/' {
        dir + name
    } else {
        dir + "/"@ + name
    }
}

/// The path of the bundled runner inside the lints directory.
pub fn runner_path(lints_dir: &str) -> (r: String)
    ensures
        r@ == joined_path(lints_dir@, "run-dylint"@),
{
    let d = chars_of(lints_dir);
    let mut out: Vec<char> = Vec::new();
    push_text(&mut out, lints_dir);
    if d.len() > 0 && d[d.len() - 1] != '/' {
        push_text(&mut out, "/");
    }
    push_text(&mut out, "run-dylint");
    string_of(out.as_slice())
}

/// The runner to execute: its path when it is a file on disk, otherwise the
/// missing-file error naming that path. `runner_is_file` is what the file
/// system says of `runner_path(lints_dir)`.
pub fn require_runner(lints_dir: &str, runner_is_file: bool) -> (r: Result<String, SkillError>)
    ensures
        r is Ok == runner_is_file,
        r matches Ok(path) ==> path@ == joined_path(lints_dir@, "run-dylint"@),
        r matches Err(e) ==> e matches SkillError::MissingFile { path } && path@ == joined_path(
            lints_dir@,
            "run-dylint"@,
        ),
{
    let path = runner_path(lints_dir);
    if runner_is_file {
        Ok(path)
    } else {
        Err(SkillError::MissingFile { path })
    }
}

/// The outcome of a runner that did not succeed.
pub fn failure_outcome(code: Option<i32>) -> (r: CommandOutcome)
    ensures
        r == match code {
            Some(c) => CommandOutcome::Exited(c),
            None => CommandOutcome::Signaled,
        },
{
    outcome(code)
}

/// The line printed when the lints pass.
pub open spec fn success_line(cwd: Seq<char>) -> Seq<char> {
    "code-review lint: bundled dylint checks passed, no findings in "@ + cwd
}

/// The result of a lint run: the success line to print, or the command
/// error for a runner that exited non-zero or was killed.
pub fn report(success: bool, code: Option<i32>, cwd: &str) -> (r: Result<String, SkillError>)
    ensures
        r is Ok == success,
        r matches Ok(line) ==> line@ == success_line(cwd@),
        r matches Err(e) ==> e matches SkillError::Command { command, outcome } && command@
            == "code-review lint"@ && outcome == (match code {
            Some(c) => CommandOutcome::Exited(c),
            None => CommandOutcome::Signaled,
        }),
{
    if success {
        let mut out: Vec<char> = Vec::new();
        push_text(&mut out, "code-review lint: bundled dylint checks passed, no findings in ");
        push_text(&mut out, cwd);
        Ok(string_of(out.as_slice()))
    } else {
        Err(SkillError::Command { command: "code-review lint".to_owned(), outcome: failure_outcome(code) })
    }
}

} // verus!
