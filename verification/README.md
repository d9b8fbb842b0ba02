# skills

The verified core of the agent skills command-line tools.

- `src/` is the library, written in Verus and verified:
  - `lints/` holds the decisions of the code-review lints (which method
    calls, assertions, attributes and items each lint reports), with the
    source-text scanners they rest on in `scan.rs`, `macro_args.rs`,
    `paths.rs`, `waivers.rs` and `text.rs`;
  - `git_review/` holds the commit-review rules: the Atomic Changes message
    form, commit date order, revision selection, commit selection files and
    base-ref precedence;
  - `json.rs` holds the JSON records the commands print, built in verified
    code and printed through `serde_json`;
  - `code_review.rs` and `error.rs` hold the lint runner's decisions and the
    shared error type with its exit codes.
- `app/` is the `skill` binary: argument parsing, running `git`, `gh` and the
  lint runner, reading files and printing, around the library's decisions.
- `tests/` exercises the library on concrete inputs.
