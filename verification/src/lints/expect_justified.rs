//! Deny unjustified `.expect()` calls in the review scope.
use vstd::prelude::*;

use crate::text::{chars_of, count_char, count_of, has_prefix, is_lit, last_occurrence, lines,
    lines_of, rfind, starts_with_lit, trim, trim_chars, trim_start, trim_start_chars};

verus! {

/// Returns true if the current compile target should be linted: only test
/// harness builds are.
pub fn should_lint_target_source(is_test_crate: bool) -> (r: bool)
    ensures
        r == is_test_crate,
{
    is_test_crate
}

/// A string-literal `expect` message explains itself unless it is blank;
/// any other message expression counts as an explanation.
pub open spec fn self_justifying(string_literal: Option<Seq<char>>) -> bool {
    match string_literal {
        Some(text) => trim(text).len() != 0,
        None => true,
    }
}

/// Returns true if the `expect` message is its own justification. `None`
/// stands for a message that is not a string literal.
pub fn message_is_self_justifying(string_literal: Option<&str>) -> (r: bool)
    ensures
        r == self_justifying(
            match string_literal {
                Some(text) => Some(text@),
                None => None,
            },
        ),
{
    match string_literal {
        Some(text) => {
            let c = chars_of(text);
            trim_chars(c.as_slice()).len() != 0
        },
        None => true,
    }
}

/// The source line of the last `.expect(` in a snippet that starts on
/// `start_line`: the start line plus the newlines before it; `None` when
/// there is no `.expect(` or the sum overflows.
pub open spec fn expect_method_line(snippet: Seq<char>, start_line: int) -> Option<int> {
    match last_occurrence(snippet, ".expect("@) {
        Some(offset) => {
            let line = start_line + count_of(snippet.subrange(0, offset), '\n');
            if line <= usize::MAX {
                Some(line)
            } else {
                None
            }
        },
        None => None,
    }
}

/// Returns the line of the `.expect(` call in a snippet starting at
/// `start_line`.
pub fn expect_method_line_from_snippet(snippet: &str, start_line: usize) -> (r: Option<usize>)
    ensures
        r is Some == expect_method_line(snippet@, start_line as int) is Some,
        r matches Some(line) ==> expect_method_line(snippet@, start_line as int) == Some(
            line as int,
        ),
{
    let c = chars_of(snippet);
    let p = chars_of(".expect(");
    match rfind(c.as_slice(), p.as_slice()) {
        Some(offset) => {
            let newlines = count_char(c.as_slice(), offset, '\n');
            start_line.checked_add(newlines)
        },
        None => None,
    }
}

/// A line whose trimmed start is one of the justification comment markers.
pub open spec fn justification_comment(line: Seq<char>) -> bool {
    let t = trim_start(line);
    has_prefix(t, "// SAFETY:"@) || has_prefix(t, "// INVARIANT:"@) || has_prefix(
        t,
        "// reason:"@,
    ) || has_prefix(t, "// PROOF:"@)
}

/// Returns true if the line is a `// SAFETY:`, `// INVARIANT:`,
/// `// reason:` or `// PROOF:` comment.
pub fn has_justification_comment(line: &str) -> (r: bool)
    ensures
        r == justification_comment(line@),
{
    let c = chars_of(line);
    let t = trim_start_chars(c.as_slice());
    justification_line(t.as_slice())
}

/// `has_justification_comment` on characters whose start is trimmed.
fn justification_line(t: &[char]) -> (r: bool)
    ensures
        r == (has_prefix(t@, "// SAFETY:"@) || has_prefix(t@, "// INVARIANT:"@) || has_prefix(
            t@,
            "// reason:"@,
        ) || has_prefix(t@, "// PROOF:"@)),
{
    starts_with_lit(t, "// SAFETY:") || starts_with_lit(t, "// INVARIANT:") || starts_with_lit(
        t,
        "// reason:",
    ) || starts_with_lit(t, "// PROOF:")
}

/// The line just before the one-based line `one_based_line` of `source`
/// exists and is a justification comment.
pub open spec fn preceding_justified(source: Seq<char>, one_based_line: int) -> bool {
    let index = one_based_line - 2;
    0 <= index < lines(source).len() && justification_comment(lines(source)[index])
}

/// Returns true if the line before `one_based_line` justifies the call.
pub fn preceding_line_has_justification(source: &str, one_based_line: usize) -> (r: bool)
    ensures
        r == preceding_justified(source@, one_based_line as int),
{
    if one_based_line < 2 {
        return false;
    }
    let zero_based_index = one_based_line - 2;
    let c = chars_of(source);
    let all = lines_of(c.as_slice());
    if zero_based_index >= all.len() {
        return false;
    }
    let line = &all[zero_based_index];
    let t = trim_start_chars(line.as_slice());
    justification_line(t.as_slice())
}

/// The method line, or the statement boundary line when it differs, is
/// preceded by a justification comment.
pub open spec fn source_justified(source: Seq<char>, method_line: int, boundary_line: int) -> bool {
    preceding_justified(source, method_line) || (boundary_line != method_line
        && preceding_justified(source, boundary_line))
}

/// Returns true if the `.expect()` call has a justification comment.
pub fn has_source_justification(source: &str, method_line: usize, boundary_line: usize) -> (r: bool)
    ensures
        r == source_justified(source@, method_line as int, boundary_line as int),
{
    preceding_line_has_justification(source, method_line) || boundary_line != method_line
        && preceding_line_has_justification(source, boundary_line)
}

/// The decision of the `expect_justified` pass for one method call: the
/// expression is written in the user's source (not produced by a macro
/// expansion, in the root syntax context) and in production scope, and it
/// is a one-argument `.expect` on an `Option` or `Result` whose message does
/// not explain itself, whose source line is known, and which no preceding
/// comment justifies.
pub fn expect_call_is_flagged(
    from_expansion: bool,
    root_context: bool,
    production: bool,
    method_name: &str,
    arg_count: usize,
    receiver_is_option_or_result: bool,
    message_literal: Option<&str>,
    method_line: Option<usize>,
    justified: bool,
) -> (r: bool)
    ensures
        r == (!from_expansion && root_context && production && method_name@ == "expect"@
            && arg_count == 1 && receiver_is_option_or_result
            && !self_justifying(
            match message_literal {
                Some(text) => Some(text@),
                None => None,
            },
        ) && method_line is Some && !justified),
{
    if from_expansion || !root_context || !production {
        return false;
    }
    let c = chars_of(method_name);
    if !is_lit(c.as_slice(), "expect") || arg_count != 1 || !receiver_is_option_or_result {
        return false;
    }
    if message_is_self_justifying(message_literal) {
        return false;
    }
    method_line.is_some() && !justified
}

/// A comment justifies a multi-line `.expect` from either place: when the
/// line before the method line or the line before the statement's boundary
/// line is a justification comment, the call is justified, whichever line
/// the other is; and only those two lines can justify it.
pub proof fn justification_before_either_line_counts(
    source: Seq<char>,
    method_line: int,
    boundary_line: int,
)
    ensures
        (0 <= boundary_line - 2 < lines(source).len() && justification_comment(
            lines(source)[boundary_line - 2],
        )) ==> source_justified(source, method_line, boundary_line),
        (0 <= method_line - 2 < lines(source).len() && justification_comment(
            lines(source)[method_line - 2],
        )) ==> source_justified(source, method_line, boundary_line),
        preceding_justified(source, boundary_line) ==> source_justified(
            source,
            method_line,
            boundary_line,
        ),
        source_justified(source, method_line, boundary_line) ==> preceding_justified(
            source,
            method_line,
        ) || preceding_justified(source, boundary_line),
{
}

} // verus!
