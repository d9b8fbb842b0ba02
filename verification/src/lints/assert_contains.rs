//! Deny `assert!(value.contains(...))` loose matchers in the review scope.
use vstd::prelude::*;

use crate::scan::{directly_inside_target_macro, is_direct_target_macro_condition_at, target_bytes};
use crate::text::{chars_of, ends_with_lit, has_infix, has_suffix, has_prefix, is_lit, is_ws,
    starts_with_lit, trim, trim_chars};
use vstd::string::StringSliceAdditionalSpecFns;

verus! {

/// Assertion macros whose first argument is a boolean observation.
pub open spec fn assertion_macro_list() -> Seq<&'static str> {
    seq!["assert", "assert_eq", "debug_assert", "debug_assert_eq", "prop_assert", "prop_assert_eq"]
}

/// Assertion macros whose first argument is a boolean observation.
pub fn assertion_macros() -> (r: Vec<&'static str>)
    ensures
        r@ == assertion_macro_list(),
{
    let r = vec![
        "assert",
        "assert_eq",
        "debug_assert",
        "debug_assert_eq",
        "prop_assert",
        "prop_assert_eq",
    ];
    assert(r@ =~= assertion_macro_list());
    r
}

/// Returns true if the current compile target should be linted: only test
/// harness builds are.
pub fn should_lint_target_source(is_test_crate: bool) -> (r: bool)
    ensures
        r == is_test_crate,
{
    is_test_crate
}

/// A receiver name that holds source, rendered or debug proof text.
pub open spec fn source_like_name(r: Seq<char>) -> bool {
    ||| r == "source"@
    ||| r == "production_source"@
    ||| r == "rendered"@
    ||| r == "rendered_source"@
    ||| has_suffix(r, "_source"@)
}

/// Returns true if a receiver name should be treated as source-like proof text.
pub fn receiver_name_is_source_like(receiver: &str) -> (r: bool)
    ensures
        r == source_like_name(receiver@),
{
    let c = chars_of(receiver);
    is_lit(c.as_slice(), "source") || is_lit(c.as_slice(), "production_source") || is_lit(
        c.as_slice(),
        "rendered",
    ) || is_lit(c.as_slice(), "rendered_source") || ends_with_lit(c.as_slice(), "_source")
}

/// Returns true if the receiver's source snippet, trimmed, is source-like.
pub fn receiver_is_source_like(receiver_snippet: &str) -> (r: bool)
    ensures
        r == source_like_name(trim(receiver_snippet@)),
{
    let c = chars_of(receiver_snippet);
    let t = trim_chars(c.as_slice());
    let s = crate::text::string_of(t.as_slice());
    receiver_name_is_source_like(s.as_str())
}

/// The call shape of a loose substring observation: `.contains` with one
/// argument that is a literal or whose receiver is source-like text.
pub open spec fn contains_method_shape(
    method_name: Seq<char>,
    argument_count: int,
    first_argument_is_literal: bool,
    receiver_snippet: Seq<char>,
) -> bool {
    method_name == "contains"@ && argument_count == 1 && (first_argument_is_literal
        || source_like_name(trim(receiver_snippet)))
}

/// Returns true if the call shape matches a loose substring observation.
pub fn is_contains_method(
    method_name: &str,
    argument_count: usize,
    first_argument_is_literal: bool,
    receiver_snippet: &str,
) -> (r: bool)
    ensures
        r == contains_method_shape(
            method_name@,
            argument_count as int,
            first_argument_is_literal,
            receiver_snippet@,
        ),
{
    let name = chars_of(method_name);
    is_lit(name.as_slice(), "contains") && argument_count == 1 && (first_argument_is_literal
        || receiver_is_source_like(receiver_snippet))
}

/// A source-ratchet membership filter such as
/// `.filter(|target| source.contains(target))`: a source-like receiver and a
/// first argument that is there and is not a literal.
pub open spec fn source_like_membership(
    receiver_snippet: Seq<char>,
    first_argument_is_literal: Option<bool>,
) -> bool {
    source_like_name(trim(receiver_snippet)) && first_argument_is_literal == Some(false)
}

/// Returns true for source-ratchet membership filters.
pub fn is_source_like_variable_membership(
    receiver_snippet: &str,
    first_argument_is_literal: Option<bool>,
) -> (r: bool)
    ensures
        r == source_like_membership(receiver_snippet@, first_argument_is_literal),
{
    receiver_is_source_like(receiver_snippet) && first_argument_is_literal == Some(false)
}

/// The receiver text reads as rendered Debug/Display output, where
/// `.contains(...)` is the right tool: a `format!` invocation, a
/// `.to_string()` chain, a UTF-8 decode of bytes, or a bare variable named
/// like rendered output.
pub open spec fn rendered_text_receiver(snippet: Seq<char>) -> bool {
    let t = trim(snippet);
    ||| has_prefix(t, "format!("@)
    ||| has_prefix(t, "format !("@)
    ||| has_infix(t, ".to_string()"@)
    ||| has_prefix(t, "String::from_utf8("@)
    ||| has_prefix(t, "String::from_utf8_lossy("@)
    ||| (bare_identifier_text(t) && (t == "debug"@ || t == "stdout"@ || t == "stderr"@ || t
        == "output"@ || has_suffix(t, "_debug"@) || has_suffix(t, "_string"@) || has_suffix(
        t,
        "_output"@,
    )))
}

/// Text without `.`, `(` or whitespace.
pub open spec fn bare_identifier_text(t: Seq<char>) -> bool {
    forall|i: int| 0 <= i < t.len() ==> #[trigger] t[i] != '.' && t[i] != '(' && !is_ws(t[i])
}

/// Whether the characters contain none of `.`, `(`, or whitespace.
fn is_bare_identifier_text(t: &[char]) -> (r: bool)
    ensures
        r == bare_identifier_text(t@),
{
    let mut i: usize = 0;
    while i < t.len()
        invariant
            i <= t@.len(),
            forall|j: int| 0 <= j < i ==> #[trigger] t@[j] != '.' && t@[j] != '(' && !is_ws(t@[j]),
        decreases t@.len() - i,
    {
        if t[i] == '.' || t[i] == '(' || crate::text::is_whitespace(t[i]) {
            return false;
        }
        i = i + 1;
    }
    true
}

/// Returns true if the receiver's source text (at its macro call site) is
/// rendered Debug/Display output.
pub fn receiver_is_format_macro(receiver_snippet: &str) -> (r: bool)
    ensures
        r == rendered_text_receiver(receiver_snippet@),
{
    let c = chars_of(receiver_snippet);
    let t = trim_chars(c.as_slice());
    let t = t.as_slice();
    if starts_with_lit(t, "format!(") || starts_with_lit(t, "format !(") {
        return true;
    }
    if crate::text::contains_lit(t, ".to_string()") {
        return true;
    }
    if starts_with_lit(t, "String::from_utf8(") || starts_with_lit(t, "String::from_utf8_lossy(") {
        return true;
    }
    if is_bare_identifier_text(t) {
        return is_lit(t, "debug") || is_lit(t, "stdout") || is_lit(t, "stderr") || is_lit(
            t,
            "output",
        ) || ends_with_lit(t, "_debug") || ends_with_lit(t, "_string") || ends_with_lit(
            t,
            "_output",
        );
    }
    false
}

/// Returns true if `byte_index` falls directly inside any `targets` macro
/// invocation in `source`: the innermost such invocation has nothing but
/// whitespace, optionally a single `!`, between its opener and the index.
pub fn is_inside_any_target_macro_invocation_at(source: &str, byte_index: usize, targets: &[&str]) -> (r:
    bool)
    ensures
        r == directly_inside_target_macro(
            source.spec_bytes(),
            byte_index as int,
            target_bytes(targets@),
            true,
        ),
{
    is_direct_target_macro_condition_at(source, byte_index, targets, true)
}

/// Returns true if `byte_index` falls directly inside a `target!(...)`
/// invocation in `source`.
pub fn is_inside_target_macro_invocation_at(source: &str, byte_index: usize, target: &str) -> (r:
    bool)
    ensures
        r == directly_inside_target_macro(
            source.spec_bytes(),
            byte_index as int,
            seq![target.spec_bytes()],
            true,
        ),
{
    let targets = vec![target];
    assert(target_bytes(targets@) =~= seq![target.spec_bytes()]);
    is_inside_any_target_macro_invocation_at(source, byte_index, targets.as_slice())
}

/// Whether a `.contains(...)` call is reported: a loose-matcher shape on a
/// receiver that is not rendered text, either directly inside an assertion
/// or as a source-like membership test.
pub open spec fn contains_call_flagged(
    method_name: Seq<char>,
    argument_count: int,
    first_argument_is_literal: Option<bool>,
    receiver_snippet: Seq<char>,
    receiver_callsite_snippet: Seq<char>,
    inside_assertion: bool,
) -> bool {
    &&& contains_method_shape(
        method_name,
        argument_count,
        first_argument_is_literal == Some(true),
        receiver_snippet,
    )
    &&& !rendered_text_receiver(receiver_callsite_snippet)
    &&& (inside_assertion || source_like_membership(receiver_snippet, first_argument_is_literal))
}

/// The decision of the `assert_contains` pass for one method call, from
/// what the compiler reports about it: its name, argument count, whether
/// its first argument is a literal, the receiver's source text (also at its
/// macro call site), and whether the call is directly inside an assertion.
pub fn contains_call_is_flagged(
    method_name: &str,
    argument_count: usize,
    first_argument_is_literal: Option<bool>,
    receiver_snippet: &str,
    receiver_callsite_snippet: &str,
    inside_assertion: bool,
) -> (r: bool)
    ensures
        r == contains_call_flagged(
            method_name@,
            argument_count as int,
            first_argument_is_literal,
            receiver_snippet@,
            receiver_callsite_snippet@,
            inside_assertion,
        ),
{
    is_contains_method(
        method_name,
        argument_count,
        first_argument_is_literal == Some(true),
        receiver_snippet,
    ) && !receiver_is_format_macro(receiver_callsite_snippet) && (inside_assertion
        || is_source_like_variable_membership(receiver_snippet, first_argument_is_literal))
}

/// Rendered output is never flagged: a `.contains` call whose receiver, at
/// its call site, is a bare variable (no `.`, `(` or whitespace) named
/// `debug`, `stdout`, `stderr` or `output`, or ending in `_debug`,
/// `_string` or `_output`, is not reported, whatever the method shape,
/// arguments or surrounding assertion.
pub proof fn rendered_output_receivers_are_never_flagged(
    method_name: Seq<char>,
    argument_count: int,
    first_argument_is_literal: Option<bool>,
    receiver_snippet: Seq<char>,
    receiver_callsite_snippet: Seq<char>,
    inside_assertion: bool,
)
    requires
        forall|i: int|
            0 <= i < receiver_callsite_snippet.len() ==> #[trigger] receiver_callsite_snippet[i]
                != '.' && receiver_callsite_snippet[i] != '(' && !is_ws(receiver_callsite_snippet[i]),
        receiver_callsite_snippet == "debug"@ || receiver_callsite_snippet == "stdout"@
            || receiver_callsite_snippet == "stderr"@ || receiver_callsite_snippet == "output"@
            || has_suffix(receiver_callsite_snippet, "_debug"@) || has_suffix(
            receiver_callsite_snippet,
            "_string"@,
        ) || has_suffix(receiver_callsite_snippet, "_output"@),
    ensures
        !contains_call_flagged(
            method_name,
            argument_count,
            first_argument_is_literal,
            receiver_snippet,
            receiver_callsite_snippet,
            inside_assertion,
        ),
{
    let c = receiver_callsite_snippet;
    assert(crate::text::trim_start(c) == c);
    if c.len() > 0 {
        assert(!is_ws(c[0]));
    }
    assert(crate::text::trim_end(c) == c);
    if c.len() > 0 {
        assert(!is_ws(c.last()));
    }
    assert(trim(c) == c);
    assert(bare_identifier_text(trim(c)));
    assert(rendered_text_receiver(c));
}

} // verus!
