//! Deny `assert!(value.starts_with(...))` loose matchers in the review scope.
use vstd::prelude::*;

use crate::scan::{directly_inside_target_macro, is_direct_target_macro_condition_at, target_bytes};
use crate::text::{chars_of, has_infix, has_prefix, is_lit, starts_with_lit, contains_lit};
use vstd::string::StringSliceAdditionalSpecFns;

verus! {

/// Returns true if the current compile target should be linted: only test
/// harness builds are.
pub fn should_lint_target_source(is_test_crate: bool) -> (r: bool)
    ensures
        r == is_test_crate,
{
    is_test_crate
}

/// A string-literal argument that reads as a path or URL prefix.
pub open spec fn path_prefix_text(text: Seq<char>) -> bool {
    has_prefix(text, "/"@) || has_infix(text, "://"@)
}

/// Returns true if the first argument is a string literal naming a path or
/// URL prefix (`/...` or containing `://`); `None` stands for an argument
/// that is missing or is not a string literal.
pub fn argument_is_path_prefix(string_literal: Option<&str>) -> (r: bool)
    ensures
        r == match string_literal {
            Some(text) => path_prefix_text(text@),
            None => false,
        },
{
    match string_literal {
        Some(text) => {
            let c = chars_of(text);
            starts_with_lit(c.as_slice(), "/") || contains_lit(c.as_slice(), "://")
        },
        None => false,
    }
}

/// `.starts_with` called with one argument.
pub open spec fn starts_with_shape(method_name: Seq<char>, arg_count: int) -> bool {
    method_name == "starts_with"@ && arg_count == 1
}

/// Returns true if the call is `.starts_with(...)` with one argument.
pub fn is_starts_with_method(method_name: &str, arg_count: usize) -> (r: bool)
    ensures
        r == starts_with_shape(method_name@, arg_count as int),
{
    let c = chars_of(method_name);
    is_lit(c.as_slice(), "starts_with") && arg_count == 1
}

/// Returns true if `byte_index` is directly the condition of a
/// `target!(...)` invocation in `source`: only whitespace separates it from
/// the opening delimiter.
pub fn is_inside_target_macro_invocation_at(source: &str, byte_index: usize, target: &str) -> (r:
    bool)
    ensures
        r == directly_inside_target_macro(
            source.spec_bytes(),
            byte_index as int,
            seq![target.spec_bytes()],
            false,
        ),
{
    let targets = vec![target];
    assert(target_bytes(targets@) =~= seq![target.spec_bytes()]);
    is_direct_target_macro_condition_at(source, byte_index, targets.as_slice(), false)
}

/// The decision of the `assert_starts_with` pass for one method call: a
/// one-argument `.starts_with` directly inside `assert!`, unless its
/// argument is a path or URL prefix literal.
pub fn starts_with_call_is_flagged(
    method_name: &str,
    arg_count: usize,
    first_argument_literal: Option<&str>,
    inside_assert: bool,
) -> (r: bool)
    ensures
        r == (starts_with_shape(method_name@, arg_count as int) && !(match first_argument_literal {
            Some(text) => path_prefix_text(text@),
            None => false,
        }) && inside_assert),
{
    is_starts_with_method(method_name, arg_count) && !argument_is_path_prefix(first_argument_literal)
        && inside_assert
}

} // verus!
