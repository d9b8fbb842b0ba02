//! Deny non-tunneling `.unwrap_or_else(...)` fallback accessors.
use vstd::prelude::*;

use crate::text::{chars_of, contains_lit, has_infix, is_lit, trim, trim_chars};

verus! {

/// Returns true if the current compile target should be linted: only test
/// harness builds are.
pub fn should_lint_target_source(is_test_crate: bool) -> (r: bool)
    ensures
        r == is_test_crate,
{
    is_test_crate
}

/// Returns true for `.unwrap_or_else(..)` with one argument.
pub fn is_unwrap_or_else_method(method_name: &str, arg_count: usize) -> (r: bool)
    ensures
        r == (method_name@ == "unwrap_or_else"@ && arg_count == 1),
{
    let c = chars_of(method_name);
    is_lit(c.as_slice(), "unwrap_or_else") && arg_count == 1
}

/// A fallback that tunnels the error to a fatal exit.
pub open spec fn error_tunnel_fallback(snippet: Seq<char>) -> bool {
    has_infix(snippet, "process::abort"@) || has_infix(snippet, "exit_with_startup_ingress_error"@)
}

/// Returns true if the fallback aborts or exits through the startup error
/// path.
pub fn is_error_tunnel_fallback(fallback_snippet: &str) -> (r: bool)
    ensures
        r == error_tunnel_fallback(fallback_snippet@),
{
    let c = chars_of(fallback_snippet);
    contains_lit(c.as_slice(), "process::abort") || contains_lit(
        c.as_slice(),
        "exit_with_startup_ingress_error",
    )
}

/// A fallback that recovers a poisoned lock.
pub open spec fn poison_recovery_fallback(snippet: Seq<char>) -> bool {
    trim(snippet) == "PoisonError::into_inner"@
}

/// Returns true if the fallback is `PoisonError::into_inner`.
pub fn is_poison_recovery_fallback(fallback_snippet: &str) -> (r: bool)
    ensures
        r == poison_recovery_fallback(fallback_snippet@),
{
    let c = chars_of(fallback_snippet);
    let t = trim_chars(c.as_slice());
    is_lit(t.as_slice(), "PoisonError::into_inner")
}

/// A fallback that silently substitutes data for the missing value.
pub open spec fn masks_missing_data(snippet: Seq<char>) -> bool {
    !error_tunnel_fallback(snippet) && !poison_recovery_fallback(snippet)
}

/// Returns true if the fallback neither tunnels the error nor recovers a
/// poisoned lock.
pub fn fallback_snippet_masks_missing_data(fallback_snippet: &str) -> (r: bool)
    ensures
        r == masks_missing_data(fallback_snippet@),
{
    !is_error_tunnel_fallback(fallback_snippet) && !is_poison_recovery_fallback(fallback_snippet)
}

/// Returns true if the fallback masks missing data; a fallback whose source
/// text is unavailable is assumed to.
pub fn fallback_masks_missing_data(fallback_snippet: Option<&str>) -> (r: bool)
    ensures
        r == match fallback_snippet {
            Some(text) => masks_missing_data(text@),
            None => true,
        },
{
    match fallback_snippet {
        Some(text) => fallback_snippet_masks_missing_data(text),
        None => true,
    }
}

/// The decision of the `unwrap_or_else` pass for one method call: a
/// one-argument `.unwrap_or_else` whose fallback does not diverge and masks
/// missing data.
pub fn unwrap_or_else_call_is_flagged(
    method_name: &str,
    arg_count: usize,
    fallback_is_diverging: bool,
    fallback_snippet: Option<&str>,
) -> (r: bool)
    ensures
        r == (method_name@ == "unwrap_or_else"@ && arg_count == 1 && !fallback_is_diverging && match fallback_snippet {
            Some(text) => masks_missing_data(text@),
            None => true,
        }),
{
    is_unwrap_or_else_method(method_name, arg_count) && !fallback_is_diverging
        && fallback_masks_missing_data(fallback_snippet)
}

} // verus!
