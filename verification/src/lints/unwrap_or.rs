//! Deny `.unwrap_or(...)` fallback accessors.
use vstd::prelude::*;

use crate::text::{chars_of, is_lit};

verus! {

/// Returns true if the current compile target should be linted: only test
/// harness builds are.
pub fn should_lint_target_source(is_test_crate: bool) -> (r: bool)
    ensures
        r == is_test_crate,
{
    is_test_crate
}

/// Returns true for `.unwrap_or(..)` with one argument.
pub fn is_unwrap_or_method(method_name: &str, arg_count: usize) -> (r: bool)
    ensures
        r == (method_name@ == "unwrap_or"@ && arg_count == 1),
{
    let c = chars_of(method_name);
    is_lit(c.as_slice(), "unwrap_or") && arg_count == 1
}

/// Returns true when the receiver is itself a `strip_prefix` /
/// `strip_suffix` call, whose fallback is the unstripped text. `None`
/// stands for a receiver that is not a method call.
pub fn receiver_is_safe_strip(receiver_method: Option<&str>) -> (r: bool)
    ensures
        r == (receiver_method matches Some(m) && (m@ == "strip_prefix"@ || m@ == "strip_suffix"@)),
{
    match receiver_method {
        Some(m) => {
            let c = chars_of(m);
            is_lit(c.as_slice(), "strip_prefix") || is_lit(c.as_slice(), "strip_suffix")
        },
        None => false,
    }
}

/// The decision of the `unwrap_or` pass for one method call.
pub fn unwrap_or_call_is_flagged(method_name: &str, arg_count: usize, receiver_method: Option<&str>) -> (r:
    bool)
    ensures
        r == (method_name@ == "unwrap_or"@ && arg_count == 1 && !(receiver_method matches Some(m)
            && (m@ == "strip_prefix"@ || m@ == "strip_suffix"@))),
{
    is_unwrap_or_method(method_name, arg_count) && !receiver_is_safe_strip(receiver_method)
}

} // verus!
