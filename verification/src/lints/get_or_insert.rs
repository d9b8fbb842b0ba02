//! Deny `.get_or_insert(...)` fallback accessors.
use vstd::prelude::*;

use crate::text::{chars_of, is_lit};

verus! {

/// Returns true if the current compile target should be linted: only test
/// harness builds are.
pub fn should_lint_target_source(is_test_crate: bool) -> (r: bool)
    ensures
        r == is_test_crate,
{
    is_test_crate
}

/// Returns true for `.get_or_insert(..)` / `.get_or_insert_with(..)` with
/// one argument.
pub fn is_get_or_insert_method(method_name: &str, arg_count: usize) -> (r: bool)
    ensures
        r == ((method_name@ == "get_or_insert"@ || method_name@ == "get_or_insert_with"@)
            && arg_count == 1),
{
    let c = chars_of(method_name);
    (is_lit(c.as_slice(), "get_or_insert") || is_lit(c.as_slice(), "get_or_insert_with"))
        && arg_count == 1
}

} // verus!
