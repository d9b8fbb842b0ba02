//! Deny bare `.clone()` on `Arc` / `Rc` receivers.
use vstd::prelude::*;

pub use crate::scan::is_inside_macro_invocation_at;
use crate::text::{chars_of, is_lit};

verus! {

/// Returns true if the current compile target should be linted: only test
/// harness builds are.
pub fn should_lint_target_source(is_test_crate: bool) -> (r: bool)
    ensures
        r == is_test_crate,
{
    is_test_crate
}

/// The decision of the `bare_clone` pass for one method call written in
/// the user's source: `.clone()` with no argument on an `Arc`/`Rc`
/// receiver, outside any macro invocation.
pub fn clone_call_is_flagged(
    method_name: &str,
    arg_count: usize,
    receiver_is_arc_or_rc: bool,
    inside_macro_invocation: bool,
) -> (r: bool)
    ensures
        r == (method_name@ == "clone"@ && arg_count == 0 && receiver_is_arc_or_rc
            && !inside_macro_invocation),
{
    let c = chars_of(method_name);
    is_lit(c.as_slice(), "clone") && arg_count == 0 && receiver_is_arc_or_rc
        && !inside_macro_invocation
}

} // verus!
